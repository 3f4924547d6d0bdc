//! Reading the text of an environment file.
//!
//! The text is cut into lines at each line feed; a carriage return just before the
//! line feed goes with it. What follows the last line feed is a line of its own
//! unless it is empty. Each line is cut at its first `=`: the name stands before it
//! and the raw value after it, so a value may itself hold `=`. A line without `=` is
//! a name with the empty value. No line is skipped: an empty line names the empty
//! name, and a line that starts with `#` is a line like any other. Where a name
//! comes twice, the later line decides its value.

use vstd::prelude::*;
use vstd::std_specs::iter::IteratorSpec;
use vstd::string::StrSliceExecFns;
use vstd::string::StringExecFns;
use crate::env_map::EnvMap;

verus! {

/// The position of the first `mark` in `text`, or the length of `text` where it
/// holds none.
pub open spec fn first_index(text: Seq<char>, mark: char) -> nat
    decreases text.len(),
{
    if text.len() == 0 {
        0
    } else if text[0] == mark {
        0
    } else {
        1 + first_index(text.drop_first(), mark)
    }
}

/// `at` is the first position of `mark` in `text`, or the end of a text without it.
pub open spec fn is_first_index(text: Seq<char>, mark: char, at: int) -> bool {
    &&& 0 <= at <= text.len()
    &&& forall|i: int| 0 <= i < at ==> text[i] != mark
    &&& at < text.len() ==> text[at] == mark
}

/// `first_index` is the one position that `is_first_index` describes.
pub proof fn lemma_first_index(text: Seq<char>, mark: char, at: int)
    requires
        is_first_index(text, mark, at),
    ensures
        first_index(text, mark) == at,
    decreases text.len(),
{
    if text.len() > 0 && text[0] != mark {
        let rest = text.drop_first();
        assert forall|i: int| 0 <= i < at - 1 implies rest[i] != mark by {
            assert(rest[i] == text[i + 1]);
        }
        lemma_first_index(rest, mark, at - 1);
    }
}

/// `first_index` always is a first position.
pub proof fn lemma_first_index_is_first(text: Seq<char>, mark: char)
    ensures
        is_first_index(text, mark, first_index(text, mark) as int),
    decreases text.len(),
{
    if text.len() > 0 && text[0] != mark {
        let rest = text.drop_first();
        lemma_first_index_is_first(rest, mark);
        let at = first_index(rest, mark);
        assert forall|i: int| 0 <= i < at + 1 implies text[i] != mark by {
            if i > 0 {
                assert(rest[i - 1] == text[i]);
            }
        }
    }
}

/// The name that a line gives: all that stands before its first `=`.
pub open spec fn line_key(line: Seq<char>) -> Seq<char> {
    line.take(first_index(line, '=') as int)
}

/// The raw value that a line gives: all that follows its first `=`, and the empty
/// value where the line holds no `=`.
pub open spec fn line_value(line: Seq<char>) -> Seq<char> {
    let at = first_index(line, '=') as int;
    if at < line.len() {
        line.skip(at + 1)
    } else {
        Seq::empty()
    }
}

/// A line as it is handed on: without the carriage return that ended it, if one did.
pub open spec fn without_carriage_return(line: Seq<char>) -> Seq<char> {
    if line.len() > 0 && line.last() == '\r' {
        line.drop_last()
    } else {
        line
    }
}

/// The lines of a text.
pub open spec fn lines_of(text: Seq<char>) -> Seq<Seq<char>>
    decreases text.len(),
{
    if text.len() == 0 {
        Seq::empty()
    } else {
        let at = first_index(text, '\n') as int;
        if at < text.len() {
            seq![without_carriage_return(text.take(at))] + lines_of(text.skip(at + 1))
        } else {
            seq![text]
        }
    }
}

/// The mapping that lines give when they are read in turn, a later line replacing
/// what an earlier one said of the same name.
pub open spec fn env_of_lines(lines: Seq<Seq<char>>) -> Map<Seq<char>, Seq<char>>
    decreases lines.len(),
{
    if lines.len() == 0 {
        Map::empty()
    } else {
        env_of_lines(lines.drop_last()).insert(line_key(lines.last()), line_value(lines.last()))
    }
}

/// The mapping that the text of an environment file gives.
pub open spec fn env_of_text(text: Seq<char>) -> Map<Seq<char>, Seq<char>> {
    env_of_lines(lines_of(text))
}

/// The texts that a sequence of strings holds, in the same order.
pub open spec fn texts_of(strings: Seq<String>) -> Seq<Seq<char>> {
    Seq::new(strings.len(), |i: int| strings[i]@)
}

/// Finds the first `mark` in `text` and returns its position, counted in characters,
/// or the number of characters of a text without it.
pub fn find_char(text: &str, mark: char) -> (r: usize)
    ensures
        r == first_index(text@, mark),
        r <= text@.len(),
{
    let count = text.unicode_len();
    let mut rest = text.chars();
    let mut at: usize = 0;
    loop
        invariant
            at <= count == text@.len(),
            rest.remaining() == text@.skip(at as int),
            forall|i: int| 0 <= i < at ==> text@[i] != mark,
        decreases count - at,
    {
        match rest.next() {
            None => {
                proof {
                    lemma_first_index(text@, mark, at as int);
                }
                return at;
            },
            Some(c) => {
                assert(c == text@[at as int]);
                if c == mark {
                    proof {
                        lemma_first_index(text@, mark, at as int);
                    }
                    return at;
                }
                at += 1;
            },
        }
    }
}

/// Cuts a text into its lines.
pub fn split_lines(text: &str) -> (r: Vec<String>)
    ensures
        texts_of(r@) == lines_of(text@),
{
    let count = text.unicode_len();
    let mut lines: Vec<String> = Vec::new();
    let mut rest = text.chars();
    let mut start: usize = 0;
    let mut at: usize = 0;
    let mut after_return = false;
    proof {
        assert(text@.skip(0) =~= text@);
        assert(texts_of(lines@) + lines_of(text@) =~= lines_of(text@));
    }
    loop
        invariant
            start <= at <= count == text@.len(),
            rest.remaining() == text@.skip(at as int),
            forall|i: int| start <= i < at ==> text@[i] != '\n',
            after_return == (start < at && text@[at - 1] == '\r'),
            lines_of(text@) == texts_of(lines@) + lines_of(text@.skip(start as int)),
        decreases count - at,
    {
        let ghost tail = text@.skip(start as int);
        let ghost done = texts_of(lines@);
        match rest.next() {
            None => {
                if start < count {
                    let line = String::from_str(text.substring_char(start, count));
                    proof {
                        lemma_first_index(tail, '\n', tail.len() as int);
                        assert(text@.subrange(start as int, count as int) =~= tail);
                        assert(texts_of(lines@.push(line)) =~= done + seq![tail]);
                    }
                    lines.push(line);
                } else {
                    assert(done + lines_of(tail) =~= done);
                }
                return lines;
            },
            Some(c) => {
                assert(c == text@[at as int]);
                if c == '\n' {
                    let end = if after_return {
                        at - 1
                    } else {
                        at
                    };
                    let line = String::from_str(text.substring_char(start, end));
                    proof {
                        lemma_first_index(tail, '\n', at - start);
                        assert(tail.take(at - start) =~= text@.subrange(start as int, at as int));
                        assert(without_carriage_return(tail.take(at - start)) =~= text@.subrange(
                            start as int,
                            end as int,
                        ));
                        assert(tail.skip(at - start + 1) =~= text@.skip(at + 1));
                        assert(texts_of(lines@.push(line)) =~= done + seq![line@]);
                        assert(done + (seq![line@] + lines_of(text@.skip(at + 1))) =~= (done
                            + seq![line@]) + lines_of(text@.skip(at + 1)));
                    }
                    lines.push(line);
                    start = at + 1;
                    after_return = false;
                } else {
                    after_return = c == '\r';
                }
                at += 1;
            },
        }
    }
}

/// Cuts one line into its name and its raw value.
pub fn parse_line(line: &str) -> (r: (String, String))
    ensures
        r.0@ == line_key(line@),
        r.1@ == line_value(line@),
{
    let count = line.unicode_len();
    let at = find_char(line, '=');
    let key = String::from_str(line.substring_char(0, at));
    let value = if at < count {
        String::from_str(line.substring_char(at + 1, count))
    } else {
        String::new()
    };
    (key, value)
}

/// Reading one more line sets its name to its value in what the lines before gave.
pub proof fn lemma_env_of_lines_step(lines: Seq<Seq<char>>, i: int)
    requires
        0 <= i < lines.len(),
    ensures
        env_of_lines(lines.take(i + 1)) == env_of_lines(lines.take(i)).insert(
            line_key(lines[i]),
            line_value(lines[i]),
        ),
{
    assert(lines.take(i + 1).drop_last() =~= lines.take(i));
    assert(lines.take(i + 1).last() == lines[i]);
}

/// Reads the text of an environment file into a map.
pub fn parse_env(text: &str) -> (r: EnvMap)
    ensures
        r@ == env_of_text(text@),
{
    let lines = split_lines(text);
    let ghost read = lines_of(text@);
    let mut map = EnvMap::new();
    let mut i: usize = 0;
    proof {
        assert(read.take(0) =~= Seq::<Seq<char>>::empty());
    }
    while i < lines.len()
        invariant
            i <= lines.len(),
            texts_of(lines@) == read,
            map@ == env_of_lines(read.take(i as int)),
        decreases lines.len() - i,
    {
        let (key, value) = parse_line(lines[i].as_str());
        proof {
            assert(read[i as int] == lines@[i as int]@);
            lemma_env_of_lines_step(read, i as int);
        }
        map.insert(key, value);
        i += 1;
    }
    proof {
        assert(read.take(i as int) =~= read);
    }
    map
}

/// The name that a line gives never holds `=`.
pub proof fn lemma_name_holds_no_separator(line: Seq<char>)
    ensures
        !line_key(line).contains('='),
{
    lemma_first_index_is_first(line, '=');
    let name = line_key(line);
    if name.contains('=') {
        let i = choose|i: int| 0 <= i < name.len() && name[i] == '=';
        assert(name[i] == line[i]);
    }
}

/// A line made of a name without `=`, then `=`, then a value gives that name and
/// that value, whatever the value holds.
pub proof fn lemma_line_with_separator(key: Seq<char>, value: Seq<char>)
    requires
        !key.contains('='),
    ensures
        line_key(key + seq!['='] + value) == key,
        line_value(key + seq!['='] + value) == value,
{
    let line = key + seq!['='] + value;
    assert forall|i: int| 0 <= i < key.len() implies line[i] != '=' by {
        assert(line[i] == key[i]);
        assert(key.contains(key[i]));
    }
    assert(line[key.len() as int] == '=');
    lemma_first_index(line, '=', key.len() as int);
    assert(line.take(key.len() as int) =~= key);
    assert(line.skip(key.len() as int + 1) =~= value);
}

/// A line without `=` is a name, and its value is empty.
pub proof fn lemma_line_without_separator(line: Seq<char>)
    requires
        !line.contains('='),
    ensures
        line_key(line) == line,
        line_value(line) == Seq::<char>::empty(),
{
    assert forall|i: int| 0 <= i < line.len() implies line[i] != '=' by {
        assert(line.contains(line[i]));
    }
    lemma_first_index(line, '=', line.len() as int);
    assert(line.take(line.len() as int) =~= line);
}

/// The names that lines give are the names of their lines, and no others.
pub proof fn lemma_names_of_lines(lines: Seq<Seq<char>>, name: Seq<char>)
    ensures
        env_of_lines(lines).contains_key(name) <==> exists|i: int|
            0 <= i < lines.len() && line_key(#[trigger] lines[i]) == name,
    decreases lines.len(),
{
    if lines.len() > 0 {
        let front = lines.drop_last();
        lemma_names_of_lines(front, name);
        if env_of_lines(lines).contains_key(name) {
            if line_key(lines.last()) == name {
                assert(line_key(lines[lines.len() - 1]) == name);
            } else {
                let i = choose|i: int| 0 <= i < front.len() && line_key(#[trigger] front[i]) == name;
                assert(line_key(lines[i]) == name);
            }
        }
        if exists|i: int| 0 <= i < lines.len() && line_key(#[trigger] lines[i]) == name {
            let i = choose|i: int| 0 <= i < lines.len() && line_key(#[trigger] lines[i]) == name;
            if i < front.len() {
                assert(line_key(front[i]) == name);
            }
        }
    }
}

/// Where a name comes on more than one line, the last of them decides: a line that no
/// later line repeats the name of gives the name its value.
pub proof fn lemma_later_line_wins(lines: Seq<Seq<char>>, i: int)
    requires
        0 <= i < lines.len(),
        forall|j: int| i < j < lines.len() ==> line_key(#[trigger] lines[j]) != line_key(lines[i]),
    ensures
        env_of_lines(lines).contains_key(line_key(lines[i])),
        env_of_lines(lines)[line_key(lines[i])] == line_value(lines[i]),
    decreases lines.len(),
{
    if i < lines.len() - 1 {
        let front = lines.drop_last();
        assert(front[i] == lines[i]);
        assert forall|j: int| i < j < front.len() implies line_key(#[trigger] front[j]) != line_key(
            front[i],
        ) by {
            assert(front[j] == lines[j]);
        }
        lemma_later_line_wins(front, i);
        assert(line_key(lines[lines.len() - 1]) != line_key(lines[i]));
    }
}

} // verus!
