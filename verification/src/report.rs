//! What a comparison has to tell the operator.
//!
//! The report has one part for the missing variables and one for the stale ones, in
//! that order. A part without variables is left out. Within a part each variable is
//! one line, `name=value`, and the lines come in ascending order of the names.

use vstd::prelude::*;
use vstd::string::StringExecFns;
use crate::env_map::{pairs_of, EnvMap};
use crate::listing::listing;
use crate::parser::texts_of;
use crate::reconcile::DiffResult;

verus! {

/// The two kinds of finding.
#[derive(Clone, Copy, Debug, PartialEq, Eq, Structural)]
pub enum Section {
    Missing,
    Stale,
}

impl Section {
    /// The line that stands above the findings of this kind.
    pub fn heading(&self) -> (r: &'static str)
        ensures
            r@ == (match *self {
                Section::Missing => "These lines are missing"@,
                Section::Stale => "These lines are useless"@,
            }),
    {
        match self {
            Section::Missing => "These lines are missing",
            Section::Stale => "These lines are useless",
        }
    }
}

/// The findings of one kind, one line for each variable.
#[derive(Clone, Debug, PartialEq, Eq)]
pub struct ReportPart {
    pub section: Section,
    pub lines: Vec<String>,
}

impl View for ReportPart {
    type V = (Section, Seq<Seq<char>>);

    open spec fn view(&self) -> (Section, Seq<Seq<char>>) {
        (self.section, texts_of(self.lines@))
    }
}

/// The line that shows one variable.
pub open spec fn entry_line(pair: (Seq<char>, Seq<char>)) -> Seq<char> {
    pair.0 + seq!['='] + pair.1
}

/// The lines that show the variables of a mapping, in ascending order of the names.
pub open spec fn lines_for(map: Map<Seq<char>, Seq<char>>) -> Seq<Seq<char>> {
    Seq::new(listing(map).len(), |i: int| entry_line(listing(map)[i]))
}

/// The part that shows the variables of `map` under `section`: none where the
/// mapping is empty.
pub open spec fn part_for(section: Section, map: Map<Seq<char>, Seq<char>>) -> Seq<
    (Section, Seq<Seq<char>>),
> {
    if map == Map::<Seq<char>, Seq<char>>::empty() {
        Seq::empty()
    } else {
        seq![(section, lines_for(map))]
    }
}

/// The report of a comparison that found `missing` and `stale`.
pub open spec fn report_of(
    missing: Map<Seq<char>, Seq<char>>,
    stale: Map<Seq<char>, Seq<char>>,
) -> Seq<(Section, Seq<Seq<char>>)> {
    part_for(Section::Missing, missing) + part_for(Section::Stale, stale)
}

/// The parts that a sequence of report parts stands for, in the same order.
pub open spec fn parts_of(parts: Seq<ReportPart>) -> Seq<(Section, Seq<Seq<char>>)> {
    Seq::new(parts.len(), |i: int| parts[i]@)
}

/// Writes one variable as a line.
pub fn format_entry(key: &str, value: &str) -> (r: String)
    ensures
        r@ == entry_line((key@, value@)),
{
    proof {
        reveal_strlit("=");
        assert("="@ =~= seq!['=']);
    }
    String::from_str(key).concat("=").concat(value)
}

/// Writes the variables of a map as lines, in ascending order of the names.
pub fn format_entries(map: &EnvMap) -> (r: Vec<String>)
    ensures
        texts_of(r@) == lines_for(map@),
{
    let entries = map.entries();
    let mut lines: Vec<String> = Vec::new();
    let mut i: usize = 0;
    while i < entries.len()
        invariant
            i <= entries.len(),
            pairs_of(entries@) == listing(map@),
            lines.len() == i,
            forall|j: int| 0 <= j < i ==> (#[trigger] lines@[j])@ == entry_line(listing(map@)[j]),
        decreases entries.len() - i,
    {
        let entry = &entries[i];
        assert(pairs_of(entries@)[i as int] == entry@);
        lines.push(format_entry(entry.key.as_str(), entry.value.as_str()));
        i += 1;
    }
    assert(texts_of(lines@) =~= lines_for(map@));
    lines
}

/// Draws up the report of a comparison.
pub fn report(found: &DiffResult) -> (r: Vec<ReportPart>)
    ensures
        parts_of(r@) == report_of(found.missing@, found.stale@),
{
    let mut parts: Vec<ReportPart> = Vec::new();
    if !found.missing.is_empty() {
        parts.push(ReportPart { section: Section::Missing, lines: format_entries(&found.missing) });
    }
    let ghost first = parts_of(parts@);
    assert(first =~= part_for(Section::Missing, found.missing@));
    if !found.stale.is_empty() {
        parts.push(ReportPart { section: Section::Stale, lines: format_entries(&found.stale) });
    }
    assert(parts_of(parts@) =~= first + part_for(Section::Stale, found.stale@));
    parts
}

} // verus!
