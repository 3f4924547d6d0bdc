//! Deciding, package by package, what is asked of the operator and what an answer
//! leads to.
//!
//! A package without a template is passed over. Where the template is there and the
//! actual file is not, the operator is asked whether to create the file: `y` or `n`.
//! Where both are there they are compared, and only if something is missing or stale
//! the operator is asked whether to replace the actual file: `r` or `n`. Any other
//! answer is no answer, and the question is put again. To create and to replace are
//! the same act: the actual file becomes a copy of the template.

use vstd::prelude::*;
use vstd::string::StrSliceExecFns;
use vstd::string::StringExecFns;
use crate::parser::{env_of_text, parse_env};
use crate::reconcile::{diff, lemma_same_names_leave_nothing, missing_of, stale_of, DiffResult};
use crate::report::{parts_of, report, report_of, ReportPart, Section};

verus! {

/// Where a package stands, by which of its two files are there.
#[derive(Clone, Copy, Debug, PartialEq, Eq, Structural)]
pub enum Stage {
    /// There is no template: the package is passed over.
    TemplateMissing,
    /// There is a template and no actual file.
    ActualMissing,
    /// Both files are there.
    ActualPresent,
}

/// The stage of a package with these files.
pub open spec fn stage_of(template_present: bool, actual_present: bool) -> Stage {
    if !template_present {
        Stage::TemplateMissing
    } else if !actual_present {
        Stage::ActualMissing
    } else {
        Stage::ActualPresent
    }
}

/// Says where a package stands.
pub fn survey(template_present: bool, actual_present: bool) -> (r: Stage)
    ensures
        r == stage_of(template_present, actual_present),
{
    if !template_present {
        Stage::TemplateMissing
    } else if !actual_present {
        Stage::ActualMissing
    } else {
        Stage::ActualPresent
    }
}

/// A question put to the operator.
#[derive(Clone, Copy, Debug, PartialEq, Eq, Structural)]
pub enum Prompt {
    /// Whether to create the actual file from the template.
    Create,
    /// Whether to replace the actual file by the template.
    Replace,
}

/// What an answer leads to.
#[derive(Clone, Copy, Debug, PartialEq, Eq, Structural)]
pub enum Decision {
    /// The answer is none of the two that the question allows: it is put again.
    Retry,
    /// The actual file becomes a copy of the template.
    Copy,
    /// Nothing is touched.
    Keep,
}

impl Prompt {
    /// The answer that agrees to what the question proposes.
    pub open spec fn consent(self) -> char {
        match self {
            Prompt::Create => 'y',
            Prompt::Replace => 'r',
        }
    }

    /// What to tell an operator whose answer was none of the two allowed.
    pub fn hint(&self) -> (r: &'static str)
        ensures
            r@ == (match *self {
                Prompt::Create => "please answer with 'y' or 'n'"@,
                Prompt::Replace => "please answer with 'r' or 'n'"@,
            }),
    {
        match self {
            Prompt::Create => "please answer with 'y' or 'n'",
            Prompt::Replace => "please answer with 'r' or 'n'",
        }
    }
}

/// What `answer` leads to when it is given to `prompt`.
pub open spec fn decision_of(prompt: Prompt, answer: Seq<char>) -> Decision {
    if answer == seq![prompt.consent()] {
        Decision::Copy
    } else if answer == seq!['n'] {
        Decision::Keep
    } else {
        Decision::Retry
    }
}

/// Takes the operator's answer to a question.
pub fn decide(prompt: Prompt, answer: &str) -> (r: Decision)
    ensures
        r == decision_of(prompt, answer@),
{
    if answer.unicode_len() != 1 {
        return Decision::Retry;
    }
    let given = answer.get_char(0);
    let consent = match prompt {
        Prompt::Create => 'y',
        Prompt::Replace => 'r',
    };
    if given == consent {
        assert(answer@ =~= seq![prompt.consent()]);
        Decision::Copy
    } else if given == 'n' {
        assert(answer@ =~= seq!['n']);
        Decision::Keep
    } else {
        Decision::Retry
    }
}

/// Whether `answer` is one of the two answers that `prompt` allows.
pub fn accepts(prompt: Prompt, answer: &str) -> (r: bool)
    ensures
        r == (decision_of(prompt, answer@) != Decision::Retry),
        r == (answer@ == seq![prompt.consent()] || answer@ == seq!['n']),
{
    match decide(prompt, answer) {
        Decision::Retry => false,
        _ => true,
    }
}

/// The question that follows a comparison: none where it found nothing.
pub open spec fn prompt_after(
    missing: Map<Seq<char>, Seq<char>>,
    stale: Map<Seq<char>, Seq<char>>,
) -> Option<Prompt> {
    if missing == Map::<Seq<char>, Seq<char>>::empty() && stale == Map::<
        Seq<char>,
        Seq<char>,
    >::empty() {
        None
    } else {
        Some(Prompt::Replace)
    }
}

/// A comparison of two files, with what to show and what to ask.
#[derive(Debug)]
pub struct Comparison {
    pub found: DiffResult,
    pub report: Vec<ReportPart>,
    pub prompt: Option<Prompt>,
}

/// Compares the text of a template with the text of the actual file.
pub fn compare(template: &str, actual: &str) -> (r: Comparison)
    ensures
        r.found.missing@ == missing_of(env_of_text(template@), env_of_text(actual@)),
        r.found.stale@ == stale_of(env_of_text(template@), env_of_text(actual@)),
        parts_of(r.report@) == report_of(r.found.missing@, r.found.stale@),
        r.prompt == prompt_after(r.found.missing@, r.found.stale@),
{
    let wanted = parse_env(template);
    let held = parse_env(actual);
    let found = diff(&wanted, &held);
    let parts = report(&found);
    let prompt = if found.is_empty() {
        None
    } else {
        Some(Prompt::Replace)
    };
    Comparison { found, report: parts, prompt }
}

/// What the actual file holds once a decision has been carried out: the text of the
/// template after `Copy`, and what it held before, if it was there, after any other.
pub open spec fn actual_after_of(
    decision: Decision,
    template: Seq<char>,
    actual: Option<Seq<char>>,
) -> Option<Seq<char>> {
    match decision {
        Decision::Copy => Some(template),
        _ => actual,
    }
}

/// The text of a file that may not be there.
pub open spec fn text_of(file: Option<&str>) -> Option<Seq<char>> {
    match file {
        Some(text) => Some(text@),
        None => None,
    }
}

/// The text that a file holds, where it is there.
pub open spec fn held_by(file: Option<String>) -> Option<Seq<char>> {
    match file {
        Some(text) => Some(text@),
        None => None,
    }
}

/// Carries a decision out on the texts of the two files and returns what the actual
/// file holds afterwards, `None` standing for a file that is not there.
pub fn actual_after(decision: Decision, template: &str, actual: Option<&str>) -> (r: Option<String>)
    ensures
        held_by(r) == actual_after_of(decision, template@, text_of(actual)),
{
    match decision {
        Decision::Copy => Some(String::from_str(template)),
        _ => match actual {
            Some(text) => Some(String::from_str(text)),
            None => None,
        },
    }
}

/// The question that a package brings up, if any, from the texts of its files, `None`
/// standing for a file that is not there.
pub open spec fn prompt_of(template: Option<Seq<char>>, actual: Option<Seq<char>>) -> Option<Prompt> {
    match stage_of(template is Some, actual is Some) {
        Stage::TemplateMissing => None,
        Stage::ActualMissing => Some(Prompt::Create),
        Stage::ActualPresent => prompt_after(
            missing_of(env_of_text(template->0), env_of_text(actual->0)),
            stale_of(env_of_text(template->0), env_of_text(actual->0)),
        ),
    }
}

/// What the actual file holds after one pass over a package in which the operator
/// gives `answer` to the question, if one comes up.
pub open spec fn pass_of(
    template: Option<Seq<char>>,
    actual: Option<Seq<char>>,
    answer: Seq<char>,
) -> Option<Seq<char>> {
    match prompt_of(template, actual) {
        Some(prompt) => actual_after_of(decision_of(prompt, answer), template->0, actual),
        None => actual,
    }
}

/// Makes one pass over a package whose files hold these texts, `None` standing for a
/// file that is not there, with an operator who gives `answer` if a question comes
/// up, and returns what the actual file holds afterwards. An answer that the
/// question does not allow changes nothing: the question is still to be answered.
pub fn pass(template: Option<&str>, actual: Option<&str>, answer: &str) -> (r: Option<String>)
    ensures
        held_by(r) == pass_of(text_of(template), text_of(actual), answer@),
{
    match (template, actual) {
        (Some(wanted), Some(held)) => {
            match compare(wanted, held).prompt {
                Some(prompt) => actual_after(decide(prompt, answer), wanted, actual),
                None => Some(String::from_str(held)),
            }
        },
        (Some(wanted), None) => actual_after(decide(Prompt::Create, answer), wanted, actual),
        (None, Some(held)) => Some(String::from_str(held)),
        (None, None) => None,
    }
}

/// Two files that name the same variables bring up no question and nothing to show,
/// whatever values they give them.
pub proof fn lemma_same_names_ask_nothing(
    template: Map<Seq<char>, Seq<char>>,
    actual: Map<Seq<char>, Seq<char>>,
)
    requires
        template.dom() == actual.dom(),
    ensures
        prompt_after(missing_of(template, actual), stale_of(template, actual)) is None,
        report_of(missing_of(template, actual), stale_of(template, actual)) == Seq::<
            (Section, Seq<Seq<char>>),
        >::empty(),
{
    lemma_same_names_leave_nothing(template, actual);
    assert(report_of(missing_of(template, actual), stale_of(template, actual)) =~= Seq::<
        (Section, Seq<Seq<char>>),
    >::empty());
}

/// What a pass over a package finds missing and stale, in that order: nothing to
/// speak of unless both files are there.
pub open spec fn found_of(template: Option<Seq<char>>, actual: Option<Seq<char>>) -> Option<
    (Map<Seq<char>, Seq<char>>, Map<Seq<char>, Seq<char>>),
> {
    match stage_of(template is Some, actual is Some) {
        Stage::ActualPresent => Some(
            (
                missing_of(env_of_text(template->0), env_of_text(actual->0)),
                stale_of(env_of_text(template->0), env_of_text(actual->0)),
            ),
        ),
        _ => None,
    }
}

/// The answer `n` leaves every package as it was: a pass in which the operator gives
/// it changes neither file, so the next pass finds what this one found, asks what
/// this one asked, and, answered alike, leaves the same files again.
pub proof fn lemma_declining_changes_nothing(
    template: Option<Seq<char>>,
    actual: Option<Seq<char>>,
)
    ensures
        decision_of(Prompt::Create, seq!['n']) == Decision::Keep,
        decision_of(Prompt::Replace, seq!['n']) == Decision::Keep,
        pass_of(template, actual, seq!['n']) == actual,
        found_of(template, pass_of(template, actual, seq!['n'])) == found_of(template, actual),
        prompt_of(template, pass_of(template, actual, seq!['n'])) == prompt_of(template, actual),
        pass_of(template, pass_of(template, actual, seq!['n']), seq!['n']) == pass_of(
            template,
            actual,
            seq!['n'],
        ),
{
    assert(decision_of(Prompt::Create, seq!['n']) == Decision::Keep) by {
        assert(seq!['n'][0] != seq!['y'][0]);
    }
    assert(decision_of(Prompt::Replace, seq!['n']) == Decision::Keep) by {
        assert(seq!['n'][0] != seq!['r'][0]);
    }
}

/// Consent makes the actual file a copy of the template, and a package in that state
/// brings up no further question.
pub proof fn lemma_consent_settles(template: Seq<char>, actual: Option<Seq<char>>)
    requires
        prompt_of(Some(template), actual) is Some,
    ensures
        pass_of(Some(template), actual, seq![prompt_of(Some(template), actual)->0.consent()]) == Some(
            template,
        ),
        prompt_of(Some(template), Some(template)) is None,
{
    lemma_same_names_leave_nothing(env_of_text(template), env_of_text(template));
}

} // verus!
