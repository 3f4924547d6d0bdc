use envsync::env_map::Entry;
use envsync::report::{ReportPart, Section};
use envsync::resolver::{accepts, actual_after, compare, decide, pass, survey, Decision, Prompt, Stage};

/// The question that a package with these texts brings up, if any.
fn question(template: Option<&str>, actual: Option<&str>) -> Option<Prompt> {
    match survey(template.is_some(), actual.is_some()) {
        Stage::TemplateMissing => None,
        Stage::ActualMissing => Some(Prompt::Create),
        Stage::ActualPresent => compare(template.unwrap(), actual.unwrap()).prompt,
    }
}

/// One pass with an operator who gives the answers in turn until one is allowed;
/// returns what the actual file holds afterwards and how many answers were taken.
fn dialog(template: Option<&str>, actual: Option<&str>, answers: &[&str]) -> (Option<String>, usize) {
    let prompt = match question(template, actual) {
        Some(prompt) => prompt,
        None => return (pass(template, actual, ""), 0),
    };
    let mut taken = 0;
    for answer in answers {
        taken += 1;
        if accepts(prompt, answer) {
            return (pass(template, actual, answer), taken);
        }
        assert_eq!(pass(template, actual, answer), actual.map(|text| text.to_string()));
    }
    panic!("the operator gave no answer that the question allows");
}

#[test]
fn survey_of_the_two_files() {
    assert_eq!(survey(false, false), Stage::TemplateMissing);
    assert_eq!(survey(false, true), Stage::TemplateMissing);
    assert_eq!(survey(true, false), Stage::ActualMissing);
    assert_eq!(survey(true, true), Stage::ActualPresent);
}

#[test]
fn answers_to_the_question_of_creating() {
    assert_eq!(decide(Prompt::Create, "y"), Decision::Copy);
    assert_eq!(decide(Prompt::Create, "n"), Decision::Keep);
    for other in ["", "r", "Y", "N", "yes", "no", " y", "y ", "yn", "y\n", "o", "ｙ", "1"] {
        assert_eq!(decide(Prompt::Create, other), Decision::Retry, "answer {:?}", other);
        assert!(!accepts(Prompt::Create, other), "answer {:?}", other);
    }
    assert!(accepts(Prompt::Create, "y"));
    assert!(accepts(Prompt::Create, "n"));
}

#[test]
fn answers_to_the_question_of_replacing() {
    assert_eq!(decide(Prompt::Replace, "r"), Decision::Copy);
    assert_eq!(decide(Prompt::Replace, "n"), Decision::Keep);
    for other in ["", "y", "R", "N", "replace", "rn", " r", "r ", "nn", "\n", "é"] {
        assert_eq!(decide(Prompt::Replace, other), Decision::Retry, "answer {:?}", other);
        assert!(!accepts(Prompt::Replace, other), "answer {:?}", other);
    }
    assert!(accepts(Prompt::Replace, "r"));
    assert!(accepts(Prompt::Replace, "n"));
}

#[test]
fn hints_name_the_answers_allowed() {
    assert_eq!(Prompt::Create.hint(), "please answer with 'y' or 'n'");
    assert_eq!(Prompt::Replace.hint(), "please answer with 'r' or 'n'");
}

#[test]
fn compare_reports_and_asks() {
    let found = compare("A=1\nB=2\n", "A=1\nC=3\n");
    assert_eq!(
        found.found.missing.entries(),
        &vec![Entry { key: "B".to_string(), value: "2".to_string() }]
    );
    assert_eq!(
        found.found.stale.entries(),
        &vec![Entry { key: "C".to_string(), value: "3".to_string() }]
    );
    assert_eq!(
        found.report,
        vec![
            ReportPart { section: Section::Missing, lines: vec!["B=2".to_string()] },
            ReportPart { section: Section::Stale, lines: vec!["C=3".to_string()] },
        ]
    );
    assert_eq!(found.prompt, Some(Prompt::Replace));
}

#[test]
fn compare_asks_when_only_one_kind_is_found() {
    assert_eq!(compare("A=1\nB=2\n", "A=1\n").prompt, Some(Prompt::Replace));
    assert_eq!(compare("A=1\n", "A=1\nB=2\n").prompt, Some(Prompt::Replace));
    assert_eq!(compare("A=1\n", "").prompt, Some(Prompt::Replace));
    assert_eq!(compare("", "A=1\n").prompt, Some(Prompt::Replace));
}

#[test]
fn same_names_bring_up_no_question() {
    let found = compare("A=1\nB=2\n", "B=changed\nA=1\n");
    assert!(found.found.is_empty());
    assert!(found.report.is_empty());
    assert_eq!(found.prompt, None);
    let empty = compare("", "");
    assert!(empty.report.is_empty());
    assert_eq!(empty.prompt, None);
    for answer in ["r", "n", "y", ""] {
        assert_eq!(
            pass(Some("A=1\nB=2\n"), Some("B=changed\nA=1\n"), answer),
            Some("B=changed\nA=1\n".to_string())
        );
    }
}

#[test]
fn actual_after_each_decision() {
    assert_eq!(actual_after(Decision::Copy, "A=1\n", Some("B=2\n")), Some("A=1\n".to_string()));
    assert_eq!(actual_after(Decision::Copy, "A=1\n", None), Some("A=1\n".to_string()));
    assert_eq!(actual_after(Decision::Keep, "A=1\n", Some("B=2\n")), Some("B=2\n".to_string()));
    assert_eq!(actual_after(Decision::Keep, "A=1\n", None), None);
    assert_eq!(actual_after(Decision::Retry, "A=1\n", Some("B=2\n")), Some("B=2\n".to_string()));
    assert_eq!(actual_after(Decision::Retry, "A=1\n", None), None);
}

#[test]
fn replacing_makes_the_actual_file_a_copy_of_the_template() {
    let template = "A=1\nB=2\n";
    let actual = "A=1\nC=3\n";
    assert_eq!(question(Some(template), Some(actual)), Some(Prompt::Replace));
    let after = pass(Some(template), Some(actual), "r");
    assert_eq!(after, Some("A=1\nB=2\n".to_string()));
    let again = compare(template, after.as_deref().unwrap());
    assert!(again.found.is_empty());
    assert!(again.report.is_empty());
    assert_eq!(again.prompt, None);
}

#[test]
fn replacing_takes_the_values_of_the_template() {
    let template = "A=new\nB=2\n";
    let actual = "A=old\nC=3\n";
    assert_eq!(pass(Some(template), Some(actual), "r"), Some(template.to_string()));
}

#[test]
fn the_answer_to_creating_does_not_replace() {
    let template = "A=1\nB=2\n";
    let actual = "A=1\nC=3\n";
    assert_eq!(pass(Some(template), Some(actual), "y"), Some(actual.to_string()));
    assert_eq!(pass(Some(template), None, "r"), None);
}

#[test]
fn creating_from_the_template() {
    let template = "A=1\n# kept as it is\nB=2";
    assert_eq!(question(Some(template), None), Some(Prompt::Create));
    assert_eq!(pass(Some(template), None, "y"), Some(template.to_string()));
    assert_eq!(pass(Some(template), None, "n"), None);
}

#[test]
fn an_answer_that_is_not_allowed_is_asked_for_again() {
    let (after, taken) = dialog(Some("A=1\n"), None, &["", "yes", "r", "Y", "y"]);
    assert_eq!(after, Some("A=1\n".to_string()));
    assert_eq!(taken, 5);
    let (after, taken) = dialog(Some("A=1\n"), Some("B=2\n"), &["y", "x", "n"]);
    assert_eq!(after, Some("B=2\n".to_string()));
    assert_eq!(taken, 3);
    let (after, taken) = dialog(Some("A=1\n"), Some("B=2\n"), &["y", "r"]);
    assert_eq!(after, Some("A=1\n".to_string()));
    assert_eq!(taken, 2);
}

#[test]
fn package_without_template_is_passed_over() {
    assert_eq!(question(None, None), None);
    assert_eq!(question(None, Some("A=1\n")), None);
    for answer in ["y", "r", "n", ""] {
        assert_eq!(pass(None, None, answer), None);
        assert_eq!(pass(None, Some("A=1\n"), answer), Some("A=1\n".to_string()));
    }
}

#[test]
fn declining_twice_changes_nothing() {
    let template = "A=1\nB=2\n";
    let actual = "A=1\nC=3\n";
    let first = compare(template, actual);
    let after_first = pass(Some(template), Some(actual), "n");
    assert_eq!(after_first, Some(actual.to_string()));
    let second = compare(template, after_first.as_deref().unwrap());
    let after_second = pass(Some(template), after_first.as_deref(), "n");
    assert_eq!(after_second, Some(actual.to_string()));
    assert_eq!(first.found.missing.entries(), second.found.missing.entries());
    assert_eq!(first.found.stale.entries(), second.found.stale.entries());
    assert_eq!(first.report, second.report);
    assert_eq!(first.prompt, second.prompt);
}

#[test]
fn declining_to_create_twice_changes_nothing() {
    let first = pass(Some("A=1\n"), None, "n");
    assert_eq!(first, None);
    let second = pass(Some("A=1\n"), first.as_deref(), "n");
    assert_eq!(second, None);
    assert_eq!(question(Some("A=1\n"), second.as_deref()), Some(Prompt::Create));
}
