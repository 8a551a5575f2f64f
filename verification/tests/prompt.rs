use rich_py::prompt::{prompt_tail, PieceStyle};
use rich_py::prompt::{
    check_choice, choice_outcome, choices_text, confirm_default_text, confirm_response,
    default_text, takes_default, ChoiceOutcome,
};

fn names(list: &[&str]) -> Vec<String> {
    list.iter().map(|s| s.to_string()).collect()
}

#[test]
fn choices_are_checked_after_trimming() {
    let choices = names(&["Apple", "pear"]);
    assert!(check_choice(&choices, "  Apple ", true));
    assert!(!check_choice(&choices, "apple", true));
    assert!(check_choice(&choices, "APPLE", false));
    assert!(!check_choice(&choices, "plum", false));
    assert!(!check_choice(&Vec::new(), "x", false));
}

#[test]
fn a_case_insensitive_answer_takes_the_choice() {
    let choices = names(&["Apple", "pear", "PEAR"]);
    assert_eq!(choice_outcome(&choices, "PEAR ", false), ChoiceOutcome::Choice(1));
    assert_eq!(choice_outcome(&choices, "pear", true), ChoiceOutcome::Answer);
    assert_eq!(choice_outcome(&choices, "plum", true), ChoiceOutcome::Illegal);
    assert_eq!(choice_outcome(&choices, "plum", false), ChoiceOutcome::Illegal);
}

#[test]
fn confirm_answers() {
    let choices = names(&["y", "n"]);
    assert_eq!(confirm_response(&choices, " Y "), Some(true));
    assert_eq!(confirm_response(&choices, "n"), Some(false));
    assert_eq!(confirm_response(&choices, "yes"), None);
}

#[test]
fn prompt_texts() {
    assert_eq!(choices_text(&names(&["a", "b", "c"])), "[a/b/c]");
    assert_eq!(choices_text(&Vec::new()), "[]");
    assert_eq!(default_text("blue"), "(blue)");
    assert_eq!(confirm_default_text(&names(&["y", "n"]), true), Some("(y)".to_string()));
    assert_eq!(confirm_default_text(&names(&["y", "n"]), false), Some("(n)".to_string()));
    assert_eq!(confirm_default_text(&names(&["y"]), false), None);
}

#[test]
fn empty_answer_takes_the_default() {
    assert!(takes_default("", true));
    assert!(!takes_default("", false));
    assert!(!takes_default(" ", true));
}

#[test]
fn question_after_the_prompt() {
    let pieces = prompt_tail(true, &names(&["y", "n"]), Some("(y)"), ": ");
    let shown: Vec<(String, PieceStyle)> = pieces.iter().map(|p| (p.text.clone(), p.style)).collect();
    assert_eq!(
        shown,
        vec![
            (" ".to_string(), PieceStyle::Plain),
            ("[y/n]".to_string(), PieceStyle::Choices),
            (" ".to_string(), PieceStyle::Plain),
            ("(y)".to_string(), PieceStyle::Default),
            (": ".to_string(), PieceStyle::Plain),
        ]
    );
    let pieces = prompt_tail(true, &Vec::new(), None, ": ");
    assert_eq!(pieces.len(), 1);
    assert_eq!(pieces[0].text, ": ");
    let pieces = prompt_tail(false, &names(&["a"]), None, "? ");
    assert_eq!(pieces.len(), 1);
}

#[test]
fn answers_are_trimmed_of_unicode_white_space() {
    let choices = vec!["yes".to_string(), "no".to_string()];
    assert!(check_choice(&choices, "\u{3000}yes\u{a0}\t", true));
    assert!(!check_choice(&choices, "\u{200b}yes", true));
}
