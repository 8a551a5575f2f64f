//! The prompts' answers: whether an answer is one of the choices, which
//! choice it names, what a yes/no answer means, and the text shown with the
//! question.

use vstd::prelude::*;
use crate::chars::push_char;
use crate::numfmt::push_str;

verus! {

/// Unicode's `White_Space` property, which `str::trim` goes by: tab to
/// carriage return, space, next line, no-break space, ogham space mark, the
/// spaces from en quad to hair space, line and paragraph separators, narrow
/// no-break space, medium mathematical space and ideographic space.
pub open spec fn is_white_space(c: char) -> bool {
    ||| ('\u{9}' <= c && c <= '\u{d}')
    ||| c == ' '
    ||| c == '\u{85}'
    ||| c == '\u{a0}'
    ||| c == '\u{1680}'
    ||| ('\u{2000}' <= c && c <= '\u{200a}')
    ||| c == '\u{2028}'
    ||| c == '\u{2029}'
    ||| c == '\u{202f}'
    ||| c == '\u{205f}'
    ||| c == '\u{3000}'
}

/// `s` without its leading whitespace.
pub open spec fn trim_start(s: Seq<char>) -> Seq<char>
    decreases s.len(),
{
    if s.len() > 0 && is_white_space(s[0]) {
        trim_start(s.drop_first())
    } else {
        s
    }
}

/// `s` without its trailing whitespace.
pub open spec fn trim_end(s: Seq<char>) -> Seq<char>
    decreases s.len(),
{
    if s.len() > 0 && is_white_space(s.last()) {
        trim_end(s.drop_last())
    } else {
        s
    }
}

/// What `str::trim` leaves of `s`: no leading and no trailing whitespace.
pub open spec fn trimmed(s: Seq<char>) -> Seq<char> {
    trim_end(trim_start(s))
}

/// What `str::to_lowercase` makes of `s`.
pub uninterp spec fn lowercased(s: Seq<char>) -> Seq<char>;

/// `str::trim`: `s` without its leading and trailing whitespace, which std
/// documents as the characters of Unicode's `White_Space` property.
#[verifier::external_body]
fn trim_text(s: &str) -> (r: String)
    ensures
        r@ == trimmed(s@),
{
    s.trim().to_string()
}

/// `str::to_lowercase`: the lowercase of `s`; the contract names the result
/// and claims nothing of the Unicode case mapping.
#[verifier::external_body]
fn lowercase_text(s: &str) -> (r: String)
    ensures
        r@ == lowercased(s@),
{
    s.to_lowercase()
}

/// Whether `choice` is the answer `answer` (already trimmed), exactly or
/// ignoring case.
pub open spec fn names_choice(choice: Seq<char>, answer: Seq<char>, case_sensitive: bool) -> bool {
    if case_sensitive {
        choice == answer
    } else {
        lowercased(choice) == lowercased(answer)
    }
}

/// `PromptBase.check_choice`: the trimmed answer is one of the choices.
pub open spec fn check_choice_spec(choices: Seq<String>, value: Seq<char>, case_sensitive: bool) -> bool {
    exists|i: int| 0 <= i < choices.len() && names_choice(#[trigger] choices[i]@, trimmed(value), case_sensitive)
}

fn same_chars(a: &str, b: &str) -> (r: bool)
    ensures
        r == (a@ == b@),
{
    let x = crate::chars::chars_of(a);
    let y = crate::chars::chars_of(b);
    if x.len() != y.len() {
        return false;
    }
    let mut i: usize = 0;
    while i < x.len()
        invariant
            i <= x.len(),
            x.len() == y.len(),
            x@ == a@,
            y@ == b@,
            forall|j: int| 0 <= j < i ==> x@[j] == y@[j],
        decreases x.len() - i,
    {
        if x[i] != y[i] {
            return false;
        }
        i = i + 1;
    }
    assert(x@ =~= y@);
    true
}

/// The first choice the trimmed answer names, if any.
fn first_named(choices: &Vec<String>, answer: &str, case_sensitive: bool) -> (r: Option<usize>)
    ensures
        match r {
            Some(i) => i < choices@.len() && names_choice(choices@[i as int]@, answer@, case_sensitive)
                && forall|j: int| 0 <= j < i ==> !names_choice(#[trigger] choices@[j]@, answer@, case_sensitive),
            None => forall|j: int| 0 <= j < choices@.len() ==> !names_choice(#[trigger] choices@[j]@, answer@, case_sensitive),
        },
{
    let lowered_answer = lowercase_text(answer);
    let mut i: usize = 0;
    while i < choices.len()
        invariant
            i <= choices@.len(),
            lowered_answer@ == lowercased(answer@),
            forall|j: int| 0 <= j < i ==> !names_choice(#[trigger] choices@[j]@, answer@, case_sensitive),
        decreases choices@.len() - i,
    {
        let hit = if case_sensitive {
            same_chars(choices[i].as_str(), answer)
        } else {
            let lowered = lowercase_text(choices[i].as_str());
            same_chars(lowered.as_str(), lowered_answer.as_str())
        };
        if hit {
            return Some(i);
        }
        i = i + 1;
    }
    None
}

/// `PromptBase.check_choice(value)`.
pub fn check_choice(choices: &Vec<String>, value: &str, case_sensitive: bool) -> (b: bool)
    ensures
        b == check_choice_spec(choices@, value@, case_sensitive),
{
    let answer = trim_text(value);
    match first_named(choices, answer.as_str(), case_sensitive) {
        Some(i) => true,
        None => false,
    }
}

/// What an answer to a prompt with choices comes to.
#[derive(Clone, Copy, PartialEq, Eq, Debug)]
pub enum ChoiceOutcome {
    /// Not one of the choices (`illegal_choice_message`).
    Illegal,
    /// The answer itself, converted to the response type.
    Answer,
    /// The choice at this index, converted: the answer named it ignoring case.
    Choice(usize),
}

/// `PromptBase.process_response`'s use of the choices: an illegal answer is
/// refused; ignoring case, the first choice named stands for the answer.
pub open spec fn choice_outcome_spec(choices: Seq<String>, value: Seq<char>, case_sensitive: bool, o: ChoiceOutcome) -> bool {
    if !check_choice_spec(choices, value, case_sensitive) {
        o == ChoiceOutcome::Illegal
    } else if case_sensitive {
        o == ChoiceOutcome::Answer
    } else {
        o matches ChoiceOutcome::Choice(i) && i < choices.len()
            && names_choice(choices[i as int]@, trimmed(value), false)
            && forall|j: int| 0 <= j < i ==> !names_choice(#[trigger] choices[j]@, trimmed(value), false)
    }
}

/// `PromptBase.process_response`'s check of an answer against the choices.
pub fn choice_outcome(choices: &Vec<String>, value: &str, case_sensitive: bool) -> (o: ChoiceOutcome)
    ensures
        choice_outcome_spec(choices@, value@, case_sensitive, o),
{
    let answer = trim_text(value);
    match first_named(choices, answer.as_str(), case_sensitive) {
        None => ChoiceOutcome::Illegal,
        Some(i) => if case_sensitive { ChoiceOutcome::Answer } else { ChoiceOutcome::Choice(i) },
    }
}

/// `Confirm.process_response`: the lowercased, trimmed answer must be one
/// of the choices; it means yes when it is the first.
pub open spec fn confirm_spec(choices: Seq<String>, value: Seq<char>) -> Option<bool> {
    let v = lowercased(trimmed(value));
    if exists|i: int| 0 <= i < choices.len() && #[trigger] choices[i]@ == v {
        Some(choices[0]@ == v)
    } else {
        None
    }
}

/// `Confirm.process_response(value)`: `None` for an invalid answer.
pub fn confirm_response(choices: &Vec<String>, value: &str) -> (r: Option<bool>)
    ensures
        r == confirm_spec(choices@, value@),
{
    let trimmed_value = trim_text(value);
    let v = lowercase_text(trimmed_value.as_str());
    match first_named(choices, v.as_str(), true) {
        None => None,
        Some(i) => {
            let yes = same_chars(choices[0].as_str(), v.as_str());
            Some(yes)
        },
    }
}

/// The choices as the prompt shows them: `[a/b/c]`.
pub open spec fn choices_spec(choices: Seq<String>) -> Seq<char> {
    seq!['['] + joined(choices) + seq![']']
}

/// The choices separated by `/`.
pub open spec fn joined(choices: Seq<String>) -> Seq<char>
    decreases choices.len(),
{
    if choices.len() == 0 {
        Seq::empty()
    } else if choices.len() == 1 {
        choices[0]@
    } else {
        joined(choices.drop_last()) + seq!['/'] + choices.last()@
    }
}

/// The choices as the prompt shows them.
pub fn choices_text(choices: &Vec<String>) -> (s: String)
    ensures
        s@ == choices_spec(choices@),
{
    let mut s = String::new();
    push_char(&mut s, '[');
    let mut i: usize = 0;
    while i < choices.len()
        invariant
            i <= choices@.len(),
            s@ == seq!['['] + joined(choices@.take(i as int)),
        decreases choices@.len() - i,
    {
        if i > 0 {
            push_char(&mut s, '/');
        }
        push_str(&mut s, choices[i].as_str());
        proof {
            assert(choices@.take(i + 1 as int).drop_last() =~= choices@.take(i as int));
            if i == 0 {
                assert(joined(choices@.take(0)) == Seq::<char>::empty());
            }
        }
        i = i + 1;
        assert(s@ =~= seq!['['] + joined(choices@.take(i as int)));
    }
    push_char(&mut s, ']');
    assert(choices@.take(choices@.len() as int) =~= choices@);
    assert(s@ =~= choices_spec(choices@));
    s
}

/// A default as the prompt shows it: `(default)`.
pub fn default_text(default: &str) -> (s: String)
    ensures
        s@ == seq!['('] + default@ + seq![')'],
{
    let mut s = String::new();
    push_char(&mut s, '(');
    push_str(&mut s, default);
    push_char(&mut s, ')');
    assert(s@ =~= seq!['('] + default@ + seq![')']);
    s
}

/// `Confirm.render_default`: the first choice for a yes default, the second
/// for a no, in brackets; `None` with fewer than two choices.
pub fn confirm_default_text(choices: &Vec<String>, default: bool) -> (s: Option<String>)
    ensures
        choices@.len() < 2 ==> s is None,
        choices@.len() >= 2 ==> (s matches Some(t)
            && t@ == seq!['('] + (if default { choices@[0]@ } else { choices@[1]@ }) + seq![')']),
{
    if choices.len() < 2 {
        return None;
    }
    let shown = if default { choices[0].as_str() } else { choices[1].as_str() };
    Some(default_text(shown))
}

/// An empty answer takes the default when there is one; any other answer
/// is processed.
pub fn takes_default(value: &str, has_default: bool) -> (b: bool)
    ensures
        b == (value@.len() == 0 && has_default),
{
    crate::chars::chars_of(value).len() == 0 && has_default
}

/// How a piece of the question is styled.
#[derive(Clone, Copy, PartialEq, Eq, Debug)]
pub enum PieceStyle {
    Plain,
    /// `prompt.choices`
    Choices,
    /// `prompt.default`
    Default,
}

/// A piece of the question after the prompt itself.
#[derive(Debug)]
pub struct PromptPiece {
    pub text: String,
    pub style: PieceStyle,
}

/// The texts and styles of pieces.
pub open spec fn pieces_view(p: Seq<PromptPiece>) -> Seq<(Seq<char>, PieceStyle)> {
    p.map_values(|x: PromptPiece| (x.text@, x.style))
}

/// `PromptBase.make_prompt` after the prompt: the choices when shown and
/// there are any, the default when shown (`default`, already rendered),
/// each after a space, then the suffix.
pub open spec fn prompt_tail_spec(
    show_choices: bool,
    choices: Seq<String>,
    default: Option<Seq<char>>,
    suffix: Seq<char>,
) -> Seq<(Seq<char>, PieceStyle)> {
    (if show_choices && choices.len() > 0 {
        seq![(seq![' '], PieceStyle::Plain), (choices_spec(choices), PieceStyle::Choices)]
    } else {
        Seq::empty()
    }) + (match default {
        Some(d) => seq![(seq![' '], PieceStyle::Plain), (d, PieceStyle::Default)],
        None => Seq::empty(),
    }) + seq![(suffix, PieceStyle::Plain)]
}

fn space_piece() -> (p: PromptPiece)
    ensures
        p.text@ == seq![' '],
        p.style == PieceStyle::Plain,
{
    let mut t = String::new();
    push_char(&mut t, ' ');
    PromptPiece { text: t, style: PieceStyle::Plain }
}

fn text_piece(s: &str, style: PieceStyle) -> (p: PromptPiece)
    ensures
        p.text@ == s@,
        p.style == style,
{
    let mut t = String::new();
    push_str(&mut t, s);
    PromptPiece { text: t, style }
}

/// The pieces of the question after the prompt (see [`prompt_tail_spec`]).
pub fn prompt_tail(show_choices: bool, choices: &Vec<String>, default: Option<&str>, suffix: &str) -> (pieces: Vec<PromptPiece>)
    ensures
        pieces_view(pieces@) == prompt_tail_spec(
            show_choices,
            choices@,
            match default { Some(d) => Some(d@), None => None },
            suffix@,
        ),
{
    let mut pieces: Vec<PromptPiece> = Vec::new();
    if show_choices && choices.len() > 0 {
        pieces.push(space_piece());
        let listed = choices_text(choices);
        pieces.push(PromptPiece { text: listed, style: PieceStyle::Choices });
    }
    let ghost v1 = pieces_view(pieces@);
    if let Some(d) = default {
        pieces.push(space_piece());
        pieces.push(text_piece(d, PieceStyle::Default));
    }
    let ghost v2 = pieces_view(pieces@);
    pieces.push(text_piece(suffix, PieceStyle::Plain));
    proof {
        let dv = match default { Some(d) => Some(d@), None => None };
        assert(v1 =~= if show_choices && choices@.len() > 0 {
            seq![(seq![' '], PieceStyle::Plain), (choices_spec(choices@), PieceStyle::Choices)]
        } else {
            Seq::<(Seq<char>, PieceStyle)>::empty()
        });
        assert(v2 =~= v1 + match dv {
            Some(d) => seq![(seq![' '], PieceStyle::Plain), (d, PieceStyle::Default)],
            None => Seq::<(Seq<char>, PieceStyle)>::empty(),
        });
        assert(pieces_view(pieces@) =~= v2 + seq![(suffix@, PieceStyle::Plain)]);
    }
    pieces
}

/// A yes/no answer is accepted exactly when it is one of the choices, and
/// means yes exactly when it is the first.
pub proof fn law_confirm_first_is_yes(choices: Seq<String>, value: Seq<char>)
    requires
        choices.len() >= 1,
        choices[0]@ == lowercased(trimmed(value)),
    ensures
        confirm_spec(choices, value) == Some(true),
{
    assert(choices[0]@ == lowercased(trimmed(value)));
}

} // verus!
