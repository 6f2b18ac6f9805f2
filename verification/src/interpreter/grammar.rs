//! The lexical grammar, as mathematics: what the tokens and diagnostics of a text are.
//!
//! A text is a sequence of characters. Scanning cuts it into consecutive spans; each span is
//! one step, which yields a token, a diagnostic, or nothing.

use vstd::prelude::*;
use super::token::TokenView;
use super::token_type::{word_kind, Kind};
use crate::error::ErrorView;

verus! {

/// The ten decimal digits.
pub open spec fn is_digit(c: char) -> bool {
    '0' <= c && c <= '9'
}

/// Letters of the Latin alphabet and the underscore: what a word may start with.
pub open spec fn is_alpha(c: char) -> bool {
    ('a' <= c && c <= 'z') || ('A' <= c && c <= 'Z') || c == '_'
}

/// Space, carriage return and horizontal tab.
pub open spec fn is_blank(c: char) -> bool {
    c == ' ' || c == '\r' || c == '\t'
}

/// A set of characters that a lexeme may run through.
#[derive(Clone, Copy, Debug)]
pub enum Class {
    /// Decimal digits.
    Digit,
    /// Letters, digits and the underscore.
    Word,
    /// Everything but the newline: the body of a comment.
    Comment,
    /// Everything but the double quote: the body of a string.
    Quoted,
}

impl Class {
    /// Whether `c` belongs to the class.
    pub open spec fn holds(self, c: char) -> bool {
        match self {
            Class::Digit => is_digit(c),
            Class::Word => is_alpha(c) || is_digit(c),
            Class::Comment => c != '\n',
            Class::Quoted => c != '"',
        }
    }

    /// Decides [`Class::holds`].
    pub fn contains(self, c: char) -> (r: bool)
        ensures
            r == self.holds(c),
    {
        match self {
            Class::Digit => '0' <= c && c <= '9',
            Class::Word => {
                ('a' <= c && c <= 'z') || ('A' <= c && c <= 'Z') || c == '_' || ('0' <= c && c
                    <= '9')
            },
            Class::Comment => c != '\n',
            Class::Quoted => c != '"',
        }
    }
}

/// The length of the longest run of characters of `class` that starts at `from`.
pub open spec fn run_len(src: Seq<char>, from: int, class: Class) -> nat
    decreases src.len() - from,
{
    if 0 <= from < src.len() && class.holds(src[from]) {
        1 + run_len(src, from + 1, class)
    } else {
        0
    }
}

/// The number of newline characters in `src` at the positions from `from` up to, not
/// including, `to`.
pub open spec fn newlines(src: Seq<char>, from: int, to: int) -> nat
    decreases to - from,
{
    if from < to {
        newlines(src, from, to - 1) + if 0 <= to - 1 < src.len() && src[to - 1] == '\n' {
            1nat
        } else {
            0nat
        }
    } else {
        0
    }
}

/// The line that position `at` of `src` lies on, counting from 1: one more than the number
/// of newlines before it.
pub open spec fn line_at(src: Seq<char>, at: int) -> nat {
    1 + newlines(src, 0, at)
}

/// No span holds more newlines than characters.
pub proof fn lemma_newlines_bound(src: Seq<char>, from: int, to: int)
    requires
        from <= to,
    ensures
        newlines(src, from, to) <= to - from,
    decreases to - from,
{
    if from < to {
        lemma_newlines_bound(src, from, to - 1);
    }
}

/// Passing a newline moves to the next line; passing any other character stays on the line.
pub proof fn lemma_line_step(src: Seq<char>, at: int)
    requires
        0 <= at < src.len(),
    ensures
        line_at(src, at + 1) == line_at(src, at) + if src[at] == '\n' {
            1nat
        } else {
            0nat
        },
{
    assert(newlines(src, 0, at + 1) == newlines(src, 0, at) + if src[at] == '\n' {
        1nat
    } else {
        0nat
    });
}

/// Whether the character at `at` exists and is `c`.
pub open spec fn has(src: Seq<char>, at: int, c: char) -> bool {
    0 <= at < src.len() && src[at] == c
}

/// The message for a string that the text does not close.
pub open spec fn unterminated_message() -> Seq<char> {
    "string not terminated"@
}

/// The message for a character that starts no lexeme: it names the character in quotes.
pub open spec fn invalid_message(c: char) -> Seq<char> {
    "invalid character: '"@.push(c).push('\'')
}

/// What one step of scanning yields.
pub enum Outcome {
    /// A token of this kind.
    Emit(Kind),
    /// A diagnostic with this message.
    Report(Seq<char>),
    /// Nothing: blanks, newlines and comments.
    Skip,
}

/// One step of scanning: the position after the span, and what the span yields.
pub struct Step {
    pub end: int,
    pub outcome: Outcome,
}

/// A one-character operator, or its two-character form where `=` follows.
pub open spec fn operator(src: Seq<char>, at: int, single: Kind, dual: Kind) -> Step {
    if has(src, at + 1, '=') {
        Step { end: at + 2, outcome: Outcome::Emit(dual) }
    } else {
        Step { end: at + 1, outcome: Outcome::Emit(single) }
    }
}

/// The position after the number literal that starts at `at`: after a run of digits and,
/// only where a point and one more digit follow it, after the point and the digits behind it.
pub open spec fn number_end(src: Seq<char>, at: int) -> int {
    let whole = at + 1 + run_len(src, at + 1, Class::Digit);
    if has(src, whole, '.') && 0 <= whole + 1 < src.len() && is_digit(src[whole + 1]) {
        whole + 1 + run_len(src, whole + 1, Class::Digit)
    } else {
        whole
    }
}

/// The string that opens at `at`: up to and including the next double quote, or, where there
/// is none, a diagnostic for the rest of the text.
pub open spec fn string_step(src: Seq<char>, at: int) -> Step {
    let close = at + 1 + run_len(src, at + 1, Class::Quoted);
    if close < src.len() {
        Step { end: close + 1, outcome: Outcome::Emit(Kind::String(src.subrange(at + 1, close))) }
    } else {
        Step { end: close, outcome: Outcome::Report(unterminated_message()) }
    }
}

/// The step that starts at `at`, a position inside `src`.
pub open spec fn step(src: Seq<char>, at: int) -> Step
    recommends
        0 <= at < src.len(),
{
    let c = src[at];
    let one = at + 1;
    if c == '(' {
        Step { end: one, outcome: Outcome::Emit(Kind::LeftParen) }
    } else if c == ')' {
        Step { end: one, outcome: Outcome::Emit(Kind::RightParen) }
    } else if c == '{' {
        Step { end: one, outcome: Outcome::Emit(Kind::LeftBrace) }
    } else if c == '}' {
        Step { end: one, outcome: Outcome::Emit(Kind::RightBrace) }
    } else if c == ',' {
        Step { end: one, outcome: Outcome::Emit(Kind::Comma) }
    } else if c == '.' {
        Step { end: one, outcome: Outcome::Emit(Kind::Dot) }
    } else if c == '-' {
        Step { end: one, outcome: Outcome::Emit(Kind::Minus) }
    } else if c == '+' {
        Step { end: one, outcome: Outcome::Emit(Kind::Plus) }
    } else if c == ';' {
        Step { end: one, outcome: Outcome::Emit(Kind::Semicolon) }
    } else if c == '*' {
        Step { end: one, outcome: Outcome::Emit(Kind::Star) }
    } else if c == '!' {
        operator(src, at, Kind::Bang, Kind::BangEqual)
    } else if c == '=' {
        operator(src, at, Kind::Equal, Kind::EqualEqual)
    } else if c == '<' {
        operator(src, at, Kind::Less, Kind::LessEqual)
    } else if c == '>' {
        operator(src, at, Kind::Greater, Kind::GreaterEqual)
    } else if c == '/' {
        if has(src, one, '/') {
            Step { end: at + 2 + run_len(src, at + 2, Class::Comment), outcome: Outcome::Skip }
        } else {
            Step { end: one, outcome: Outcome::Emit(Kind::Slash) }
        }
    } else if c == '"' {
        string_step(src, at)
    } else if is_digit(c) {
        let end = number_end(src, at);
        Step { end, outcome: Outcome::Emit(Kind::Number(src.subrange(at, end))) }
    } else if is_alpha(c) {
        let end = one + run_len(src, one, Class::Word);
        Step { end, outcome: Outcome::Emit(word_kind(src.subrange(at, end))) }
    } else if is_blank(c) || c == '\n' {
        Step { end: one, outcome: Outcome::Skip }
    } else {
        Step { end: one, outcome: Outcome::Report(invalid_message(c)) }
    }
}

/// A run that starts inside the text ends inside it, or at its end.
pub proof fn lemma_run_len_bound(src: Seq<char>, from: int, class: Class)
    requires
        0 <= from <= src.len(),
    ensures
        from + run_len(src, from, class) <= src.len(),
    decreases src.len() - from,
{
    if from < src.len() && class.holds(src[from]) {
        lemma_run_len_bound(src, from + 1, class);
    }
}

/// A run is maximal: every character in it is of the class, and the character behind it, if
/// there is one, is not.
pub proof fn lemma_run_maximal(src: Seq<char>, from: int, class: Class)
    requires
        0 <= from <= src.len(),
    ensures
        forall|k: int|
            from <= k < from + run_len(src, from, class) ==> class.holds(#[trigger] src[k]),
        from + run_len(src, from, class) < src.len() ==> !class.holds(
            src[from + run_len(src, from, class)],
        ),
    decreases src.len() - from,
{
    if from < src.len() && class.holds(src[from]) {
        lemma_run_maximal(src, from + 1, class);
    }
}

/// Every step consumes at least one character and none beyond the end of the text.
pub proof fn lemma_step_bounds(src: Seq<char>, at: int)
    requires
        0 <= at < src.len(),
    ensures
        at < step(src, at).end <= src.len(),
{
    lemma_run_len_bound(src, at + 1, Class::Digit);
    lemma_run_len_bound(src, at + 1, Class::Word);
    lemma_run_len_bound(src, at + 1, Class::Quoted);
    if has(src, at + 1, '/') {
        lemma_run_len_bound(src, at + 2, Class::Comment);
    }
    let whole = at + 1 + run_len(src, at + 1, Class::Digit);
    if has(src, whole, '.') {
        lemma_run_len_bound(src, whole + 1, Class::Digit);
    }
}

/// Newlines add up over adjacent spans.
pub proof fn lemma_newlines_split(src: Seq<char>, from: int, mid: int, to: int)
    requires
        from <= mid <= to,
    ensures
        newlines(src, from, to) == newlines(src, from, mid) + newlines(src, mid, to),
    decreases to - mid,
{
    if mid < to {
        lemma_newlines_split(src, from, mid, to - 1);
    }
}

/// A span whose characters are all other than the newline holds no newline.
pub proof fn lemma_no_newlines(src: Seq<char>, from: int, to: int)
    requires
        0 <= from <= to <= src.len(),
        forall|k: int| from <= k < to ==> #[trigger] src[k] != '\n',
    ensures
        newlines(src, from, to) == 0,
    decreases to - from,
{
    if from < to {
        lemma_no_newlines(src, from, to - 1);
    }
}

/// Only a string can span lines: the lexeme of any other token holds no newline.
pub proof fn lemma_token_on_one_line(src: Seq<char>, at: int)
    requires
        0 <= at < src.len(),
        step(src, at).outcome is Emit,
        !(step(src, at).outcome->Emit_0 is String),
    ensures
        newlines(src, at, step(src, at).end) == 0,
{
    let c = src[at];
    let end = step(src, at).end;
    lemma_step_bounds(src, at);
    if is_digit(c) {
        let whole = at + 1 + run_len(src, at + 1, Class::Digit);
        lemma_run_len_bound(src, at + 1, Class::Digit);
        lemma_run_maximal(src, at + 1, Class::Digit);
        if has(src, whole, '.') {
            lemma_run_maximal(src, whole + 1, Class::Digit);
        }
        assert forall|k: int| at <= k < end implies #[trigger] src[k] != '\n' by {
            if k == at {
            } else if k < whole {
                assert(Class::Digit.holds(src[k]));
            } else if k == whole {
            } else {
                assert(Class::Digit.holds(src[k]));
            }
        }
    } else if is_alpha(c) {
        lemma_run_maximal(src, at + 1, Class::Word);
        assert forall|k: int| at <= k < end implies #[trigger] src[k] != '\n' by {
            if k > at {
                assert(Class::Word.holds(src[k]));
            }
        }
    }
    lemma_no_newlines(src, at, end);
}

/// A token other than a string ends on the line on which it starts.
pub proof fn lemma_token_ends_on_its_line(src: Seq<char>, at: int)
    requires
        0 <= at < src.len(),
        step(src, at).outcome is Emit,
        !(step(src, at).outcome->Emit_0 is String),
    ensures
        line_at(src, step(src, at).end) == line_at(src, at),
{
    lemma_step_bounds(src, at);
    lemma_token_on_one_line(src, at);
    lemma_newlines_split(src, 0, at, step(src, at).end);
}

/// The tokens of the step `s` that starts at `at`: one or none. A token records the line of
/// its first character.
pub open spec fn step_tokens(src: Seq<char>, at: int, s: Step) -> Seq<TokenView> {
    match s.outcome {
        Outcome::Emit(kind) => seq![TokenView { kind, line: line_at(src, at) }],
        _ => Seq::empty(),
    }
}

/// The diagnostics of a step: one or none, on the line that the step has reached at its end.
pub open spec fn step_diagnostics(src: Seq<char>, s: Step) -> Seq<ErrorView> {
    match s.outcome {
        Outcome::Report(message) => seq![
            ErrorView::CodeError { line: line_at(src, s.end), location: None, message },
        ],
        _ => Seq::empty(),
    }
}

/// The tokens of the steps from `at` to the end of `src`.
pub open spec fn tokens_from(src: Seq<char>, at: int) -> Seq<TokenView>
    decreases src.len() - at,
    via tokens_from_terminates
{
    if 0 <= at < src.len() {
        let s = step(src, at);
        step_tokens(src, at, s) + tokens_from(src, s.end)
    } else {
        Seq::empty()
    }
}

/// The diagnostics of the steps from `at` to the end of `src`.
pub open spec fn diagnostics_from(src: Seq<char>, at: int) -> Seq<ErrorView>
    decreases src.len() - at,
    via diagnostics_from_terminates
{
    if 0 <= at < src.len() {
        let s = step(src, at);
        step_diagnostics(src, s) + diagnostics_from(src, s.end)
    } else {
        Seq::empty()
    }
}

#[via_fn]
proof fn tokens_from_terminates(src: Seq<char>, at: int) {
    if 0 <= at < src.len() {
        lemma_step_bounds(src, at);
    }
}

#[via_fn]
proof fn diagnostics_from_terminates(src: Seq<char>, at: int) {
    if 0 <= at < src.len() {
        lemma_step_bounds(src, at);
    }
}

/// The positions at which the tokens of [`tokens_from`] start, one for each token.
pub open spec fn starts_from(src: Seq<char>, at: int) -> Seq<int>
    decreases src.len() - at,
    via starts_from_terminates
{
    if 0 <= at < src.len() {
        let s = step(src, at);
        if s.outcome is Emit {
            seq![at] + starts_from(src, s.end)
        } else {
            starts_from(src, s.end)
        }
    } else {
        Seq::empty()
    }
}

#[via_fn]
proof fn starts_from_terminates(src: Seq<char>, at: int) {
    if 0 <= at < src.len() {
        lemma_step_bounds(src, at);
    }
}

/// The token that closes every scan, on the last line of the text.
pub open spec fn eof(src: Seq<char>) -> TokenView {
    TokenView { kind: Kind::Eof, line: line_at(src, src.len() as int) }
}

/// The tokens of a text: those of its steps, then the closing token.
pub open spec fn tokens(src: Seq<char>) -> Seq<TokenView> {
    tokens_from(src, 0).push(eof(src))
}

/// The diagnostics of a text.
pub open spec fn diagnostics(src: Seq<char>) -> Seq<ErrorView> {
    diagnostics_from(src, 0)
}

} // verus!
