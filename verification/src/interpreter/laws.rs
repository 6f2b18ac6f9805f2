//! What holds of every scan.

use vstd::prelude::*;
use super::grammar::{
    diagnostics, diagnostics_from, eof, invalid_message, is_alpha, is_blank, is_digit,
    lemma_line_step, lemma_run_len_bound, lemma_run_maximal, lemma_step_bounds, line_at,
    newlines, number_end, run_len, starts_from, step, tokens, tokens_from,
    unterminated_message, Class, Outcome, Step,
};
use super::token::{token_views, Token, TokenView};
use super::token_type::{word_kind, Kind};
use crate::error::{error_views, Error, ErrorView};

verus! {

/// No word stands for the closing token.
pub proof fn lemma_word_is_not_eof(word: Seq<char>)
    ensures
        word_kind(word) != Kind::Eof,
{
}

/// No step emits the closing token.
pub proof fn lemma_no_eof_inside(src: Seq<char>, at: int)
    ensures
        forall|k: int|
            0 <= k < tokens_from(src, at).len() ==> (#[trigger] tokens_from(src, at)[k]).kind
                != Kind::Eof,
    decreases src.len() - at,
{
    if 0 <= at < src.len() {
        let s = step(src, at);
        lemma_step_bounds(src, at);
        lemma_no_eof_inside(src, s.end);
        lemma_word_is_not_eof(src.subrange(at, s.end));
    }
}

/// The tokens of every text end with the closing token, and hold it nowhere else.
pub proof fn lemma_one_eof_last(src: Seq<char>)
    ensures
        tokens(src).len() >= 1,
        tokens(src).last() == eof(src),
        forall|k: int|
            0 <= k < tokens(src).len() ==> ((#[trigger] tokens(src)[k]).kind == Kind::Eof <==> k
                == tokens(src).len() - 1),
{
    lemma_no_eof_inside(src, 0);
}

/// Whether `c` starts a lexeme, or is blank space or a newline.
pub open spec fn recognized(c: char) -> bool {
    ||| c == '(' || c == ')' || c == '{' || c == '}'
    ||| c == ',' || c == '.' || c == '-' || c == '+' || c == ';' || c == '*'
    ||| c == '!' || c == '=' || c == '<' || c == '>' || c == '/'
    ||| c == '"'
    ||| is_digit(c)
    ||| is_alpha(c)
    ||| is_blank(c)
    ||| c == '\n'
}

/// A character that starts no lexeme is passed over alone: it yields exactly one diagnostic,
/// which names it and its line, and no token, and scanning goes on behind it.
pub proof fn lemma_unrecognized_character(src: Seq<char>, at: int)
    requires
        0 <= at < src.len(),
        !recognized(src[at]),
    ensures
        step(src, at) == (Step { end: at + 1, outcome: Outcome::Report(invalid_message(src[at])) }),
        tokens_from(src, at) == tokens_from(src, at + 1),
        diagnostics_from(src, at) == seq![
            ErrorView::CodeError {
                line: line_at(src, at),
                location: None,
                message: invalid_message(src[at]),
            },
        ] + diagnostics_from(src, at + 1),
{
    lemma_line_step(src, at);
    assert(tokens_from(src, at) =~= tokens_from(src, at + 1));
}

/// A character that is recognized yields no diagnostic of its own kind: only a string that
/// the text does not close is reported.
pub proof fn lemma_recognized_character(src: Seq<char>, at: int)
    requires
        0 <= at < src.len(),
        recognized(src[at]),
        src[at] != '"',
    ensures
        !(step(src, at).outcome is Report),
        diagnostics_from(src, at) == diagnostics_from(src, step(src, at).end),
{
    assert(diagnostics_from(src, at) =~= diagnostics_from(src, step(src, at).end));
}

/// Every token stems from one step and is recorded on the line of that step's first
/// character: one more than the number of newlines before it.
pub proof fn lemma_token_lines(src: Seq<char>, at: int)
    requires
        0 <= at <= src.len(),
    ensures
        starts_from(src, at).len() == tokens_from(src, at).len(),
        forall|k: int|
            0 <= k < tokens_from(src, at).len() ==> {
                let start = #[trigger] starts_from(src, at)[k];
                let token = tokens_from(src, at)[k];
                &&& at <= start < src.len()
                &&& step(src, start).outcome == Outcome::Emit(token.kind)
                &&& token.line == 1 + newlines(src, 0, start)
            },
    decreases src.len() - at,
{
    if at < src.len() {
        let s = step(src, at);
        lemma_step_bounds(src, at);
        lemma_token_lines(src, s.end);
        if s.outcome is Emit {
            assert forall|k: int| 0 <= k < tokens_from(src, at).len() implies {
                let start = #[trigger] starts_from(src, at)[k];
                let token = tokens_from(src, at)[k];
                &&& at <= start < src.len()
                &&& step(src, start).outcome == Outcome::Emit(token.kind)
                &&& token.line == 1 + newlines(src, 0, start)
            } by {
                if k > 0 {
                    assert(starts_from(src, at)[k] == starts_from(src, s.end)[k - 1]);
                    assert(tokens_from(src, at)[k] == tokens_from(src, s.end)[k - 1]);
                }
            }
        } else {
            assert(tokens_from(src, at) =~= tokens_from(src, s.end));
        }
    }
}

/// Line tracking over a whole text. Every token before the closing one is recorded on the
/// line of its first character, which is one more than the number of newlines before that
/// character. The closing token is recorded on the last line.
pub proof fn lemma_line_tracking(src: Seq<char>)
    ensures
        tokens(src).len() == starts_from(src, 0).len() + 1,
        forall|k: int|
            0 <= k < starts_from(src, 0).len() ==> (#[trigger] tokens(src)[k]).line == 1
                + newlines(src, 0, starts_from(src, 0)[k]),
        tokens(src).last().line == 1 + newlines(src, 0, src.len() as int),
{
    lemma_token_lines(src, 0);
    let starts = starts_from(src, 0);
    assert forall|k: int| 0 <= k < starts.len() implies (#[trigger] tokens(src)[k]).line == 1
        + newlines(src, 0, starts[k]) by {
        assert(tokens(src)[k] == tokens_from(src, 0)[k]);
    }
}

/// A string that the text closes: from its opening quote at `at` to the next quote at
/// `close`, it yields one token, whose text is what stands between the two quotes and whose
/// line is that of the opening quote, and no diagnostic.
pub proof fn lemma_closed_string(src: Seq<char>, at: int, close: int)
    requires
        0 <= at < close < src.len(),
        src[at] == '"',
        src[close] == '"',
        forall|k: int| at < k < close ==> #[trigger] src[k] != '"',
    ensures
        step(src, at) == (Step {
            end: close + 1,
            outcome: Outcome::Emit(Kind::String(src.subrange(at + 1, close))),
        }),
        tokens_from(src, at) == seq![
            TokenView { kind: Kind::String(src.subrange(at + 1, close)), line: line_at(src, at) },
        ] + tokens_from(src, close + 1),
        diagnostics_from(src, at) == diagnostics_from(src, close + 1),
{
    let found = at + 1 + run_len(src, at + 1, Class::Quoted);
    lemma_run_len_bound(src, at + 1, Class::Quoted);
    lemma_run_maximal(src, at + 1, Class::Quoted);
    if found > close {
        assert(Class::Quoted.holds(src[close]));
    }
    assert(found == close);
    assert(diagnostics_from(src, at) =~= diagnostics_from(src, close + 1));
}

/// A string that the text does not close: it yields no token and exactly one diagnostic, on
/// the last line of the text, and nothing is left to scan behind it.
pub proof fn lemma_unclosed_string(src: Seq<char>, at: int)
    requires
        0 <= at < src.len(),
        src[at] == '"',
        forall|k: int| at < k < src.len() ==> #[trigger] src[k] != '"',
    ensures
        step(src, at) == (Step {
            end: src.len() as int,
            outcome: Outcome::Report(unterminated_message()),
        }),
        tokens_from(src, at) == Seq::<TokenView>::empty(),
        diagnostics_from(src, at) == seq![
            ErrorView::CodeError {
                line: line_at(src, src.len() as int),
                location: None,
                message: unterminated_message(),
            },
        ],
{
    let found = at + 1 + run_len(src, at + 1, Class::Quoted);
    lemma_run_len_bound(src, at + 1, Class::Quoted);
    lemma_run_maximal(src, at + 1, Class::Quoted);
    if found < src.len() {
        assert(src[found] != '"');
    }
    assert(found == src.len());
    assert(tokens_from(src, src.len() as int) =~= Seq::<TokenView>::empty());
    assert(diagnostics_from(src, src.len() as int) =~= Seq::<ErrorView>::empty());
    assert(tokens_from(src, at) =~= Seq::<TokenView>::empty());
    assert(diagnostics_from(src, at) =~= seq![
        ErrorView::CodeError {
            line: line_at(src, src.len() as int),
            location: None,
            message: unterminated_message(),
        },
    ]);
}

/// Whether every character of `text` is a decimal digit.
pub open spec fn all_digits(text: Seq<char>) -> bool {
    forall|k: int| 0 <= k < text.len() ==> is_digit(#[trigger] text[k])
}

/// A decimal literal: one or more digits, and optionally a point followed by one or more
/// digits. `whole` is the number of digits before the point.
pub open spec fn is_decimal_with(text: Seq<char>, whole: int) -> bool {
    &&& 0 < whole <= text.len()
    &&& all_digits(text.subrange(0, whole))
    &&& whole < text.len() ==> {
        &&& text[whole] == '.'
        &&& whole + 1 < text.len()
        &&& all_digits(text.subrange(whole + 1, text.len() as int))
    }
}

/// A decimal literal, wherever its point stands.
pub open spec fn is_decimal(text: Seq<char>) -> bool {
    exists|whole: int| is_decimal_with(text, whole)
}

/// Where a digit stands, a number is read: its text is a decimal literal, and it is as long
/// as it can be, so that no digit follows it.
pub proof fn lemma_number_is_decimal(src: Seq<char>, at: int)
    requires
        0 <= at < src.len(),
        is_digit(src[at]),
    ensures
        step(src, at).outcome == Outcome::Emit(
            Kind::Number(src.subrange(at, number_end(src, at))),
        ),
        is_decimal(src.subrange(at, number_end(src, at))),
        number_end(src, at) < src.len() ==> !is_digit(src[number_end(src, at)]),
{
    let whole = at + 1 + run_len(src, at + 1, Class::Digit);
    let end = number_end(src, at);
    let text = src.subrange(at, end);
    lemma_run_len_bound(src, at + 1, Class::Digit);
    lemma_run_maximal(src, at + 1, Class::Digit);
    if end != whole {
        lemma_run_len_bound(src, whole + 1, Class::Digit);
        lemma_run_maximal(src, whole + 1, Class::Digit);
    }
    assert forall|k: int| 0 <= k < whole - at implies is_digit(
        #[trigger] text.subrange(0, whole - at)[k],
    ) by {
        if k > 0 {
            assert(Class::Digit.holds(src[at + k]));
        }
    }
    if end != whole {
        assert forall|k: int| 0 <= k < end - whole - 1 implies is_digit(
            #[trigger] text.subrange(whole - at + 1, text.len() as int)[k],
        ) by {
            assert(Class::Digit.holds(src[whole + 1 + k]));
        }
    }
    assert(is_decimal_with(text, whole - at));
}

/// Every number among the tokens of a text is a decimal literal.
pub proof fn lemma_numbers_are_decimal(src: Seq<char>)
    ensures
        forall|k: int|
            0 <= k < tokens(src).len() && (#[trigger] tokens(src)[k]).kind is Number
                ==> is_decimal(tokens(src)[k].kind->Number_0),
{
    lemma_token_lines(src, 0);
    assert forall|k: int|
        0 <= k < tokens(src).len() && (#[trigger] tokens(src)[k]).kind is Number implies is_decimal(
        tokens(src)[k].kind->Number_0,
    ) by {
        let start = starts_from(src, 0)[k];
        assert(tokens(src)[k] == tokens_from(src, 0)[k]);
        lemma_word_is_not_number(src.subrange(start, step(src, start).end));
        lemma_number_is_decimal(src, start);
    }
}

/// No word stands for a number.
pub proof fn lemma_word_is_not_number(word: Seq<char>)
    ensures
        !(word_kind(word) is Number),
{
}

/// Scanning is a function of the text: two scans of the same text, each reporting to an
/// empty list, give the same tokens and the same diagnostics.
pub proof fn lemma_scan_repeatable(
    text: Seq<char>,
    first: Seq<Token>,
    first_errors: Seq<Error>,
    second: Seq<Token>,
    second_errors: Seq<Error>,
)
    requires
        token_views(first) == tokens(text),
        error_views(first_errors) == Seq::<ErrorView>::empty() + diagnostics(text),
        token_views(second) == tokens(text),
        error_views(second_errors) == Seq::<ErrorView>::empty() + diagnostics(text),
    ensures
        first.len() == second.len(),
        forall|k: int| 0 <= k < first.len() ==> first[k]@ == second[k]@,
        first_errors.len() == second_errors.len(),
        forall|k: int| 0 <= k < first_errors.len() ==> first_errors[k]@ == second_errors[k]@,
{
    assert(token_views(first).len() == first.len());
    assert(token_views(second).len() == second.len());
    assert(error_views(first_errors).len() == first_errors.len());
    assert(error_views(second_errors).len() == second_errors.len());
    assert forall|k: int| 0 <= k < first.len() implies first[k]@ == second[k]@ by {
        assert(token_views(first)[k] == first[k]@);
        assert(token_views(second)[k] == second[k]@);
    }
    assert forall|k: int| 0 <= k < first_errors.len() implies first_errors[k]@
        == second_errors[k]@ by {
        assert(error_views(first_errors)[k] == first_errors[k]@);
        assert(error_views(second_errors)[k] == second_errors[k]@);
    }
}

} // verus!
