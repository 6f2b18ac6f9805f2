use vstd::prelude::*;
use super::grammar::{
    diagnostics, diagnostics_from, eof, has, invalid_message, is_alpha, is_digit,
    lemma_line_step, lemma_newlines_bound, lemma_run_len_bound, lemma_run_maximal,
    lemma_step_bounds, lemma_token_ends_on_its_line, line_at, number_end, run_len, step,
    step_diagnostics, step_tokens, string_step, tokens, tokens_from, Class,
};
use super::laws::lemma_one_eof_last;
use super::text::{chars_of, text_of};
use super::token::{lemma_token_views_push, token_views, Token, TokenView};
use super::token_type::{word_kind, Kind, TokenType};
use crate::error::{error_views, lemma_error_views_push, Error, ErrorView, Errors};

verus! {

/// A cursor over one source text, and the tokens recognised so far.
#[derive(Debug)]
pub struct Scanner {
    source: Vec<char>,
    tokens: Vec<Token>,
    start: usize,
    current: usize,
    line: usize,
}

impl Scanner {
    /// The text that is being scanned.
    pub closed spec fn source(&self) -> Seq<char> {
        self.source@
    }

    /// The position of the next unread character.
    pub closed spec fn position(&self) -> int {
        self.current as int
    }

    /// The tokens recognised so far.
    pub closed spec fn emitted(&self) -> Seq<TokenView> {
        token_views(self.tokens@)
    }

    /// The cursor lies inside the text, and the text is short enough for its lines to be
    /// counted.
    pub closed spec fn bounded(&self) -> bool {
        self.start <= self.current <= self.source.len() < usize::MAX
    }

    /// The scanner's invariant between lexemes: the cursor lies inside the text and the line
    /// counter is the line of the cursor.
    pub closed spec fn wf(&self) -> bool {
        self.bounded() && self.line == line_at(self.source@, self.current as int)
    }

    /// A scanner at the start of `source`, on line 1, with no tokens yet. The text must be
    /// short enough for its lines to be counted, as every text that fits in memory is.
    pub fn new(source: &str) -> (scanner: Self)
        requires
            source@.len() < usize::MAX,
        ensures
            scanner.wf(),
            scanner.source() == source@,
            scanner.position() == 0,
            scanner.emitted() == Seq::<TokenView>::empty(),
    {
        let scanner = Self {
            source: chars_of(source),
            tokens: Vec::new(),
            start: 0,
            current: 0,
            line: 1,
        };
        assert(token_views(scanner.tokens@) =~= Seq::<TokenView>::empty());
        scanner
    }

    /// Scans the rest of the text: appends the tokens of every remaining lexeme and then the
    /// closing token, and reports every diagnostic to `errors`, behind what it already holds.
    pub fn scan_tokens(&mut self, errors: &mut Errors) -> (tokens: &Vec<Token>)
        requires
            old(self).wf(),
        ensures
            final(self).wf(),
            final(self).source() == old(self).source(),
            final(self).position() == old(self).source().len(),
            final(self).emitted() == old(self).emitted() + tokens_from(
                old(self).source(),
                old(self).position(),
            ).push(eof(old(self).source())),
            token_views(tokens@) == final(self).emitted(),
            error_views(final(errors)@) == error_views(old(errors)@) + diagnostics_from(
                old(self).source(),
                old(self).position(),
            ),
    {
        let ghost src = self.source@;
        let ghost all_tokens = token_views(self.tokens@) + tokens_from(src, self.current as int);
        let ghost all_errors = error_views(errors@) + diagnostics_from(src, self.current as int);
        while !self.is_at_end()
            invariant
                self.wf(),
                self.source@ == src,
                token_views(self.tokens@) + tokens_from(src, self.current as int) == all_tokens,
                error_views(errors@) + diagnostics_from(src, self.current as int) == all_errors,
            decreases self.source.len() - self.current,
        {
            let ghost before = token_views(self.tokens@);
            let ghost reported = error_views(errors@);
            let ghost at = self.current as int;
            let ghost s = step(src, at);
            self.scan_token(errors);
            proof {
                lemma_step_bounds(src, at);
                assert(token_views(self.tokens@) + tokens_from(src, s.end) =~= before + (
                    step_tokens(src, at, s) + tokens_from(src, s.end)
                ));
                assert(error_views(errors@) + diagnostics_from(src, s.end) =~= reported + (
                    step_diagnostics(src, s) + diagnostics_from(src, s.end)
                ));
            }
        }
        let ghost before = token_views(self.tokens@);
        self.add_token(TokenType::Eof);
        proof {
            assert(before + Seq::<TokenView>::empty() =~= before);
            assert(error_views(errors@) + Seq::<ErrorView>::empty() =~= error_views(errors@));
        }
        &self.tokens
    }

    /// Recognises the lexeme that starts at the cursor, one step of the grammar: consumes it,
    /// and emits its token or reports its diagnostic, if it has one. At the end of the text
    /// it does nothing.
    pub fn scan_token(&mut self, errors: &mut Errors)
        requires
            old(self).wf(),
        ensures
            final(self).wf(),
            final(self).source() == old(self).source(),
            old(self).position() < old(self).source().len() ==> {
                let s = step(old(self).source(), old(self).position());
                &&& final(self).position() == s.end
                &&& final(self).emitted() == old(self).emitted() + step_tokens(
                    old(self).source(),
                    old(self).position(),
                    s,
                )
                &&& error_views(final(errors)@) == error_views(old(errors)@) + step_diagnostics(
                    old(self).source(),
                    s,
                )
            },
            old(self).position() >= old(self).source().len() ==> {
                &&& final(self).position() == old(self).position()
                &&& final(self).emitted() == old(self).emitted()
                &&& final(errors)@ == old(errors)@
            },
    {
        let ghost src = self.source@;
        let ghost before = token_views(self.tokens@);
        let ghost reported = error_views(errors@);
        self.start = self.current;
        proof {
            lemma_newlines_bound(src, 0, self.current as int);
            if self.current < src.len() {
                lemma_line_step(src, self.current as int);
                if step(src, self.current as int).outcome is Emit && !(step(
                    src,
                    self.current as int,
                ).outcome->Emit_0 is String) {
                    lemma_token_ends_on_its_line(src, self.current as int);
                }
            }
            if self.current + 1 < src.len() {
                lemma_line_step(src, self.current + 1);
            }
        }
        let next_char = self.advance();
        match next_char {
            Some(c) => {
                if c == '(' {
                    self.add_token(TokenType::LeftParen)
                } else if c == ')' {
                    self.add_token(TokenType::RightParen)
                } else if c == '{' {
                    self.add_token(TokenType::LeftBrace)
                } else if c == '}' {
                    self.add_token(TokenType::RightBrace)
                } else if c == ',' {
                    self.add_token(TokenType::Comma)
                } else if c == '.' {
                    self.add_token(TokenType::Dot)
                } else if c == '-' {
                    self.add_token(TokenType::Minus)
                } else if c == '+' {
                    self.add_token(TokenType::Plus)
                } else if c == ';' {
                    self.add_token(TokenType::Semicolon)
                } else if c == '*' {
                    self.add_token(TokenType::Star)
                } else if c == '!' {
                    let token_type = self.scan_operator('=', TokenType::Bang, TokenType::BangEqual);
                    self.add_token(token_type);
                } else if c == '=' {
                    let token_type = self.scan_operator(
                        '=',
                        TokenType::Equal,
                        TokenType::EqualEqual,
                    );
                    self.add_token(token_type);
                } else if c == '<' {
                    let token_type = self.scan_operator('=', TokenType::Less, TokenType::LessEqual);
                    self.add_token(token_type)
                } else if c == '>' {
                    let token_type = self.scan_operator(
                        '=',
                        TokenType::Greater,
                        TokenType::GreaterEqual,
                    );
                    self.add_token(token_type);
                } else if c == '/' {
                    if self.advance_if_match('/') {
                        self.skip_rest_of_line();
                    } else {
                        self.add_token(TokenType::Slash);
                    }
                } else if c == '"' {
                    self.handle_string(errors)
                } else if Self::is_digit(c) {
                    self.handle_number()
                } else if Self::is_alpha(c) {
                    self.handle_word()
                } else if c == ' ' || c == '\r' || c == '\t' {
                } else if c == '\n' {
                    self.new_line()
                } else {
                    let message = Self::invalid_character(c);
                    errors.push(Error::CodeError { line: self.line, location: None, message });
                    proof {
                        lemma_error_views_push(old(errors)@, errors@.last());
                    }
                }
            },
            None => {},
        }
        proof {
            if self.start < src.len() {
                assert(token_views(self.tokens@) =~= before + step_tokens(
                    src,
                    self.start as int,
                    step(src, self.start as int),
                ));
                assert(error_views(errors@) =~= reported + step_diagnostics(
                    src,
                    step(src, self.start as int),
                ));
            }
        }
    }

    /// The message for a character that starts no lexeme.
    fn invalid_character(c: char) -> (message: String)
        ensures
            message@ == invalid_message(c),
    {
        let mut message = String::from_str("invalid character: '");
        message.push(c);
        message.push('\'');
        message
    }

    /// Reads the rest of a number whose first digit has been consumed, and emits it.
    fn handle_number(&mut self)
        requires
            old(self).bounded(),
            old(self).current == old(self).start + 1,
            is_digit(old(self).source@[old(self).start as int]),
            old(self).line == line_at(old(self).source@, old(self).start as int),
        ensures
            final(self).wf(),
            final(self).source == old(self).source,
            final(self).start == old(self).start,
            final(self).current == number_end(old(self).source@, old(self).start as int),
            token_views(final(self).tokens@) == token_views(old(self).tokens@).push(
                TokenView {
                    kind: Kind::Number(
                        old(self).source@.subrange(
                            old(self).start as int,
                            final(self).current as int,
                        ),
                    ),
                    line: line_at(old(self).source@, final(self).current as int),
                },
            ),
    {
        self.consume_run(Class::Digit);
        if self.peek() == '.' && Self::is_digit(self.peek_next()) {
            self.advance();  // consume the '.'
            self.consume_run(Class::Digit);
        }
        let string_value = text_of(&self.source, self.start, self.current);
        self.add_token(TokenType::Number(string_value));
    }

    /// Reads the rest of a word whose first character has been consumed, and emits its
    /// keyword or an identifier.
    fn handle_word(&mut self)
        requires
            old(self).bounded(),
            old(self).current == old(self).start + 1,
            is_alpha(old(self).source@[old(self).start as int]),
            old(self).line == line_at(old(self).source@, old(self).start as int),
        ensures
            final(self).wf(),
            final(self).source == old(self).source,
            final(self).start == old(self).start,
            final(self).current == old(self).current + run_len(
                old(self).source@,
                old(self).current as int,
                Class::Word,
            ),
            token_views(final(self).tokens@) == token_views(old(self).tokens@).push(
                TokenView {
                    kind: word_kind(
                        old(self).source@.subrange(
                            old(self).start as int,
                            final(self).current as int,
                        ),
                    ),
                    line: line_at(old(self).source@, final(self).current as int),
                },
            ),
    {
        self.consume_run(Class::Word);
        let word = text_of(&self.source, self.start, self.current);
        self.add_token(TokenType::of_word(word));
    }

    fn is_digit(c: char) -> (r: bool)
        ensures
            r == is_digit(c),
    {
        '0' <= c && c <= '9'
    }

    fn is_alpha(c: char) -> (r: bool)
        ensures
            r == is_alpha(c),
    {
        ('a' <= c && c <= 'z') || ('A' <= c && c <= 'Z') || c == '_'
    }

    /// Reads a string whose opening quote has been consumed: emits it, on the line of that
    /// quote, or reports that the text ended before it was closed, on the line reached.
    fn handle_string(&mut self, errors: &mut Errors)
        requires
            old(self).bounded(),
            old(self).current == old(self).start + 1,
            old(self).source@[old(self).start as int] == '"',
            old(self).line == line_at(old(self).source@, old(self).start as int),
        ensures
            final(self).wf(),
            final(self).source == old(self).source,
            final(self).start == old(self).start,
            final(self).current == string_step(old(self).source@, old(self).start as int).end,
            token_views(final(self).tokens@) == token_views(old(self).tokens@) + step_tokens(
                old(self).source@,
                old(self).start as int,
                string_step(old(self).source@, old(self).start as int),
            ),
            error_views(final(errors)@) == error_views(old(errors)@) + step_diagnostics(
                old(self).source@,
                string_step(old(self).source@, old(self).start as int),
            ),
    {
        let ghost src = self.source@;
        let ghost before = token_views(self.tokens@);
        let ghost reported = error_views(errors@);
        proof {
            lemma_line_step(src, self.start as int);
        }
        let first_line = self.line;  // the line of the opening '"'
        self.consume_run(Class::Quoted);
        if self.is_at_end() {
            errors.push(
                Error::CodeError {
                    line: self.line,
                    location: None,
                    message: String::from_str("string not terminated"),
                },
            );
            proof {
                lemma_error_views_push(old(errors)@, errors@.last());
            }
        } else {
            proof {
                lemma_run_maximal(src, self.start + 1, Class::Quoted);
                lemma_line_step(src, self.current as int);
            }
            self.advance();  // consume the terminating '"'
            let string_value = text_of(&self.source, self.start + 1, self.current - 1);
            self.add_token_on(TokenType::String(string_value), first_line);
        }
        proof {
            assert(token_views(self.tokens@) =~= before + step_tokens(
                src,
                self.start as int,
                string_step(src, self.start as int),
            ));
            assert(error_views(errors@) =~= reported + step_diagnostics(
                src,
                string_step(src, self.start as int),
            ));
        }
    }

    fn new_line(&mut self)
        requires
            old(self).line < usize::MAX,
        ensures
            *final(self) == (Scanner { line: (old(self).line + 1) as usize, ..*old(self) }),
    {
        self.line += 1;
    }

    /// Skips the body of a comment: everything up to the next newline, which stays unread.
    fn skip_rest_of_line(&mut self)
        requires
            old(self).wf(),
        ensures
            final(self).wf(),
            final(self).source == old(self).source,
            final(self).tokens == old(self).tokens,
            final(self).start == old(self).start,
            final(self).current == old(self).current + run_len(
                old(self).source@,
                old(self).current as int,
                Class::Comment,
            ),
    {
        self.consume_run(Class::Comment);
    }

    /// Consumes the longest run of characters of `class` at the cursor, counting the
    /// newlines it passes.
    fn consume_run(&mut self, class: Class)
        requires
            old(self).wf(),
        ensures
            final(self).wf(),
            final(self).source == old(self).source,
            final(self).tokens == old(self).tokens,
            final(self).start == old(self).start,
            final(self).current == old(self).current + run_len(
                old(self).source@,
                old(self).current as int,
                class,
            ),
    {
        proof {
            lemma_run_len_bound(self.source@, self.current as int, class);
        }
        while !self.is_at_end() && class.contains(self.peek())
            invariant
                self.wf(),
                self.source == old(self).source,
                self.tokens == old(self).tokens,
                self.start == old(self).start,
                self.current + run_len(self.source@, self.current as int, class) == old(
                    self,
                ).current + run_len(old(self).source@, old(self).current as int, class),
            decreases self.source.len() - self.current,
        {
            proof {
                lemma_newlines_bound(self.source@, 0, self.current as int);
            }
            if self.peek() == '\n' {
                self.new_line();
            }
            self.advance();
        }
    }

    // Operators can be single character types like '+', '-' or '!'.
    // Operators can be dual types like '!=', '>='
    fn scan_operator(
        &mut self,
        second_char: char,
        token_single: TokenType,
        token_dual: TokenType,
    ) -> (token_type: TokenType)
        requires
            old(self).current <= old(self).source.len(),
        ensures
            token_type == if has(old(self).source@, old(self).current as int, second_char) {
                token_dual
            } else {
                token_single
            },
            *final(self) == (Scanner {
                current: if has(old(self).source@, old(self).current as int, second_char) {
                    (old(self).current + 1) as usize
                } else {
                    old(self).current
                },
                ..*old(self)
            }),
    {
        if self.advance_if_match(second_char) {
            token_dual
        } else {
            token_single
        }
    }

    fn advance(&mut self) -> (c: Option<char>)
        requires
            old(self).current <= old(self).source.len(),
        ensures
            c == if old(self).current < old(self).source.len() {
                Some(old(self).source@[old(self).current as int])
            } else {
                None
            },
            *final(self) == (Scanner {
                current: if c is Some {
                    (old(self).current + 1) as usize
                } else {
                    old(self).current
                },
                ..*old(self)
            }),
    {
        let c = self.get_current();
        if let Some(c) = c {
            self.current += 1;
            return Some(c);
        }
        None
    }

    fn advance_if_match(&mut self, expected_char: char) -> (matched: bool)
        requires
            old(self).current <= old(self).source.len(),
        ensures
            matched == has(old(self).source@, old(self).current as int, expected_char),
            *final(self) == (Scanner {
                current: if matched {
                    (old(self).current + 1) as usize
                } else {
                    old(self).current
                },
                ..*old(self)
            }),
    {
        if self.is_at_end() {
            return false;
        }
        if self.source[self.current] != expected_char {
            return false;
        }
        self.current += 1;
        return true;
    }

    /// Emits a token on the line of the cursor.
    fn add_token(&mut self, token_type: TokenType)
        ensures
            final(self).source == old(self).source,
            final(self).start == old(self).start,
            final(self).current == old(self).current,
            final(self).line == old(self).line,
            token_views(final(self).tokens@) == token_views(old(self).tokens@).push(
                TokenView { kind: token_type@, line: old(self).line as nat },
            ),
    {
        self.add_token_on(token_type, self.line);
    }

    /// Emits a token on the given line.
    fn add_token_on(&mut self, token_type: TokenType, line: usize)
        ensures
            final(self).source == old(self).source,
            final(self).start == old(self).start,
            final(self).current == old(self).current,
            final(self).line == old(self).line,
            token_views(final(self).tokens@) == token_views(old(self).tokens@).push(
                TokenView { kind: token_type@, line: line as nat },
            ),
    {
        let token = Token::new(token_type, line);
        proof {
            lemma_token_views_push(self.tokens@, token);
        }
        self.tokens.push(token);
    }

    fn is_at_end(&self) -> (r: bool)
        ensures
            r == (self.current >= self.source.len()),
    {
        self.current >= self.source.len()
    }

    /// The character at the cursor, or NUL at the end of the text.
    fn peek(&self) -> (c: char)
        ensures
            c == if self.current < self.source.len() {
                self.source@[self.current as int]
            } else {
                '\0'
            },
    {
        match self.get_current() {
            Some(c) => c,
            None => '\0',
        }
    }

    /// The character behind the one at the cursor, or NUL where the text ends before it.
    fn peek_next(&self) -> (c: char)
        requires
            self.current < usize::MAX,
        ensures
            c == if self.current + 1 < self.source.len() {
                self.source@[self.current + 1]
            } else {
                '\0'
            },
    {
        if self.current + 1 < self.source.len() {
            self.source[self.current + 1]
        } else {
            '\0'
        }
    }

    fn get_current(&self) -> (c: Option<char>)
        ensures
            c == if self.current < self.source.len() {
                Some(self.source@[self.current as int])
            } else {
                None
            },
    {
        if self.current < self.source.len() {
            Some(self.source[self.current])
        } else {
            None
        }
    }

    /// The tokens recognised so far.
    pub fn tokens(&self) -> (tokens: &Vec<Token>)
        ensures
            token_views(tokens@) == self.emitted(),
    {
        &self.tokens
    }
}

/// Scans `text` from its first character to its last: returns its tokens, closed by the
/// end-of-text token, and reports its diagnostics to `errors`, behind what it already holds.
/// Malformed text is never a failure. The one demand is on the text's length, so that its
/// lines can be counted; every text that fits in memory meets it.
pub fn scan(text: &str, errors: &mut Errors) -> (found: Vec<Token>)
    requires
        text@.len() < usize::MAX,
    ensures
        token_views(found@) == tokens(text@),
        error_views(final(errors)@) == error_views(old(errors)@) + diagnostics(text@),
        found@.len() >= 1,
        forall|k: int|
            0 <= k < found@.len() ==> ((#[trigger] found@[k])@.kind == Kind::Eof <==> k
                == found@.len() - 1),
{
    let mut scanner = Scanner::new(text);
    scanner.scan_tokens(errors);
    proof {
        assert(Seq::<TokenView>::empty() + tokens(text@) =~= tokens(text@));
        lemma_one_eof_last(text@);
        assert(token_views(scanner.tokens@).len() == scanner.tokens@.len());
        let found = scanner.tokens@;
        assert forall|k: int| 0 <= k < found.len() implies (#[trigger] found[k])@ == tokens(
            text@,
        )[k] by {
            assert(token_views(found)[k] == found[k]@);
        }
    }
    scanner.tokens
}

} // verus!
