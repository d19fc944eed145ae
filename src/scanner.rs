use vstd::prelude::*;
use vstd::slice::slice_subrange;
use vstd::string::{StringExecFns, StringSliceAdditionalSpecFns};

use crate::model::{
    byte_at, digits_end, error_of, errors_of, eof_token, ident_end, is_digit, is_ident_char,
    is_ident_start, keyword_kind, line_end, newlines, quote_pos, scan_from, scanned_errors,
    scanned_tokens, step, token_of, tokens_of, Fault, Lexeme, Problem, BANG, CARRIAGE_RETURN, COMMA,
    DIGIT_NINE, DIGIT_ZERO, DOT, EQUAL, GREATER, LEFT_BRACE, LEFT_PAREN, LESS, LOWER_A, LOWER_Z,
    MINUS, NEWLINE, PLUS, QUOTE, RIGHT_BRACE, RIGHT_PAREN, SEMICOLON, SLASH, SPACE, STAR, TAB,
    UNDERSCORE, UPPER_A, UPPER_Z,
};
use crate::model::{lemma_errors_of_concat, lemma_scan_unfold, lemma_step_bounds, lemma_tokens_of_concat, opt_seq};
use crate::text::{char_text, text_of};
use crate::token::{token_views, Token};
use crate::token_type::TokenType;

verus! {

broadcast use vstd::string::group_string_axioms;

/// The views of an error list: each entry's line as a number and message as characters.
pub open spec fn error_views(es: Seq<(usize, String)>) -> Seq<(nat, Seq<char>)> {
    es.map_values(|e: (usize, String)| (e.0 as nat, e.1@))
}

/// Turns source text into tokens in one left-to-right pass over its bytes,
/// collecting lexical errors on the way.
pub struct Scanner<'a> {
    source: &'a str,
    pub tokens: Vec<Token>,
    start: usize,
    current: usize,
    line: usize,
    pub errors: Vec<(usize, String)>,
}

pub(crate) fn is_digit_byte(b: u8) -> (r: bool)
    ensures
        r == is_digit(b),
{
    DIGIT_ZERO <= b && b <= DIGIT_NINE
}

pub(crate) fn is_ident_start_byte(b: u8) -> (r: bool)
    ensures
        r == is_ident_start(b),
{
    (LOWER_A <= b && b <= LOWER_Z) || (UPPER_A <= b && b <= UPPER_Z) || b == UNDERSCORE
}

pub(crate) fn is_ident_char_byte(b: u8) -> (r: bool)
    ensures
        r == is_ident_char(b),
{
    is_ident_start_byte(b) || is_digit_byte(b)
}

/// Whether `bytes[s..e]` is exactly `w`.
fn word_is(bytes: &[u8], s: usize, e: usize, w: &Vec<u8>) -> (r: bool)
    requires
        s <= e <= bytes@.len(),
    ensures
        r == (bytes@.subrange(s as int, e as int) == w@),
{
    if e - s != w.len() {
        return false;
    }
    let mut i: usize = 0;
    while i < w.len()
        invariant
            s <= e <= bytes@.len(),
            e - s == w@.len(),
            0 <= i <= w@.len(),
            forall|j: int| 0 <= j < i ==> bytes@[s + j] == w@[j],
        decreases w@.len() - i,
    {
        if bytes[s + i] != w[i] {
            assert(bytes@.subrange(s as int, e as int)[i as int] != w@[i as int]);
            return false;
        }
        i += 1;
    }
    assert(bytes@.subrange(s as int, e as int) =~= w@);
    true
}

/// The keyword that `bytes[s..e]` spells, or `Identifier`.
fn keyword_kind_of(bytes: &[u8], s: usize, e: usize) -> (k: TokenType)
    requires
        s <= e <= bytes@.len(),
    ensures
        k == keyword_kind(bytes@.subrange(s as int, e as int)),
{
    if word_is(bytes, s, e, &vec![97u8, 110, 100]) {
        TokenType::And
    } else if word_is(bytes, s, e, &vec![99u8, 108, 97, 115, 115]) {
        TokenType::Class
    } else if word_is(bytes, s, e, &vec![101u8, 108, 115, 101]) {
        TokenType::Else
    } else if word_is(bytes, s, e, &vec![102u8, 97, 108, 115, 101]) {
        TokenType::False
    } else if word_is(bytes, s, e, &vec![102u8, 117, 110]) {
        TokenType::Fun
    } else if word_is(bytes, s, e, &vec![102u8, 111, 114]) {
        TokenType::For
    } else if word_is(bytes, s, e, &vec![105u8, 102]) {
        TokenType::If
    } else if word_is(bytes, s, e, &vec![110u8, 105, 108]) {
        TokenType::Nil
    } else if word_is(bytes, s, e, &vec![111u8, 114]) {
        TokenType::Or
    } else if word_is(bytes, s, e, &vec![112u8, 114, 105, 110, 116]) {
        TokenType::Print
    } else if word_is(bytes, s, e, &vec![114u8, 101, 116, 117, 114, 110]) {
        TokenType::Return
    } else if word_is(bytes, s, e, &vec![115u8, 117, 112, 101, 114]) {
        TokenType::Super
    } else if word_is(bytes, s, e, &vec![116u8, 104, 105, 115]) {
        TokenType::This
    } else if word_is(bytes, s, e, &vec![116u8, 114, 117, 101]) {
        TokenType::True
    } else if word_is(bytes, s, e, &vec![118u8, 97, 114]) {
        TokenType::Var
    } else if word_is(bytes, s, e, &vec![119u8, 104, 105, 108, 101]) {
        TokenType::While
    } else {
        TokenType::Identifier
    }
}

impl<'a> Scanner<'a> {
    /// The source as UTF-8 bytes.
    pub closed spec fn source_bytes(&self) -> Seq<u8> {
        self.source.spec_bytes()
    }

    /// The tokens emitted so far, in order.
    pub closed spec fn token_list(&self) -> Seq<Token> {
        self.tokens@
    }

    /// The errors recorded so far, in order.
    pub closed spec fn error_list(&self) -> Seq<(usize, String)> {
        self.errors@
    }

    /// Where the next lexeme starts.
    pub closed spec fn position(&self) -> int {
        self.current as int
    }

    /// The line counter.
    pub closed spec fn line_number(&self) -> nat {
        self.line as nat
    }

    /// The cursor lies within the source and the line counter is at least 1;
    /// a line can only have been counted by consuming a byte.
    pub closed spec fn wf(&self) -> bool {
        &&& self.start <= self.current <= self.source.spec_bytes().len() < usize::MAX
        &&& 1 <= self.line <= self.current + 1
    }

    /// `next` is this scanner after the lexeme at `start` was scanned.
    closed spec fn steps_to(&self, next: Self) -> bool {
        let src = self.source_bytes();
        let st = step(src, self.start as int, self.line as nat);
        &&& next.wf()
        &&& next.source == self.source
        &&& next.start == self.start
        &&& next.current == st.end
        &&& next.line == st.line
        &&& match st.lexeme {
            Some(l) => token_views(next.tokens@) == token_views(self.tokens@).push(
                token_of(src, l),
            ),
            None => next.tokens@ == self.tokens@,
        }
        &&& match st.problem {
            Some(p) => error_views(next.errors@) == error_views(self.errors@).push(error_of(p)),
            None => next.errors@ == self.errors@,
        }
    }

    /// A scanner at the start of `source`, with no tokens and no errors yet.
    pub fn new(source: &'a str) -> (s: Self)
        requires
            source.spec_bytes().len() < usize::MAX,
        ensures
            s.wf(),
            s.source_bytes() == source.spec_bytes(),
            s.position() == 0,
            s.line_number() == 1,
            s.token_list().len() == 0,
            s.error_list().len() == 0,
    {
        Scanner { source, tokens: Vec::new(), start: 0, current: 0, line: 1, errors: Vec::new() }
    }

    fn is_at_end(&self) -> (r: bool)
        requires
            self.wf(),
        ensures
            r == (self.current >= self.source_bytes().len()),
    {
        self.current >= self.source.len()
    }

    fn advance(&mut self) -> (c: u8)
        requires
            old(self).wf(),
            old(self).current < old(self).source_bytes().len(),
        ensures
            c == old(self).source_bytes()[old(self).current as int],
            *final(self) == (Scanner { current: (old(self).current + 1) as usize, ..*old(self) }),
    {
        let c = self.source.as_bytes()[self.current];
        self.current += 1;
        c
    }

    fn add_token(&mut self, token_type: TokenType)
        requires
            old(self).wf(),
        ensures
            final(self).source == old(self).source,
            final(self).start == old(self).start,
            final(self).current == old(self).current,
            final(self).line == old(self).line,
            final(self).errors == old(self).errors,
            token_views(final(self).tokens@) == token_views(old(self).tokens@).push(
                token_of(
                    old(self).source_bytes(),
                    Lexeme {
                        kind: token_type,
                        start: old(self).start as int,
                        end: old(self).current as int,
                        literal: None,
                        line: old(self).line as nat,
                    },
                ),
            ),
    {
        let bytes = self.source.as_bytes();
        let text = text_of(slice_subrange(bytes, self.start, self.current));
        self.tokens.push(Token::new(token_type, text, None, self.line));
        assert(token_views(self.tokens@) =~= token_views(old(self).tokens@).push(
            self.tokens@.last()@,
        ));
    }

    fn match_char(&mut self, expected: u8) -> (r: bool)
        requires
            old(self).wf(),
        ensures
            r == (old(self).current < old(self).source_bytes().len()
                && old(self).source_bytes()[old(self).current as int] == expected),
            *final(self) == (Scanner {
                current: if r {
                    (old(self).current + 1) as usize
                } else {
                    old(self).current
                },
                ..*old(self)
            }),
    {
        if self.is_at_end() {
            return false;
        }
        if self.source.as_bytes()[self.current] != expected {
            return false;
        }
        self.current += 1;
        true
    }

    fn peek(&self) -> (b: u8)
        requires
            self.wf(),
        ensures
            b == byte_at(self.source_bytes(), self.current as int),
    {
        if self.is_at_end() {
            return 0;
        }
        self.source.as_bytes()[self.current]
    }

    fn peek_next(&self) -> (b: u8)
        requires
            self.wf(),
        ensures
            b == byte_at(self.source_bytes(), self.current + 1),
    {
        if self.current + 1 >= self.source.len() {
            return 0;
        }
        self.source.as_bytes()[self.current + 1]
    }
    fn string(&mut self)
        requires
            old(self).wf(),
            old(self).start < old(self).source_bytes().len(),
            old(self).current == old(self).start + 1,
            old(self).source_bytes()[old(self).start as int] == QUOTE,
        ensures
            old(self).steps_to(*final(self)),
    {
        let ghost src = self.source_bytes();
        while self.peek() != QUOTE && !self.is_at_end()
            invariant
                self.wf(),
                self.source == old(self).source,
                self.start == old(self).start,
                self.tokens == old(self).tokens,
                self.errors == old(self).errors,
                src == self.source_bytes(),
                old(self).current <= self.current,
                quote_pos(src, self.current as int) == quote_pos(src, old(self).current as int),
                self.line == old(self).line + newlines(src, old(self).current as int, self.current as int),
            decreases src.len() - self.current,
        {
            let c = self.advance();
            if c == NEWLINE {
                self.line += 1;
            }
        }
        if self.is_at_end() {
            self.errors.push((self.line, "Unterminated string.".to_string()));
            assert(error_views(self.errors@) =~= error_views(old(self).errors@).push(
                error_of(Problem { line: self.line as nat, fault: Fault::UnterminatedString }),
            ));
            return;
        }
        // The closing quote.
        self.advance();
        let bytes = self.source.as_bytes();
        let lexeme = text_of(slice_subrange(bytes, self.start, self.current));
        let value = text_of(slice_subrange(bytes, self.start + 1, self.current - 1));
        self.tokens.push(Token::new(TokenType::String, lexeme, Some(value), self.line));
        assert(token_views(self.tokens@) =~= token_views(old(self).tokens@).push(
            self.tokens@.last()@,
        ));
    }

    fn number(&mut self)
        requires
            old(self).wf(),
            old(self).start < old(self).source_bytes().len(),
            old(self).current == old(self).start + 1,
            is_digit(old(self).source_bytes()[old(self).start as int]),
        ensures
            old(self).steps_to(*final(self)),
    {
        let ghost src = self.source_bytes();
        while is_digit_byte(self.peek())
            invariant
                self.wf(),
                *self == (Scanner { current: self.current, ..*old(self) }),
                src == self.source_bytes(),
                old(self).current <= self.current,
                digits_end(src, self.current as int) == digits_end(src, old(self).current as int),
            decreases src.len() - self.current,
        {
            self.advance();
        }
        // Look for a fractional part.
        if self.peek() == DOT && is_digit_byte(self.peek_next()) {
            // Consume the dot.
            self.advance();
            let ghost mid = self.current;
            assert(digits_end(src, mid as int) == digits_end(src, mid + 1));
            while is_digit_byte(self.peek())
                invariant
                    self.wf(),
                    *self == (Scanner { current: self.current, ..*old(self) }),
                    src == self.source_bytes(),
                    mid <= self.current,
                    digits_end(src, self.current as int) == digits_end(src, mid as int),
                decreases src.len() - self.current,
            {
                self.advance();
            }
        }
        let bytes = self.source.as_bytes();
        let lexeme = text_of(slice_subrange(bytes, self.start, self.current));
        let value = lexeme.clone();
        self.tokens.push(Token::new(TokenType::Number, lexeme, Some(value), self.line));
        assert(token_views(self.tokens@) =~= token_views(old(self).tokens@).push(
            self.tokens@.last()@,
        ));
    }

    fn identifier(&mut self)
        requires
            old(self).wf(),
            old(self).start < old(self).source_bytes().len(),
            old(self).current == old(self).start + 1,
            is_ident_start(old(self).source_bytes()[old(self).start as int]),
        ensures
            old(self).steps_to(*final(self)),
    {
        let ghost src = self.source_bytes();
        while is_ident_char_byte(self.peek())
            invariant
                self.wf(),
                *self == (Scanner { current: self.current, ..*old(self) }),
                src == self.source_bytes(),
                old(self).current <= self.current,
                ident_end(src, self.current as int) == ident_end(src, old(self).current as int),
            decreases src.len() - self.current,
        {
            self.advance();
        }
        let bytes = self.source.as_bytes();
        let token_type = keyword_kind_of(bytes, self.start, self.current);
        self.add_token(token_type);
    }
    fn pair(&mut self, one: TokenType, two: TokenType)
        requires
            old(self).wf(),
            old(self).current == old(self).start + 1,
        ensures
            final(self).source == old(self).source,
            final(self).start == old(self).start,
            final(self).line == old(self).line,
            final(self).errors == old(self).errors,
            ({
                let src = old(self).source_bytes();
                let e = if byte_at(src, old(self).current as int) == EQUAL {
                    old(self).current + 1
                } else {
                    old(self).current as int
                };
                &&& final(self).current == e
                &&& token_views(final(self).tokens@) == token_views(old(self).tokens@).push(
                    token_of(
                        src,
                        Lexeme {
                            kind: if e == old(self).current + 1 {
                                two
                            } else {
                                one
                            },
                            start: old(self).start as int,
                            end: e,
                            literal: None,
                            line: old(self).line as nat,
                        },
                    ),
                )
            }),
    {
        let token_type = if self.match_char(EQUAL) {
            two
        } else {
            one
        };
        self.add_token(token_type);
    }

    #[verifier::rlimit(40)]
    fn scan_token(&mut self)
        requires
            old(self).wf(),
            old(self).start == old(self).current,
            old(self).current < old(self).source_bytes().len(),
        ensures
            old(self).steps_to(*final(self)),
    {
        let ghost src = self.source_bytes();
        let c = self.advance();
        if c == LEFT_PAREN {
            self.add_token(TokenType::LeftParen);
        } else if c == RIGHT_PAREN {
            self.add_token(TokenType::RightParen);
        } else if c == LEFT_BRACE {
            self.add_token(TokenType::LeftBrace);
        } else if c == RIGHT_BRACE {
            self.add_token(TokenType::RightBrace);
        } else if c == COMMA {
            self.add_token(TokenType::Comma);
        } else if c == DOT {
            self.add_token(TokenType::Dot);
        } else if c == MINUS {
            self.add_token(TokenType::Minus);
        } else if c == PLUS {
            self.add_token(TokenType::Plus);
        } else if c == SEMICOLON {
            self.add_token(TokenType::Semicolon);
        } else if c == STAR {
            self.add_token(TokenType::Star);
        } else if c == BANG {
            self.pair(TokenType::Bang, TokenType::BangEqual);
        } else if c == EQUAL {
            self.pair(TokenType::Equal, TokenType::EqualEqual);
        } else if c == LESS {
            self.pair(TokenType::Less, TokenType::LessEqual);
        } else if c == GREATER {
            self.pair(TokenType::Greater, TokenType::GreaterEqual);
        } else if c == SLASH {
            if self.match_char(SLASH) {
                // A comment goes until the end of the line.
                let ghost body = self.current;
                while self.peek() != NEWLINE && !self.is_at_end()
                    invariant
                        self.wf(),
                        *self == (Scanner { current: self.current, ..*old(self) }),
                        src == self.source_bytes(),
                        body <= self.current,
                        line_end(src, self.current as int) == line_end(src, body as int),
                    decreases src.len() - self.current,
                {
                    self.advance();
                }
            } else {
                self.add_token(TokenType::Slash);
            }
        } else if c == SPACE || c == CARRIAGE_RETURN || c == TAB {
            // Whitespace produces no token.
        } else if c == NEWLINE {
            self.line += 1;
        } else if c == QUOTE {
            self.string();
        } else if is_digit_byte(c) {
            self.number();
        } else if is_ident_start_byte(c) {
            self.identifier();
        } else {
            let message = "Unexpected character: ".to_string().concat(char_text(c as char).as_str());
            self.errors.push((self.line, message));
            assert(error_views(self.errors@) =~= error_views(old(self).errors@).push(
                error_of(Problem { line: self.line as nat, fault: Fault::UnexpectedCharacter(c) }),
            ));
        }
    }

    /// Scans from the cursor to the end of the source, then appends the
    /// end-of-input token; returns the whole token list.
    pub fn scan_tokens(&mut self) -> (r: &Vec<Token>)
        requires
            old(self).wf(),
        ensures
            final(self).wf(),
            final(self).source_bytes() == old(self).source_bytes(),
            final(self).position() == old(self).source_bytes().len(),
            final(self).token_list().len() > 0,
            final(self).token_list().last()@ == eof_token(final(self).line_number()),
            ({
                let src = old(self).source_bytes();
                let o = scan_from(src, old(self).position(), old(self).line_number());
                &&& token_views(final(self).token_list()) == (token_views(old(self).token_list())
                    + tokens_of(src, o.lexemes)).push(eof_token(o.line))
                &&& error_views(final(self).error_list()) == error_views(old(self).error_list())
                    + errors_of(o.problems)
                &&& final(self).line_number() == o.line
            }),
            old(self).position() == 0 && old(self).line_number() == 1 && old(
                self,
            ).token_list().len() == 0 && old(self).error_list().len() == 0 ==> {
                &&& token_views(final(self).token_list()) == scanned_tokens(
                    old(self).source_bytes(),
                )
                &&& error_views(final(self).error_list()) == scanned_errors(
                    old(self).source_bytes(),
                )
            },
            r@ == final(self).token_list(),
    {
        let ghost src = self.source_bytes();
        let ghost o = scan_from(src, self.current as int, self.line as nat);
        while !self.is_at_end()
            invariant
                self.wf(),
                self.source == old(self).source,
                src == self.source_bytes(),
                old(self).current <= self.current,
                ({
                    let rest = scan_from(src, self.current as int, self.line as nat);
                    &&& token_views(self.tokens@) + tokens_of(src, rest.lexemes) == token_views(
                        old(self).tokens@,
                    ) + tokens_of(src, o.lexemes)
                    &&& error_views(self.errors@) + errors_of(rest.problems) == error_views(
                        old(self).errors@,
                    ) + errors_of(o.problems)
                    &&& rest.line == o.line
                }),
            decreases src.len() - self.current,
        {
            // We are at the beginning of the next lexeme.
            self.start = self.current;
            let ghost before = *self;
            self.scan_token();
            proof {
                let st = step(src, before.current as int, before.line as nat);
                let rest = scan_from(src, st.end, st.line);
                lemma_scan_unfold(src, before.current as int, before.line as nat);
                lemma_step_bounds(src, before.current as int, before.line as nat);
                lemma_tokens_of_concat(src, opt_seq(st.lexeme), rest.lexemes);
                lemma_errors_of_concat(opt_seq(st.problem), rest.problems);
                match st.lexeme {
                    Some(l) => {
                        assert(tokens_of(src, opt_seq(st.lexeme)) =~= seq![token_of(src, l)]);
                    },
                    None => {
                        assert(tokens_of(src, opt_seq(st.lexeme)) =~= seq![]);
                    },
                }
                match st.problem {
                    Some(p) => {
                        assert(errors_of(opt_seq(st.problem)) =~= seq![error_of(p)]);
                    },
                    None => {
                        assert(errors_of(opt_seq(st.problem)) =~= seq![]);
                    },
                }
                assert(token_views(self.tokens@) + tokens_of(src, rest.lexemes) =~= token_views(
                    before.tokens@,
                ) + (tokens_of(src, opt_seq(st.lexeme)) + tokens_of(src, rest.lexemes)));
                assert(error_views(self.errors@) + errors_of(rest.problems) =~= error_views(
                    before.errors@,
                ) + (errors_of(opt_seq(st.problem)) + errors_of(rest.problems)));
            }
        }
        let ghost before = *self;
        self.tokens.push(Token::new(TokenType::Eof, String::new(), None, self.line));
        proof {
            assert(tokens_of(src, scan_from(src, before.current as int, before.line as nat).lexemes)
                =~= seq![]);
            assert(errors_of(scan_from(src, before.current as int, before.line as nat).problems)
                =~= seq![]);
            assert(token_views(before.tokens@) =~= token_views(before.tokens@) + seq![]);
            assert(error_views(before.errors@) =~= error_views(before.errors@) + seq![]);
            assert(token_views(self.tokens@) =~= token_views(before.tokens@).push(
                eof_token(self.line as nat),
            ));
            assert(token_views(old(self).tokens@) + tokens_of(src, o.lexemes) =~= token_views(
                before.tokens@,
            ));
            assert(token_views(self.tokens@)[self.tokens@.len() - 1] == self.tokens@.last()@);
            if old(self).tokens@.len() == 0 {
                assert(token_views(old(self).tokens@) + tokens_of(src, o.lexemes) =~= tokens_of(
                    src,
                    o.lexemes,
                ));
            }
            if old(self).errors@.len() == 0 {
                assert(error_views(old(self).errors@) + errors_of(o.problems) =~= errors_of(
                    o.problems,
                ));
            }
        }
        &self.tokens
    }
}

} // verus!
