use vstd::prelude::*;

use crate::text::utf8_text;
use crate::token::TokenView;
use crate::token_type::TokenType;

verus! {

pub const LEFT_PAREN: u8 = 40;
pub const RIGHT_PAREN: u8 = 41;
pub const LEFT_BRACE: u8 = 123;
pub const RIGHT_BRACE: u8 = 125;
pub const COMMA: u8 = 44;
pub const DOT: u8 = 46;
pub const MINUS: u8 = 45;
pub const PLUS: u8 = 43;
pub const SEMICOLON: u8 = 59;
pub const STAR: u8 = 42;
pub const SLASH: u8 = 47;
pub const BANG: u8 = 33;
pub const EQUAL: u8 = 61;
pub const LESS: u8 = 60;
pub const GREATER: u8 = 62;
pub const SPACE: u8 = 32;
pub const CARRIAGE_RETURN: u8 = 13;
pub const TAB: u8 = 9;
pub const NEWLINE: u8 = 10;
pub const QUOTE: u8 = 34;
pub const DIGIT_ZERO: u8 = 48;
pub const DIGIT_NINE: u8 = 57;
pub const LOWER_A: u8 = 97;
pub const LOWER_Z: u8 = 122;
pub const UPPER_A: u8 = 65;
pub const UPPER_Z: u8 = 90;
pub const UNDERSCORE: u8 = 95;

/// One lexeme found in the source: its category, the byte range it spans,
/// the byte range of its literal value (if it has one), and its line.
pub struct Lexeme {
    pub kind: TokenType,
    pub start: int,
    pub end: int,
    pub literal: Option<(int, int)>,
    pub line: nat,
}

/// What went wrong in a lexical error.
pub enum Fault {
    UnexpectedCharacter(u8),
    UnterminatedString,
}

/// A lexical error and the line it is reported at.
pub struct Problem {
    pub line: nat,
    pub fault: Fault,
}

/// The effect of scanning one lexeme: where the next one starts, the line
/// counter after it, and what it added to the token and error lists.
pub struct Step {
    pub end: int,
    pub line: nat,
    pub lexeme: Option<Lexeme>,
    pub problem: Option<Problem>,
}

/// The result of scanning from some position to the end of the source.
pub struct Outcome {
    pub lexemes: Seq<Lexeme>,
    pub problems: Seq<Problem>,
    pub line: nat,
}

/// The byte at `i`, or NUL past either end of the source.
pub open spec fn byte_at(src: Seq<u8>, i: int) -> u8 {
    if 0 <= i < src.len() {
        src[i]
    } else {
        0
    }
}

pub open spec fn is_digit(b: u8) -> bool {
    DIGIT_ZERO <= b <= DIGIT_NINE
}

/// An ASCII letter or an underscore: the bytes that start an identifier.
pub open spec fn is_ident_start(b: u8) -> bool {
    (LOWER_A <= b <= LOWER_Z) || (UPPER_A <= b <= UPPER_Z) || b == UNDERSCORE
}

pub open spec fn is_ident_char(b: u8) -> bool {
    is_ident_start(b) || is_digit(b)
}

/// The end of the run of digits that starts at `i`.
pub open spec fn digits_end(src: Seq<u8>, i: int) -> int
    decreases src.len() - i,
{
    if 0 <= i < src.len() && is_digit(src[i]) {
        digits_end(src, i + 1)
    } else {
        i
    }
}

/// The end of the run of identifier characters that starts at `i`.
pub open spec fn ident_end(src: Seq<u8>, i: int) -> int
    decreases src.len() - i,
{
    if 0 <= i < src.len() && is_ident_char(src[i]) {
        ident_end(src, i + 1)
    } else {
        i
    }
}

/// The position of the first newline at or after `i`, or the end of the source.
pub open spec fn line_end(src: Seq<u8>, i: int) -> int
    decreases src.len() - i,
{
    if 0 <= i < src.len() && src[i] != NEWLINE {
        line_end(src, i + 1)
    } else {
        i
    }
}

/// The position of the first double quote at or after `i`, or the end of the source.
pub open spec fn quote_pos(src: Seq<u8>, i: int) -> int
    decreases src.len() - i,
{
    if 0 <= i < src.len() && src[i] != QUOTE {
        quote_pos(src, i + 1)
    } else {
        i
    }
}

/// The number of newline bytes in `src[a..b]`.
pub open spec fn newlines(src: Seq<u8>, a: int, b: int) -> nat
    decreases b - a,
{
    if b <= a {
        0
    } else {
        newlines(src, a, b - 1) + if src[b - 1] == NEWLINE {
            1nat
        } else {
            0nat
        }
    }
}

/// The end of a number that starts at `s`: a digit run, and a fractional part
/// only where a digit follows the dot.
pub open spec fn number_end(src: Seq<u8>, s: int) -> int {
    let e = digits_end(src, s + 1);
    if byte_at(src, e) == DOT && is_digit(byte_at(src, e + 1)) {
        digits_end(src, e + 2)
    } else {
        e
    }
}

/// The category of a byte that always forms a token on its own.
pub open spec fn single_kind(c: u8) -> Option<TokenType> {
    if c == LEFT_PAREN {
        Some(TokenType::LeftParen)
    } else if c == RIGHT_PAREN {
        Some(TokenType::RightParen)
    } else if c == LEFT_BRACE {
        Some(TokenType::LeftBrace)
    } else if c == RIGHT_BRACE {
        Some(TokenType::RightBrace)
    } else if c == COMMA {
        Some(TokenType::Comma)
    } else if c == DOT {
        Some(TokenType::Dot)
    } else if c == MINUS {
        Some(TokenType::Minus)
    } else if c == PLUS {
        Some(TokenType::Plus)
    } else if c == SEMICOLON {
        Some(TokenType::Semicolon)
    } else if c == STAR {
        Some(TokenType::Star)
    } else {
        None
    }
}

/// For a byte that may take a following `=`: its category alone, and with the `=`.
pub open spec fn pair_kinds(c: u8) -> Option<(TokenType, TokenType)> {
    if c == BANG {
        Some((TokenType::Bang, TokenType::BangEqual))
    } else if c == EQUAL {
        Some((TokenType::Equal, TokenType::EqualEqual))
    } else if c == LESS {
        Some((TokenType::Less, TokenType::LessEqual))
    } else if c == GREATER {
        Some((TokenType::Greater, TokenType::GreaterEqual))
    } else {
        None
    }
}

/// The category of an identifier-shaped word: its keyword, or `Identifier`.
pub open spec fn keyword_kind(w: Seq<u8>) -> TokenType {
    if w == seq![97u8, 110, 100] {
        TokenType::And
    } else if w == seq![99u8, 108, 97, 115, 115] {
        TokenType::Class
    } else if w == seq![101u8, 108, 115, 101] {
        TokenType::Else
    } else if w == seq![102u8, 97, 108, 115, 101] {
        TokenType::False
    } else if w == seq![102u8, 117, 110] {
        TokenType::Fun
    } else if w == seq![102u8, 111, 114] {
        TokenType::For
    } else if w == seq![105u8, 102] {
        TokenType::If
    } else if w == seq![110u8, 105, 108] {
        TokenType::Nil
    } else if w == seq![111u8, 114] {
        TokenType::Or
    } else if w == seq![112u8, 114, 105, 110, 116] {
        TokenType::Print
    } else if w == seq![114u8, 101, 116, 117, 114, 110] {
        TokenType::Return
    } else if w == seq![115u8, 117, 112, 101, 114] {
        TokenType::Super
    } else if w == seq![116u8, 104, 105, 115] {
        TokenType::This
    } else if w == seq![116u8, 114, 117, 101] {
        TokenType::True
    } else if w == seq![118u8, 97, 114] {
        TokenType::Var
    } else if w == seq![119u8, 104, 105, 108, 101] {
        TokenType::While
    } else {
        TokenType::Identifier
    }
}

/// A step that emits a token spanning `src[s..e]`.
pub open spec fn emit(kind: TokenType, s: int, e: int, literal: Option<(int, int)>, line: nat) -> Step {
    Step {
        end: e,
        line,
        lexeme: Some(Lexeme { kind, start: s, end: e, literal, line }),
        problem: None,
    }
}

/// A step that emits nothing.
pub open spec fn skip(e: int, line: nat) -> Step {
    Step { end: e, line, lexeme: None, problem: None }
}

/// Scanning the one lexeme that starts at `s`, with the line counter at `line`.
pub open spec fn step(src: Seq<u8>, s: int, line: nat) -> Step {
    let c = src[s];
    if single_kind(c) is Some {
        emit(single_kind(c).unwrap(), s, s + 1, None, line)
    } else if pair_kinds(c) is Some {
        if byte_at(src, s + 1) == EQUAL {
            emit(pair_kinds(c).unwrap().1, s, s + 2, None, line)
        } else {
            emit(pair_kinds(c).unwrap().0, s, s + 1, None, line)
        }
    } else if c == SLASH {
        if byte_at(src, s + 1) == SLASH {
            skip(line_end(src, s + 2), line)
        } else {
            emit(TokenType::Slash, s, s + 1, None, line)
        }
    } else if c == SPACE || c == CARRIAGE_RETURN || c == TAB {
        skip(s + 1, line)
    } else if c == NEWLINE {
        skip(s + 1, line + 1)
    } else if c == QUOTE {
        let q = quote_pos(src, s + 1);
        let l = line + newlines(src, s + 1, q);
        if q < src.len() {
            emit(TokenType::String, s, q + 1, Some((s + 1, q)), l)
        } else {
            Step {
                end: q,
                line: l,
                lexeme: None,
                problem: Some(Problem { line: l, fault: Fault::UnterminatedString }),
            }
        }
    } else if is_digit(c) {
        let e = number_end(src, s);
        emit(TokenType::Number, s, e, Some((s, e)), line)
    } else if is_ident_start(c) {
        let e = ident_end(src, s + 1);
        emit(keyword_kind(src.subrange(s, e)), s, e, None, line)
    } else {
        Step {
            end: s + 1,
            line,
            lexeme: None,
            problem: Some(Problem { line, fault: Fault::UnexpectedCharacter(c) }),
        }
    }
}

pub open spec fn opt_seq<T>(o: Option<T>) -> Seq<T> {
    match o {
        Some(x) => seq![x],
        None => seq![],
    }
}

/// Scanning from `pos` to the end of the source, lexeme after lexeme.
pub open spec fn scan_from(src: Seq<u8>, pos: int, line: nat) -> Outcome
    decreases src.len() - pos,
{
    if pos < 0 || pos >= src.len() {
        Outcome { lexemes: seq![], problems: seq![], line }
    } else {
        let st = step(src, pos, line);
        if st.end <= pos || st.end > src.len() {
            Outcome { lexemes: seq![], problems: seq![], line }
        } else {
            let rest = scan_from(src, st.end, st.line);
            Outcome {
                lexemes: opt_seq(st.lexeme) + rest.lexemes,
                problems: opt_seq(st.problem) + rest.problems,
                line: rest.line,
            }
        }
    }
}

/// The token that a lexeme of `src` becomes.
pub open spec fn token_of(src: Seq<u8>, l: Lexeme) -> TokenView {
    TokenView {
        kind: l.kind,
        lexeme: utf8_text(src.subrange(l.start, l.end)),
        literal: match l.literal {
            Some(r) => Some(utf8_text(src.subrange(r.0, r.1))),
            None => None,
        },
        line: l.line,
    }
}

pub open spec fn tokens_of(src: Seq<u8>, ls: Seq<Lexeme>) -> Seq<TokenView> {
    ls.map_values(|l: Lexeme| token_of(src, l))
}

/// The end-of-input token at `line`.
pub open spec fn eof_token(line: nat) -> TokenView {
    TokenView { kind: TokenType::Eof, lexeme: seq![], literal: None, line }
}

/// The text of an error message.
pub open spec fn message_of(f: Fault) -> Seq<char> {
    match f {
        Fault::UnexpectedCharacter(c) => "Unexpected character: "@ + seq![c as char],
        Fault::UnterminatedString => "Unterminated string."@,
    }
}

pub open spec fn error_of(p: Problem) -> (nat, Seq<char>) {
    (p.line, message_of(p.fault))
}

pub open spec fn errors_of(ps: Seq<Problem>) -> Seq<(nat, Seq<char>)> {
    ps.map_values(|p: Problem| error_of(p))
}

/// The whole token list for `src`: every lexeme in order, then end of input.
pub open spec fn scanned_tokens(src: Seq<u8>) -> Seq<TokenView> {
    let o = scan_from(src, 0, 1);
    tokens_of(src, o.lexemes).push(eof_token(o.line))
}

/// The whole error list for `src`, in order.
pub open spec fn scanned_errors(src: Seq<u8>) -> Seq<(nat, Seq<char>)> {
    errors_of(scan_from(src, 0, 1).problems)
}


/// Each run ends inside the source, no earlier than where it starts.
pub proof fn lemma_run_bounds(src: Seq<u8>, i: int)
    requires
        0 <= i <= src.len(),
    ensures
        i <= digits_end(src, i) <= src.len(),
        i <= ident_end(src, i) <= src.len(),
        i <= line_end(src, i) <= src.len(),
        i <= quote_pos(src, i) <= src.len(),
    decreases src.len() - i,
{
    if i < src.len() {
        lemma_run_bounds(src, i + 1);
    }
}

/// Scanning one lexeme consumes at least one byte and stays inside the source.
pub proof fn lemma_step_bounds(src: Seq<u8>, s: int, line: nat)
    requires
        0 <= s < src.len(),
    ensures
        s < step(src, s, line).end <= src.len(),
        line <= step(src, s, line).line,
{
    lemma_run_bounds(src, s + 1);
    if s + 2 <= src.len() {
        lemma_run_bounds(src, s + 2);
    }
    let e = digits_end(src, s + 1);
    if e + 2 <= src.len() {
        lemma_run_bounds(src, e + 2);
    }
}

/// Scanning from `pos` is the step at `pos` followed by scanning from where it ends.
pub proof fn lemma_scan_unfold(src: Seq<u8>, pos: int, line: nat)
    requires
        0 <= pos < src.len(),
    ensures
        ({
            let st = step(src, pos, line);
            let rest = scan_from(src, st.end, st.line);
            scan_from(src, pos, line) == Outcome {
                lexemes: opt_seq(st.lexeme) + rest.lexemes,
                problems: opt_seq(st.problem) + rest.problems,
                line: rest.line,
            }
        }),
{
    lemma_step_bounds(src, pos, line);
}


pub proof fn lemma_tokens_of_concat(src: Seq<u8>, a: Seq<Lexeme>, b: Seq<Lexeme>)
    ensures
        tokens_of(src, a + b) == tokens_of(src, a) + tokens_of(src, b),
{
    assert(tokens_of(src, a + b) =~= tokens_of(src, a) + tokens_of(src, b));
}

pub proof fn lemma_errors_of_concat(a: Seq<Problem>, b: Seq<Problem>)
    ensures
        errors_of(a + b) == errors_of(a) + errors_of(b),
{
    assert(errors_of(a + b) =~= errors_of(a) + errors_of(b));
}

} // verus!
