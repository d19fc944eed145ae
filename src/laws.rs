use vstd::prelude::*;

use crate::model::{
    byte_at, digits_end, eof_token, ident_end, is_digit, is_ident_char, is_ident_start,
    keyword_kind, lemma_run_bounds, lemma_scan_unfold, pair_kinds, scan_from, scanned_errors,
    scanned_tokens, single_kind, step, Lexeme, DOT, EQUAL, SLASH,
};
use crate::scanner::error_views;
use crate::token::{token_views, Token};
use crate::token_type::TokenType;

verus! {

/// The category of a byte that is single-character punctuation, `/` included.
pub open spec fn punctuation_kind(c: u8) -> TokenType {
    if c == SLASH {
        TokenType::Slash
    } else {
        single_kind(c).unwrap()
    }
}

/// Every byte is single-character punctuation, and no `/` is followed by
/// another `/` (which would open a comment).
pub open spec fn punctuation_only(src: Seq<u8>) -> bool {
    &&& forall|i: int| 0 <= i < src.len() ==> (#[trigger] single_kind(src[i]) is Some || src[i] == SLASH)
    &&& forall|i: int| 0 <= i < src.len() - 1 ==> !(#[trigger] src[i] == SLASH && src[i + 1] == SLASH)
}

proof fn lemma_punctuation_from(src: Seq<u8>, pos: int)
    requires
        punctuation_only(src),
        0 <= pos <= src.len(),
    ensures
        scan_from(src, pos, 1).lexemes.len() == src.len() - pos,
        forall|k: int|
            0 <= k < src.len() - pos ==> #[trigger] scan_from(src, pos, 1).lexemes[k] == (Lexeme {
                kind: punctuation_kind(src[pos + k]),
                start: pos + k,
                end: pos + k + 1,
                literal: None,
                line: 1,
            }),
        scan_from(src, pos, 1).problems.len() == 0,
        scan_from(src, pos, 1).line == 1,
    decreases src.len() - pos,
{
    if pos < src.len() {
        assert(single_kind(src[pos]) is Some || src[pos] == SLASH);
        if pos + 1 < src.len() {
            assert(!(src[pos] == SLASH && src[pos + 1] == SLASH));
        }
        lemma_scan_unfold(src, pos, 1);
        lemma_punctuation_from(src, pos + 1);
        let rest = scan_from(src, pos + 1, 1);
        assert forall|k: int| 0 <= k < src.len() - pos implies #[trigger] scan_from(
            src,
            pos,
            1,
        ).lexemes[k] == (Lexeme {
            kind: punctuation_kind(src[pos + k]),
            start: pos + k,
            end: pos + k + 1,
            literal: None,
            line: 1,
        }) by {
            if k > 0 {
                assert(rest.lexemes[k - 1] == scan_from(src, pos, 1).lexemes[k]);
            }
        }
    }
}

/// A source made only of single-character punctuation gives one token per
/// byte, in source order, then end of input, and no errors.
pub proof fn lemma_punctuation_tokens(src: Seq<u8>)
    requires
        punctuation_only(src),
    ensures
        scanned_tokens(src).len() == src.len() + 1,
        forall|i: int|
            0 <= i < src.len() ==> (#[trigger] scanned_tokens(src)[i]).kind == punctuation_kind(
                src[i],
            ),
        scanned_tokens(src).last() == eof_token(1),
        scanned_errors(src).len() == 0,
{
    lemma_punctuation_from(src, 0);
    assert forall|i: int| 0 <= i < src.len() implies (#[trigger] scanned_tokens(src)[i]).kind
        == punctuation_kind(src[i]) by {
        assert(scan_from(src, 0, 1).lexemes[i].kind == punctuation_kind(src[0 + i]));
    }
}

/// `!`, `=`, `<` and `>` take a following `=` into one token; before any
/// other byte they stand alone and scanning resumes at that byte.
pub proof fn lemma_operator_lookahead(src: Seq<u8>, s: int, line: nat)
    requires
        0 <= s < src.len(),
        pair_kinds(src[s]) is Some,
    ensures
        ({
            let kinds = pair_kinds(src[s]).unwrap();
            let o = scan_from(src, s, line);
            let e = if byte_at(src, s + 1) == EQUAL {
                s + 2
            } else {
                s + 1
            };
            let kind = if byte_at(src, s + 1) == EQUAL {
                kinds.1
            } else {
                kinds.0
            };
            let rest = scan_from(src, e, line);
            &&& o.lexemes == seq![Lexeme { kind, start: s, end: e, literal: None, line }]
                + rest.lexemes
            &&& o.problems == rest.problems
            &&& o.line == rest.line
        }),
{
    lemma_scan_unfold(src, s, line);
    assert(seq![] + scan_from(src, step(src, s, line).end, line).problems =~= scan_from(
        src,
        step(src, s, line).end,
        line,
    ).problems);
}

/// A dot after a number's digits belongs to the number only when a digit
/// follows it; otherwise the number ends before it and the dot is a token.
pub proof fn lemma_trailing_dot(src: Seq<u8>, s: int, line: nat)
    requires
        0 <= s < src.len(),
        is_digit(src[s]),
        byte_at(src, digits_end(src, s + 1)) == DOT,
        !is_digit(byte_at(src, digits_end(src, s + 1) + 1)),
    ensures
        ({
            let e = digits_end(src, s + 1);
            let o = scan_from(src, s, line);
            &&& o.lexemes[0] == (Lexeme {
                kind: TokenType::Number,
                start: s,
                end: e,
                literal: Some((s, e)),
                line,
            })
            &&& o.lexemes[1] == (Lexeme {
                kind: TokenType::Dot,
                start: e,
                end: e + 1,
                literal: None,
                line,
            })
        }),
{
    let e = digits_end(src, s + 1);
    lemma_run_bounds(src, s + 1);
    lemma_scan_unfold(src, s, line);
    lemma_scan_unfold(src, e, line);
}

proof fn lemma_ident_run(src: Seq<u8>, i: int)
    requires
        0 <= i <= src.len(),
        forall|j: int| i <= j < src.len() ==> #[trigger] is_ident_char(src[j]),
    ensures
        ident_end(src, i) == src.len(),
    decreases src.len() - i,
{
    if i < src.len() {
        lemma_ident_run(src, i + 1);
    }
}

/// A word made of identifier characters and starting with a letter or `_`
/// scans as one token whose category is the word's keyword, or `Identifier`.
pub proof fn lemma_word(w: Seq<u8>)
    requires
        w.len() > 0,
        is_ident_start(w[0]),
        forall|j: int| 0 <= j < w.len() ==> #[trigger] is_ident_char(w[j]),
    ensures
        scan_from(w, 0, 1).lexemes == seq![
            Lexeme { kind: keyword_kind(w), start: 0, end: w.len() as int, literal: None, line: 1 },
        ],
        scan_from(w, 0, 1).problems.len() == 0,
{
    lemma_ident_run(w, 1);
    lemma_scan_unfold(w, 0, 1);
    assert(w.subrange(0, w.len() as int) =~= w);
    assert(seq![Lexeme { kind: keyword_kind(w), start: 0, end: w.len() as int, literal: None, line: 1 }]
        + seq![] =~= seq![
        Lexeme { kind: keyword_kind(w), start: 0, end: w.len() as int, literal: None, line: 1 },
    ]);
}

/// Each reserved word alone scans as its keyword; with one more identifier
/// character appended it scans as an identifier.
pub proof fn lemma_keyword_boundary(w: Seq<u8>, c: u8)
    requires
        keyword_kind(w) != TokenType::Identifier,
        is_ident_char(c),
    ensures
        scan_from(w, 0, 1).lexemes == seq![
            Lexeme { kind: keyword_kind(w), start: 0, end: w.len() as int, literal: None, line: 1 },
        ],
        scan_from(w.push(c), 0, 1).lexemes == seq![
            Lexeme {
                kind: TokenType::Identifier,
                start: 0,
                end: w.len() + 1 as int,
                literal: None,
                line: 1,
            },
        ],
{
    assert(w.len() > 0 && is_ident_start(w[0]) && forall|j: int|
        0 <= j < w.len() ==> #[trigger] is_ident_char(w[j]));
    lemma_word(w);
    let v = w.push(c);
    assert(forall|j: int| 0 <= j < v.len() ==> #[trigger] is_ident_char(v[j]));
    assert(keyword_kind(v) == TokenType::Identifier);
    lemma_word(v);
}

/// Scanning is a function of the source: any two complete scans of the same
/// source give identical token lists and identical error lists.
pub proof fn lemma_rescan_identical(
    src: Seq<u8>,
    tokens1: Seq<Token>,
    errors1: Seq<(usize, String)>,
    tokens2: Seq<Token>,
    errors2: Seq<(usize, String)>,
)
    requires
        token_views(tokens1) == scanned_tokens(src),
        error_views(errors1) == scanned_errors(src),
        token_views(tokens2) == scanned_tokens(src),
        error_views(errors2) == scanned_errors(src),
    ensures
        token_views(tokens1) == token_views(tokens2),
        error_views(errors1) == error_views(errors2),
{
}

} // verus!
