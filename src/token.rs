use vstd::prelude::*;

use crate::token_type::TokenType;

verus! {

/// A classified lexeme with its optional literal value and the line it belongs to.
#[derive(Debug)]
pub struct Token {
    pub token_type: TokenType,
    pub lexeme: String,
    pub literal: Option<String>,
    pub line: usize,
}

/// The mathematical value of a token: its text as characters, its line as a number.
pub struct TokenView {
    pub kind: TokenType,
    pub lexeme: Seq<char>,
    pub literal: Option<Seq<char>>,
    pub line: nat,
}

impl View for Token {
    type V = TokenView;

    open spec fn view(&self) -> TokenView {
        TokenView {
            kind: self.token_type,
            lexeme: self.lexeme@,
            literal: match self.literal {
                Some(s) => Some(s@),
                None => None,
            },
            line: self.line as nat,
        }
    }
}

/// The views of a sequence of tokens, in order.
pub open spec fn token_views(ts: Seq<Token>) -> Seq<TokenView> {
    ts.map_values(|t: Token| t@)
}

impl Token {
    pub fn new(token_type: TokenType, lexeme: String, literal: Option<String>, line: usize) -> (t:
        Token)
        ensures
            t.token_type == token_type,
            t.lexeme == lexeme,
            t.literal == literal,
            t.line == line,
    {
        Token { token_type, lexeme, literal, line }
    }
}

} // verus!
