//! The token model: the closed set of token kinds, and the token value.

use vstd::prelude::*;

verus! {

/// The kind of a token.
#[allow(non_camel_case_types)]
#[derive(Debug, Clone, Copy, PartialEq, Eq, Structural)]
pub enum TokenType {
    /// A byte that begins no token of the language.
    ILLEGAL,
    /// The end of the input.
    EOF,
    /// A name.
    IDENT,
    /// A number.
    INT,
    /// `=`
    ASSIGN,
    /// `+`
    PLUS,
    /// `,`
    COMMA,
    /// `;`
    SEMICOLON,
    /// `(`
    LPAREN,
    /// `)`
    RPAREN,
    /// `{`
    LBRACE,
    /// `}`
    RBRACE,
    /// The keyword `fn`.
    FUNCTION,
    /// The keyword `let`.
    LET,
}

/// What a token is, as a mathematical value: its kind and the characters of
/// its literal.
pub ghost struct TokenView {
    pub kind: TokenType,
    pub literal: Seq<char>,
}

/// A token: a kind together with the source text it was made from.
#[derive(Debug)]
pub struct Token {
    ttype: TokenType,
    literal: String,
}

impl View for Token {
    type V = TokenView;

    closed spec fn view(&self) -> TokenView {
        TokenView { kind: self.ttype, literal: self.literal@ }
    }
}

/// What the given tokens are, as mathematical values, in the same order.
pub open spec fn views(tokens: Seq<Token>) -> Seq<TokenView> {
    tokens.map_values(|t: Token| t@)
}

impl Token {
    /// Makes a token of the given kind whose literal is a copy of `literal`.
    /// The literal is not checked against the kind.
    pub fn new(ttype: TokenType, literal: &str) -> (token: Self)
        ensures
            token@ == (TokenView { kind: ttype, literal: literal@ }),
    {
        Token { ttype, literal: literal.to_owned() }
    }
}

impl PartialEq for Token {
    /// Two tokens are equal when their kinds are equal and their literals
    /// hold the same characters.
    fn eq(&self, other: &Self) -> (equal: bool) {
        self.ttype == other.ttype && self.literal == other.literal
    }
}

impl vstd::std_specs::cmp::PartialEqSpecImpl for Token {
    open spec fn obeys_eq_spec() -> bool {
        true
    }

    open spec fn eq_spec(&self, other: &Self) -> bool {
        self@ == other@
    }
}

} // verus!
