use vstd::prelude::*;

use crate::token_type::TokenType;

verus! {

/// The semantic payload a token may carry.
#[derive(Debug)]
pub enum LoxType {
    /// The raw text between the quotes of a string literal.
    Text(String),
    /// A decimal numeral: one or more digits, optionally followed by a dot and one or more
    /// digits. Integers and fractions share this one numeric form.
    Number(String),
    /// No payload: the lexeme itself carries the information.
    Nil,
}

/// The mathematical value of a `LoxType`.
pub enum Literal {
    Text(Seq<char>),
    Number(Seq<char>),
    Nil,
}

impl View for LoxType {
    type V = Literal;

    open spec fn view(&self) -> Literal {
        match self {
            LoxType::Text(s) => Literal::Text(s@),
            LoxType::Number(s) => Literal::Number(s@),
            LoxType::Nil => Literal::Nil,
        }
    }
}

/// One token: its kind, the exact source slice it was matched from, its literal value and the
/// line on which it starts.
#[derive(Debug)]
pub struct Token {
    pub ttype: TokenType,
    pub lexeme: String,
    pub literal: LoxType,
    pub line: usize,
}

/// The mathematical value of a `Token`.
pub struct TokenView {
    pub ttype: TokenType,
    pub lexeme: Seq<char>,
    pub literal: Literal,
    pub line: nat,
}

impl View for Token {
    type V = TokenView;

    open spec fn view(&self) -> TokenView {
        TokenView {
            ttype: self.ttype,
            lexeme: self.lexeme@,
            literal: self.literal@,
            line: self.line as nat,
        }
    }
}

/// The views of a sequence of tokens, in order.
pub open spec fn token_views(ts: Seq<Token>) -> Seq<TokenView> {
    ts.map_values(|t: Token| t@)
}

pub proof fn lemma_token_views_push(ts: Seq<Token>, t: Token)
    ensures
        token_views(ts.push(t)) == token_views(ts).push(t@),
{
    assert(token_views(ts.push(t)) =~= token_views(ts).push(t@));
}

impl Token {
    pub fn new(ttype: TokenType, lexeme: String, literal: LoxType, line: usize) -> (t: Self)
        ensures
            t@ == (TokenView { ttype, lexeme: lexeme@, literal: literal@, line: line as nat }),
    {
        Token { ttype, lexeme, literal, line }
    }
}

} // verus!
