use vstd::prelude::*;
use crate::text::{decimal, decimal_string};

verus! {

/// A lexical unit of the input.
#[derive(Debug, Clone, PartialEq, Eq)]
pub enum Token {
    /// Any text outside of a param, or a free-text payload inside one
    Text(String),
    /// The name of a named variable
    Identifier(String),
    /// The index of a positional variable
    Index(usize),
    OpenBrace,
    CloseBrace,
    DollarSign,
    Colon,
    Dash,
    Plus,
    QuestionMark,
    PoundSign,
    ExclamationMark,
    Caret,
    Comma,
    Tilde,
}

/// What a [`Token`] stands for, with its text payloads as character sequences.
pub enum TokenView {
    Text(Seq<char>),
    Identifier(Seq<char>),
    Index(usize),
    OpenBrace,
    CloseBrace,
    DollarSign,
    Colon,
    Dash,
    Plus,
    QuestionMark,
    PoundSign,
    ExclamationMark,
    Caret,
    Comma,
    Tilde,
}

impl View for Token {
    type V = TokenView;

    open spec fn view(&self) -> TokenView {
        match self {
            Token::Text(t) => TokenView::Text(t@),
            Token::Identifier(n) => TokenView::Identifier(n@),
            Token::Index(i) => TokenView::Index(*i),
            Token::OpenBrace => TokenView::OpenBrace,
            Token::CloseBrace => TokenView::CloseBrace,
            Token::DollarSign => TokenView::DollarSign,
            Token::Colon => TokenView::Colon,
            Token::Dash => TokenView::Dash,
            Token::Plus => TokenView::Plus,
            Token::QuestionMark => TokenView::QuestionMark,
            Token::PoundSign => TokenView::PoundSign,
            Token::ExclamationMark => TokenView::ExclamationMark,
            Token::Caret => TokenView::Caret,
            Token::Comma => TokenView::Comma,
            Token::Tilde => TokenView::Tilde,
        }
    }
}

/// How a token is written in error messages: texts and names in double quotes,
/// indexes in decimal, punctuation in single quotes.
pub open spec fn describe(t: TokenView) -> Seq<char> {
    match t {
        TokenView::Text(s) => "\""@ + s + "\""@,
        TokenView::Identifier(s) => "\""@ + s + "\""@,
        TokenView::Index(i) => decimal(i as nat),
        TokenView::OpenBrace => "'{'"@,
        TokenView::CloseBrace => "'}'"@,
        TokenView::DollarSign => "'$'"@,
        TokenView::Colon => "':'"@,
        TokenView::Dash => "'-'"@,
        TokenView::Plus => "'+'"@,
        TokenView::QuestionMark => "'?'"@,
        TokenView::PoundSign => "'#'"@,
        TokenView::ExclamationMark => "'!'"@,
        TokenView::Caret => "'^'"@,
        TokenView::Comma => "','"@,
        TokenView::Tilde => "'~'"@,
    }
}

fn quoted(s: &String) -> (r: String)
    ensures
        r@ == "\""@ + s@ + "\""@,
{
    let mut r = String::from_str("\"");
    r.append(s.as_str());
    r.append("\"");
    r
}

impl Token {
    /// The token as it is written in error messages.
    pub fn describe(&self) -> (r: String)
        ensures
            r@ == describe(self@),
    {
        match self {
            Token::Text(t) => quoted(t),
            Token::Identifier(n) => quoted(n),
            Token::Index(i) => decimal_string(*i),
            Token::OpenBrace => String::from_str("'{'"),
            Token::CloseBrace => String::from_str("'}'"),
            Token::DollarSign => String::from_str("'$'"),
            Token::Colon => String::from_str("':'"),
            Token::Dash => String::from_str("'-'"),
            Token::Plus => String::from_str("'+'"),
            Token::QuestionMark => String::from_str("'?'"),
            Token::PoundSign => String::from_str("'#'"),
            Token::ExclamationMark => String::from_str("'!'"),
            Token::Caret => String::from_str("'^'"),
            Token::Comma => String::from_str("','"),
            Token::Tilde => String::from_str("'~'"),
        }
    }

    /// A copy of the token.
    pub fn duplicate(&self) -> (r: Token)
        ensures
            r@ == self@,
    {
        match self {
            Token::Text(t) => Token::Text(t.clone()),
            Token::Identifier(n) => Token::Identifier(n.clone()),
            Token::Index(i) => Token::Index(*i),
            Token::OpenBrace => Token::OpenBrace,
            Token::CloseBrace => Token::CloseBrace,
            Token::DollarSign => Token::DollarSign,
            Token::Colon => Token::Colon,
            Token::Dash => Token::Dash,
            Token::Plus => Token::Plus,
            Token::QuestionMark => Token::QuestionMark,
            Token::PoundSign => Token::PoundSign,
            Token::ExclamationMark => Token::ExclamationMark,
            Token::Caret => Token::Caret,
            Token::Comma => Token::Comma,
            Token::Tilde => Token::Tilde,
        }
    }

    /// Whether two tokens are the same, payload included.
    pub fn same_as(&self, other: &Token) -> (r: bool)
        ensures
            r == (self@ == other@),
    {
        match (self, other) {
            (Token::Text(a), Token::Text(b)) => *a == *b,
            (Token::Identifier(a), Token::Identifier(b)) => *a == *b,
            (Token::Index(a), Token::Index(b)) => *a == *b,
            (Token::OpenBrace, Token::OpenBrace) => true,
            (Token::CloseBrace, Token::CloseBrace) => true,
            (Token::DollarSign, Token::DollarSign) => true,
            (Token::Colon, Token::Colon) => true,
            (Token::Dash, Token::Dash) => true,
            (Token::Plus, Token::Plus) => true,
            (Token::QuestionMark, Token::QuestionMark) => true,
            (Token::PoundSign, Token::PoundSign) => true,
            (Token::ExclamationMark, Token::ExclamationMark) => true,
            (Token::Caret, Token::Caret) => true,
            (Token::Comma, Token::Comma) => true,
            (Token::Tilde, Token::Tilde) => true,
            _ => false,
        }
    }
}

} // verus!
