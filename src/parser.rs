use vstd::prelude::*;
use crate::ast::{Ast, Identifier, IdentifierView, Modifier, Node, NodeView, Param, ParamView};
use crate::lexer::{tokens, tokens_end, Lexer};
use crate::position::{position_at, Position};
use crate::token::{describe, Token, TokenView};

verus! {

/// A syntax error, with the line and column where it was found.
#[derive(Debug, Clone, PartialEq, Eq)]
pub struct Error {
    pub message: String,
    pub line: usize,
    pub col: usize,
}

/// A syntax error in terms of the token sequence: its message and the index of the
/// token where it was found (the number of tokens, for the end of the input).
pub struct SyntaxError {
    pub message: Seq<char>,
    pub at: int,
}

pub open spec fn fail<T>(message: Seq<char>, at: int) -> Result<T, SyntaxError> {
    Err(SyntaxError { message, at })
}

/// The token at index `i`, if there is one.
pub open spec fn tok_at(toks: Seq<TokenView>, i: int) -> Option<TokenView> {
    if 0 <= i < toks.len() {
        Some(toks[i])
    } else {
        None
    }
}

/// The tokens of an input, without their places.
pub open spec fn token_kinds(s: Seq<char>) -> Seq<TokenView> {
    tokens(s).map_values(|t: (TokenView, int)| t.0)
}

/// Where the token at index `at` starts; for the end of the tokens, where the lexer
/// stopped.
pub open spec fn token_position(s: Seq<char>, at: int) -> Position {
    if 0 <= at < tokens(s).len() {
        position_at(s, tokens(s)[at].1)
    } else {
        position_at(s, tokens_end(s))
    }
}

/// Consumes the token `expected` at index `i`.
pub open spec fn expect(toks: Seq<TokenView>, i: int, expected: TokenView) -> Result<
    int,
    SyntaxError,
> {
    match tok_at(toks, i) {
        Some(t) => if t == expected {
            Ok(i + 1)
        } else {
            fail("Expected "@ + describe(expected) + ", found "@ + describe(t), i)
        },
        None => fail("Expected "@ + describe(expected) + ", found EOF"@, i),
    }
}

/// A name or an index.
pub open spec fn parse_identifier(toks: Seq<TokenView>, i: int) -> Result<
    (IdentifierView, int),
    SyntaxError,
> {
    match tok_at(toks, i) {
        Some(TokenView::Identifier(n)) => Ok((IdentifierView::Named(n), i + 1)),
        Some(TokenView::Index(n)) => Ok((IdentifierView::Indexed(n), i + 1)),
        Some(t) => fail("Expected identifier, found "@ + describe(t), i),
        None => fail("Expected identifier, found EOF"@, i),
    }
}

/// `#` followed by `}` (the number of positional variables) or by an identifier and
/// `}` (the length of a value).
pub open spec fn parse_len_or_arity(toks: Seq<TokenView>, i: int) -> Result<
    (ParamView, int),
    SyntaxError,
> {
    match expect(toks, i, TokenView::PoundSign) {
        Err(e) => Err(e),
        Ok(j) => match tok_at(toks, j) {
            Some(TokenView::CloseBrace) => Ok((ParamView::Arity, j + 1)),
            Some(_) => match parse_identifier(toks, j) {
                Err(e) => Err(e),
                Ok((identifier, k)) => match expect(toks, k, TokenView::CloseBrace) {
                    Err(e) => Err(e),
                    Ok(m) => Ok((ParamView::Length { identifier }, m)),
                },
            },
            None => fail("Expected identifier or close brace, found EOF"@, j),
        },
    }
}

/// `!`, an identifier and `}`: an indirect reference.
pub open spec fn parse_ref(toks: Seq<TokenView>, i: int) -> Result<(ParamView, int), SyntaxError> {
    match expect(toks, i, TokenView::ExclamationMark) {
        Err(e) => Err(e),
        Ok(j) => match parse_identifier(toks, j) {
            Err(e) => Err(e),
            Ok((identifier, k)) => match expect(toks, k, TokenView::CloseBrace) {
                Err(e) => Err(e),
                Ok(m) => Ok((ParamView::Ref { identifier }, m)),
            },
        },
    }
}

/// A case modifier whose first token has been read at index `j - 1`: a doubled token
/// applies it to the whole value. Then the closing brace.
pub open spec fn parse_modifier(
    toks: Seq<TokenView>,
    j: int,
    identifier: IdentifierView,
    mark: TokenView,
) -> Result<(ParamView, int), SyntaxError> {
    let all = tok_at(toks, j) == Some(mark);
    let k = if all {
        j + 1
    } else {
        j
    };
    let modifier = match mark {
        TokenView::Caret => Modifier::Upper { all },
        TokenView::Comma => Modifier::Lower { all },
        _ => Modifier::Reverse { all },
    };
    match expect(toks, k, TokenView::CloseBrace) {
        Err(e) => Err(e),
        Ok(m) => Ok((ParamView::Simple { identifier, modifier: Some(modifier) }, m)),
    }
}

/// An identifier, then an optional `:` and one of `-`, `+`, `?` with what follows,
/// or a case modifier, or nothing; then `}`.
pub open spec fn parse_other(toks: Seq<TokenView>, i: int) -> Result<(ParamView, int), SyntaxError>
    decreases toks.len() - i, 0nat,
{
    match parse_identifier(toks, i) {
        Err(e) => Err(e),
        Ok((identifier, i1)) => {
            let colon = tok_at(toks, i1) == Some(TokenView::Colon);
            let j = if colon {
                i1 + 1
            } else {
                i1
            };
            match tok_at(toks, j) {
                Some(TokenView::Dash) => if i < j + 1 <= toks.len() {
                    match parse_node(toks, j + 1) {
                        Err(e) => Err(e),
                        Ok((default, k)) => match expect(toks, k, TokenView::CloseBrace) {
                            Err(e) => Err(e),
                            Ok(m) => Ok(
                                (
                                    ParamView::WithDefault {
                                        identifier,
                                        default: Box::new(default),
                                        treat_empty_as_unset: colon,
                                    },
                                    m,
                                ),
                            ),
                        },
                    }
                } else {
                    // never taken: a token stands at `j`, after the one at `i`
                    fail(Seq::empty(), j)
                },
                Some(TokenView::Plus) => if i < j + 1 <= toks.len() {
                    match parse_node(toks, j + 1) {
                        Err(e) => Err(e),
                        Ok((alt, k)) => match expect(toks, k, TokenView::CloseBrace) {
                            Err(e) => Err(e),
                            Ok(m) => Ok(
                                (
                                    ParamView::WithAlt {
                                        identifier,
                                        alt: Box::new(alt),
                                        treat_empty_as_unset: colon,
                                    },
                                    m,
                                ),
                            ),
                        },
                    }
                } else {
                    // never taken: a token stands at `j`, after the one at `i`
                    fail(Seq::empty(), j)
                },
                Some(TokenView::QuestionMark) => {
                    let (error, k) = match tok_at(toks, j + 1) {
                        Some(TokenView::Text(t)) => (Some(t), j + 2),
                        _ => (None, j + 1),
                    };
                    match expect(toks, k, TokenView::CloseBrace) {
                        Err(e) => Err(e),
                        Ok(m) => Ok(
                            (
                                ParamView::WithError {
                                    identifier,
                                    error,
                                    treat_empty_as_unset: colon,
                                },
                                m,
                            ),
                        ),
                    }
                },
                Some(TokenView::CloseBrace) if !colon => Ok(
                    (ParamView::Simple { identifier, modifier: None }, j + 1),
                ),
                Some(TokenView::Caret) if !colon => parse_modifier(
                    toks,
                    j + 1,
                    identifier,
                    TokenView::Caret,
                ),
                Some(TokenView::Comma) if !colon => parse_modifier(
                    toks,
                    j + 1,
                    identifier,
                    TokenView::Comma,
                ),
                Some(TokenView::Tilde) if !colon => parse_modifier(
                    toks,
                    j + 1,
                    identifier,
                    TokenView::Tilde,
                ),
                Some(t) => fail("Invalid param, unexpected token "@ + describe(t), j),
                None => fail("Invalid param, unexpected EOF"@, j),
            }
        },
    }
}

/// What follows a `$`: a braced param, or a bare identifier.
pub open spec fn parse_param(toks: Seq<TokenView>, i: int) -> Result<(ParamView, int), SyntaxError>
    decreases toks.len() - i, 1nat,
{
    match tok_at(toks, i) {
        Some(TokenView::OpenBrace) => match tok_at(toks, i + 1) {
            Some(TokenView::PoundSign) => parse_len_or_arity(toks, i + 1),
            Some(TokenView::ExclamationMark) => parse_ref(toks, i + 1),
            Some(_) => parse_other(toks, i + 1),
            None => fail("Expected param, found EOF"@, i + 1),
        },
        _ => match parse_identifier(toks, i) {
            Err(e) => Err(e),
            Ok((identifier, j)) => Ok((ParamView::Simple { identifier, modifier: None }, j)),
        },
    }
}

/// A text token, or `$` and a param.
pub open spec fn parse_node(toks: Seq<TokenView>, i: int) -> Result<(NodeView, int), SyntaxError>
    decreases toks.len() - i, 2nat,
{
    match tok_at(toks, i) {
        Some(TokenView::Text(t)) => Ok((NodeView::Text(t), i + 1)),
        Some(TokenView::DollarSign) => match parse_param(toks, i + 1) {
            Err(e) => Err(e),
            Ok((p, j)) => Ok((NodeView::Param(p), j)),
        },
        Some(t) => fail("Unexpected token "@ + describe(t), i),
        None => fail("Unexpected EOF"@, i),
    }
}

/// Nodes from index `i` up to the end of the tokens.
pub open spec fn parse_nodes(toks: Seq<TokenView>, i: int) -> Result<Seq<NodeView>, SyntaxError>
    decreases toks.len() - i,
{
    if i < 0 || i >= toks.len() {
        Ok(Seq::empty())
    } else {
        match parse_node(toks, i) {
            Err(e) => Err(e),
            Ok((n, j)) => if i < j <= toks.len() {
                match parse_nodes(toks, j) {
                    Err(e) => Err(e),
                    Ok(rest) => Ok(seq![n] + rest),
                }
            } else {
                // never taken: a node takes at least one token
                Ok(seq![n])
            },
        }
    }
}

/// Whether an error says `e`, at the place where the token it names starts.
pub open spec fn reports(err: Error, s: Seq<char>, e: SyntaxError) -> bool {
    &&& err.message@ == e.message
    &&& err.line == token_position(s, e.at).line
    &&& err.col == token_position(s, e.at).col
}

/// Whether a parse result is the exec form of the spec result `spec`, with the
/// parser left at the index that `spec` gives.
pub open spec fn parsed_as<T: View>(
    r: Result<T, Error>,
    s: Seq<char>,
    spec: Result<(T::V, int), SyntaxError>,
    idx: int,
) -> bool {
    match spec {
        Ok((v, j)) => r is Ok && r->Ok_0@ == v && idx == j,
        Err(e) => r is Err && reports(r->Err_0, s, e),
    }
}

/// Builds the tree of an input from its tokens, by recursive descent with one token
/// of lookahead.
pub struct Parser {
    lexer: Lexer,
    peeked: Option<Option<Token>>,
    last_position: Position,
}

impl Parser {
    pub closed spec fn input(&self) -> Seq<char> {
        self.lexer.input()
    }

    /// How many tokens the parser has consumed.
    pub closed spec fn idx(&self) -> int {
        match self.peeked {
            Some(Some(_)) => self.lexer.count() - 1,
            _ => self.lexer.count(),
        }
    }

    pub closed spec fn wf(&self) -> bool {
        let s = self.lexer.input();
        &&& self.lexer.wf()
        &&& match self.peeked {
            Some(Some(t)) => {
                &&& 1 <= self.lexer.count()
                &&& t@ == token_kinds(s)[self.lexer.count() - 1]
            },
            Some(None) => self.lexer.count() == tokens(s).len() && self.lexer.finished(),
            None => true,
        }
        &&& self.peeked is Some ==> self.last_position == token_position(s, self.idx())
    }

    /// Where the token looked at last starts.
    pub closed spec fn looked_at(&self) -> Position {
        self.last_position
    }

    pub fn new(lexer: Lexer) -> (r: Parser)
        requires
            lexer.wf(),
        ensures
            r.wf(),
            r.input() == lexer.input(),
            r.idx() == lexer.count(),
    {
        Parser {
            lexer,
            peeked: None,
            last_position: Position::start(),
        }
    }
}

fn error_message(prefix: &str, t: &Token) -> (r: String)
    ensures
        r@ == prefix@ + describe(t@),
{
    let mut m = String::from_str(prefix);
    m.append(t.describe().as_str());
    m
}

fn expected_message(expected: &Token, found: &str) -> (r: String)
    ensures
        r@ == "Expected "@ + describe(expected@) + ", found "@ + found@,
{
    let mut m = String::from_str("Expected ");
    m.append(expected.describe().as_str());
    m.append(", found ");
    m.append(found);
    m
}

impl Parser {
    proof fn lemma_idx(&self)
        requires
            self.wf(),
        ensures
            0 <= self.idx() <= token_kinds(self.input()).len(),
            token_kinds(self.input()).len() == tokens(self.input()).len(),
            0 <= self.lexer.count() <= tokens(self.input()).len(),
            self.peeked matches Some(Some(_)) ==> self.idx() < tokens(self.input()).len(),
    {
        self.lexer.lemma_count();
    }

    fn create_error(&self, message: String) -> (r: Error)
        ensures
            r.message@ == message@,
            r.line == self.looked_at().line,
            r.col == self.looked_at().col,
    {
        Error { message, line: self.last_position.line, col: self.last_position.col }
    }

    /// Makes sure the next token sits in the lookahead.
    fn peek_token(&mut self)
        requires
            old(self).wf(),
        ensures
            final(self).wf(),
            final(self).input() == old(self).input(),
            final(self).idx() == old(self).idx(),
            final(self).peeked is Some,
            token_option(final(self).peeked->0) == tok_at(token_kinds(final(self).input()), final(self).idx()),
            final(self).looked_at() == token_position(final(self).input(), final(self).idx()),
    {
        proof {
            self.lemma_idx();
        }
        if self.peeked.is_none() {
            match self.lexer.next_token() {
                Some((t, p)) => {
                    self.last_position = p;
                    self.peeked = Some(Some(t));
                },
                None => {
                    self.last_position = self.lexer.position();
                    self.peeked = Some(None);
                },
            }
        }
    }

    /// Takes the next token.
    fn next_token(&mut self) -> (r: Option<Token>)
        requires
            old(self).wf(),
        ensures
            final(self).wf(),
            final(self).input() == old(self).input(),
            token_option(r) == tok_at(token_kinds(old(self).input()), old(self).idx()),
            final(self).idx() == if r is Some {
                old(self).idx() + 1
            } else {
                old(self).idx()
            },
            final(self).looked_at() == token_position(old(self).input(), old(self).idx()),
    {
        proof {
            self.lemma_idx();
        }
        match self.peeked.take() {
            Some(t) => t,
            None => match self.lexer.next_token() {
                Some((t, p)) => {
                    self.last_position = p;
                    Some(t)
                },
                None => {
                    self.last_position = self.lexer.position();
                    None
                },
            },
        }
    }

    fn skip_token(&mut self)
        requires
            old(self).wf(),
        ensures
            final(self).wf(),
            final(self).input() == old(self).input(),
            final(self).idx() == if old(self).idx() < tokens(old(self).input()).len() {
                old(self).idx() + 1
            } else {
                old(self).idx()
            },
    {
        proof {
            self.lemma_idx();
        }
        self.next_token();
    }

    fn expect_token(&mut self, expected: &Token) -> (r: Result<(), Error>)
        requires
            old(self).wf(),
        ensures
            final(self).wf(),
            final(self).input() == old(self).input(),
            old(self).idx() <= final(self).idx(),
            match expect(token_kinds(old(self).input()), old(self).idx(), expected@) {
                Ok(j) => r is Ok && final(self).idx() == j,
                Err(e) => r is Err && reports(r->Err_0, old(self).input(), e),
            },
    {
        match self.next_token() {
            Some(t) => if t.same_as(expected) {
                Ok(())
            } else {
                let m = expected_message(expected, t.describe().as_str());
                Err(self.create_error(m))
            },
            None => {
                let m = expected_message(expected, "EOF");
                proof {
                    reveal_strlit(", found ");
                    reveal_strlit("EOF");
                    reveal_strlit(", found EOF");
                    assert(m@ =~= "Expected "@ + describe(expected@) + ", found EOF"@);
                }
                Err(self.create_error(m))
            },
        }
    }

    fn parse_identifier(&mut self) -> (r: Result<Identifier, Error>)
        requires
            old(self).wf(),
        ensures
            final(self).wf(),
            final(self).input() == old(self).input(),
            old(self).idx() <= final(self).idx(),
            parsed_as(
                r,
                old(self).input(),
                parse_identifier(token_kinds(old(self).input()), old(self).idx()),
                final(self).idx(),
            ),
    {
        match self.next_token() {
            Some(Token::Identifier(name)) => Ok(Identifier::Named(name)),
            Some(Token::Index(index)) => Ok(Identifier::Indexed(index)),
            Some(t) => Err(self.create_error(error_message("Expected identifier, found ", &t))),
            None => Err(self.create_error(String::from_str("Expected identifier, found EOF"))),
        }
    }
}

impl Parser {
    /// The text of the next token, taken, when it is a text token.
    fn parse_text(&mut self) -> (r: Option<String>)
        requires
            old(self).wf(),
        ensures
            final(self).wf(),
            final(self).input() == old(self).input(),
            old(self).idx() <= final(self).idx(),
            final(self).idx() <= old(self).idx() + 1,
            match tok_at(token_kinds(old(self).input()), old(self).idx()) {
                Some(TokenView::Text(t)) => r is Some && r->0@ == t && final(self).idx() == old(
                    self,
                ).idx() + 1,
                _ => r is None,
            },
    {
        match self.next_token() {
            Some(Token::Text(text)) => Some(text),
            _ => None,
        }
    }

    fn parse_node(&mut self) -> (r: Result<Node, Error>)
        requires
            old(self).wf(),
        ensures
            final(self).wf(),
            final(self).input() == old(self).input(),
            old(self).idx() <= final(self).idx(),
            r is Ok ==> old(self).idx() < final(self).idx(),
            parsed_as(
                r,
                old(self).input(),
                parse_node(token_kinds(old(self).input()), old(self).idx()),
                final(self).idx(),
            ),
        decreases tokens(old(self).input()).len() - old(self).idx(), 2nat,
    {
        proof {
            self.lemma_idx();
        }
        self.peek_token();
        if matches!(self.peeked, Some(Some(Token::Text(_)))) {
            match self.parse_text() {
                Some(text) => Ok(Node::Text(text)),
                None => {
                    proof {
                        assert(false);
                    }
                    Ok(Node::Text(String::new()))
                },
            }
        } else if matches!(self.peeked, Some(Some(Token::DollarSign))) {
            self.skip_token();
            match self.parse_param() {
                Ok(param) => Ok(Node::Param(param)),
                Err(e) => Err(e),
            }
        } else {
            let message = match &self.peeked {
                Some(Some(t)) => error_message("Unexpected token ", t),
                _ => String::from_str("Unexpected EOF"),
            };
            Err(self.create_error(message))
        }
    }

    fn parse_param(&mut self) -> (r: Result<Param, Error>)
        requires
            old(self).wf(),
        ensures
            final(self).wf(),
            final(self).input() == old(self).input(),
            old(self).idx() <= final(self).idx(),
            parsed_as(
                r,
                old(self).input(),
                parse_param(token_kinds(old(self).input()), old(self).idx()),
                final(self).idx(),
            ),
        decreases tokens(old(self).input()).len() - old(self).idx(), 1nat,
    {
        proof {
            self.lemma_idx();
        }
        self.peek_token();
        if matches!(self.peeked, Some(Some(Token::OpenBrace))) {
            self.skip_token();
            self.peek_token();
            if matches!(self.peeked, Some(Some(Token::PoundSign))) {
                self.parse_len_or_arity_param()
            } else if matches!(self.peeked, Some(Some(Token::ExclamationMark))) {
                self.parse_ref_param()
            } else if matches!(self.peeked, Some(Some(_))) {
                self.parse_other_param()
            } else {
                Err(self.create_error(String::from_str("Expected param, found EOF")))
            }
        } else {
            self.parse_simple_param()
        }
    }

    fn parse_len_or_arity_param(&mut self) -> (r: Result<Param, Error>)
        requires
            old(self).wf(),
        ensures
            final(self).wf(),
            final(self).input() == old(self).input(),
            old(self).idx() <= final(self).idx(),
            parsed_as(
                r,
                old(self).input(),
                parse_len_or_arity(token_kinds(old(self).input()), old(self).idx()),
                final(self).idx(),
            ),
    {
        match self.expect_token(&Token::PoundSign) {
            Err(e) => {
                return Err(e);
            },
            Ok(()) => {},
        }
        self.peek_token();
        if matches!(self.peeked, Some(Some(Token::CloseBrace))) {
            self.skip_token();
            Ok(Param::Arity)
        } else if matches!(self.peeked, Some(Some(_))) {
            let identifier = match self.parse_identifier() {
                Err(e) => {
                    return Err(e);
                },
                Ok(identifier) => identifier,
            };
            match self.expect_token(&Token::CloseBrace) {
                Err(e) => Err(e),
                Ok(()) => Ok(Param::Length { identifier }),
            }
        } else {
            Err(
                self.create_error(
                    String::from_str("Expected identifier or close brace, found EOF"),
                ),
            )
        }
    }

    fn parse_ref_param(&mut self) -> (r: Result<Param, Error>)
        requires
            old(self).wf(),
        ensures
            final(self).wf(),
            final(self).input() == old(self).input(),
            old(self).idx() <= final(self).idx(),
            parsed_as(
                r,
                old(self).input(),
                parse_ref(token_kinds(old(self).input()), old(self).idx()),
                final(self).idx(),
            ),
    {
        match self.expect_token(&Token::ExclamationMark) {
            Err(e) => {
                return Err(e);
            },
            Ok(()) => {},
        }
        let identifier = match self.parse_identifier() {
            Err(e) => {
                return Err(e);
            },
            Ok(identifier) => identifier,
        };
        match self.expect_token(&Token::CloseBrace) {
            Err(e) => Err(e),
            Ok(()) => Ok(Param::Ref { identifier }),
        }
    }

    fn parse_modifier(&mut self, identifier: Identifier, mark: Token) -> (r: Result<Param, Error>)
        requires
            old(self).wf(),
        ensures
            final(self).wf(),
            final(self).input() == old(self).input(),
            old(self).idx() <= final(self).idx(),
            parsed_as(
                r,
                old(self).input(),
                parse_modifier(token_kinds(old(self).input()), old(self).idx(), identifier@, mark@),
                final(self).idx(),
            ),
    {
        self.peek_token();
        let all = match &self.peeked {
            Some(Some(t)) => t.same_as(&mark),
            _ => false,
        };
        if all {
            self.skip_token();
        }
        match self.expect_token(&Token::CloseBrace) {
            Err(e) => Err(e),
            Ok(()) => {
                let modifier = match mark {
                    Token::Caret => Modifier::Upper { all },
                    Token::Comma => Modifier::Lower { all },
                    _ => Modifier::Reverse { all },
                };
                Ok(Param::Simple { identifier, modifier: Some(modifier) })
            },
        }
    }

    fn parse_other_param(&mut self) -> (r: Result<Param, Error>)
        requires
            old(self).wf(),
        ensures
            final(self).wf(),
            final(self).input() == old(self).input(),
            old(self).idx() <= final(self).idx(),
            parsed_as(
                r,
                old(self).input(),
                parse_other(token_kinds(old(self).input()), old(self).idx()),
                final(self).idx(),
            ),
        decreases tokens(old(self).input()).len() - old(self).idx(), 0nat,
    {
        let ghost s = self.input();
        let ghost toks = token_kinds(s);
        let ghost i = self.idx();
        let identifier = match self.parse_identifier() {
            Err(e) => {
                return Err(e);
            },
            Ok(identifier) => identifier,
        };
        let mut treat_empty_as_unset = false;
        let mut token = self.next_token();
        if matches!(token, Some(Token::Colon)) {
            treat_empty_as_unset = true;
            token = self.next_token();
        }
        proof {
            self.lemma_idx();
        }
        let is_operator = matches!(
            token,
            Some(Token::Dash) | Some(Token::Plus) | Some(Token::QuestionMark)
        );
        if treat_empty_as_unset && !is_operator {
            let message = match &token {
                Some(t) => error_message("Invalid param, unexpected token ", t),
                None => String::from_str("Invalid param, unexpected EOF"),
            };
            return Err(self.create_error(message));
        }
        match token {
            Some(Token::Dash) => {
                let default = match self.parse_node() {
                    Err(e) => {
                        return Err(e);
                    },
                    Ok(node) => node,
                };
                match self.expect_token(&Token::CloseBrace) {
                    Err(e) => Err(e),
                    Ok(()) => Ok(
                        Param::WithDefault {
                            identifier,
                            default: Box::new(default),
                            treat_empty_as_unset,
                        },
                    ),
                }
            },
            Some(Token::Plus) => {
                let alt = match self.parse_node() {
                    Err(e) => {
                        return Err(e);
                    },
                    Ok(node) => node,
                };
                match self.expect_token(&Token::CloseBrace) {
                    Err(e) => Err(e),
                    Ok(()) => Ok(
                        Param::WithAlt { identifier, alt: Box::new(alt), treat_empty_as_unset },
                    ),
                }
            },
            Some(Token::QuestionMark) => {
                self.peek_token();
                let error = if matches!(self.peeked, Some(Some(Token::Text(_)))) {
                    self.parse_text()
                } else {
                    None
                };
                match self.expect_token(&Token::CloseBrace) {
                    Err(e) => Err(e),
                    Ok(()) => Ok(Param::WithError { identifier, error, treat_empty_as_unset }),
                }
            },
            Some(Token::CloseBrace) => Ok(
                Param::Simple { identifier, modifier: None },
            ),
            Some(Token::Caret) => self.parse_modifier(
                identifier,
                Token::Caret,
            ),
            Some(Token::Comma) => self.parse_modifier(
                identifier,
                Token::Comma,
            ),
            Some(Token::Tilde) => self.parse_modifier(
                identifier,
                Token::Tilde,
            ),
            Some(t) => Err(self.create_error(error_message("Invalid param, unexpected token ", &t))),
            None => Err(self.create_error(String::from_str("Invalid param, unexpected EOF"))),
        }
    }

    fn parse_simple_param(&mut self) -> (r: Result<Param, Error>)
        requires
            old(self).wf(),
        ensures
            final(self).wf(),
            final(self).input() == old(self).input(),
            old(self).idx() <= final(self).idx(),
            match parse_identifier(token_kinds(old(self).input()), old(self).idx()) {
                Ok((identifier, j)) => r is Ok && r->Ok_0@ == (ParamView::Simple {
                    identifier,
                    modifier: None,
                }) && final(self).idx() == j,
                Err(e) => r is Err && reports(r->Err_0, old(self).input(), e),
            },
    {
        match self.parse_identifier() {
            Err(e) => Err(e),
            Ok(identifier) => Ok(Param::Simple { identifier, modifier: None }),
        }
    }

    /// Parses every node up to the end of the input.
    pub fn parse(&mut self) -> (r: Result<Ast, Error>)
        requires
            old(self).wf(),
        ensures
            final(self).wf(),
            final(self).input() == old(self).input(),
            match parse_nodes(token_kinds(old(self).input()), old(self).idx()) {
                Ok(nodes) => r is Ok && r->Ok_0@ == nodes,
                Err(e) => r is Err && reports(r->Err_0, old(self).input(), e),
            },
    {
        let ghost s = self.input();
        let ghost toks = token_kinds(s);
        let ghost i0 = self.idx();
        let mut nodes: Vec<Node> = Vec::new();
        proof {
            self.lemma_idx();
            assert(nodes@.map_values(|n: Node| n@) =~= Seq::<NodeView>::empty());
        }
        loop
            invariant
                self.wf(),
                self.input() == s,
                s == old(self).input(),
                toks == token_kinds(s),
                i0 == old(self).idx(),
                0 <= self.idx() <= toks.len(),
                match parse_nodes(toks, self.idx()) {
                    Ok(rest) => parse_nodes(toks, i0) == Ok::<Seq<NodeView>, SyntaxError>(
                        nodes@.map_values(|n: Node| n@) + rest,
                    ),
                    Err(e) => parse_nodes(toks, i0) == Err::<Seq<NodeView>, SyntaxError>(e),
                },
            decreases toks.len() - self.idx(),
        {
            self.peek_token();
            if matches!(self.peeked, Some(None)) {
                proof {
                    assert(nodes@.map_values(|n: Node| n@) + Seq::<NodeView>::empty() =~= nodes@.map_values(
                        |n: Node| n@,
                    ));
                }
                return Ok(Ast::new(nodes));
            }
            let ghost i = self.idx();
            match self.parse_node() {
                Err(e) => {
                    return Err(e);
                },
                Ok(node) => {
                    proof {
                        self.lemma_idx();
                    }
                    let ghost before = nodes@.map_values(|n: Node| n@);
                    nodes.push(node);
                    proof {
                        assert(nodes@.map_values(|n: Node| n@) =~= before.push(node@));
                        match parse_nodes(toks, self.idx()) {
                            Ok(rest) => {
                                assert(before + (seq![node@] + rest) =~= before.push(node@) + rest);
                            },
                            Err(e) => {},
                        }
                    }
                },
            }
        }
    }
}

pub open spec fn token_option(t: Option<Token>) -> Option<TokenView> {
    match t {
        Some(t) => Some(t@),
        None => None,
    }
}

} // verus!
