//! Expansion of shell-style parameter references (`$VAR`, `${VAR:-default}`, `${#VAR}`,
//! `${!VAR}`, case modifiers, positional variables) in text, in three stages: a lexer,
//! a recursive-descent parser and an evaluator.
use vstd::prelude::*;
use std::collections::HashMap;

pub mod ast;
pub mod cli;
pub mod eval;
pub mod forward_peekable;
pub mod laws;
pub mod lexer;
pub mod parser;
pub mod position;
pub mod str_read;
pub mod text;
pub mod token;

use crate::eval::{entries_of, eval_nodes, lemma_lookup_append, named_map, string_map, Evaluator, Vars};
use crate::lexer::Lexer;
use crate::parser::{parse_nodes, token_kinds, token_position, Parser};
use crate::position::Position;

verus! {

/// Why an expansion failed, and where: syntax errors point at the token they were
/// found at; evaluation errors point at the start of the input.
#[derive(Debug, Clone, PartialEq, Eq)]
pub struct Error {
    pub message: String,
    pub line: usize,
    pub col: usize,
}

/// An [`Error`] with its message as a character sequence.
pub struct Failure {
    pub message: Seq<char>,
    pub line: int,
    pub col: int,
}

impl Error {
    pub fn new(message: String, position: &Position) -> (r: Error)
        ensures
            r.message == message,
            r.line == position.line,
            r.col == position.col,
    {
        Error { message, line: position.line, col: position.col }
    }
}

/// What expanding the text `s` with the variables `vars` gives: the tokens are
/// parsed into nodes, and the nodes are evaluated in order.
pub open spec fn expansion(vars: Vars, s: Seq<char>) -> Result<Seq<char>, Failure> {
    match parse_nodes(token_kinds(s), 0) {
        Err(e) => Err(
            Failure {
                message: e.message,
                line: token_position(s, e.at).line as int,
                col: token_position(s, e.at).col as int,
            },
        ),
        Ok(nodes) => match eval_nodes(vars, nodes) {
            Ok(out) => Ok(out),
            Err(m) => Err(Failure { message: m, line: 1, col: 1 }),
        },
    }
}

/// Whether an expansion result is the exec form of `spec`.
pub open spec fn expanded_as(r: Result<String, Error>, spec: Result<Seq<char>, Failure>) -> bool {
    match spec {
        Ok(out) => r is Ok && r->Ok_0@ == out,
        Err(f) => r is Err && r->Err_0.message@ == f.message && r->Err_0.line == f.line
            && r->Err_0.col == f.col,
    }
}

/// No variables at all, and unset ones expand to nothing.
pub open spec fn no_vars() -> Vars {
    Vars { no_unset: false, positional: Seq::empty(), named: Map::empty() }
}

/// Collects the settings and the variables of an [`Xpanda`].
pub struct Builder {
    no_unset: bool,
    positional_vars: Vec<String>,
    named_vars: Vec<(String, String)>,
}

impl Builder {
    /// The variables collected so far.
    pub closed spec fn vars(&self) -> Vars {
        Vars {
            no_unset: self.no_unset,
            positional: self.positional_vars@.map_values(|s: String| s@),
            named: named_map(self.named_vars@),
        }
    }

    /// With this flag set, missing variables without any default value cause an error
    /// instead of expanding to an empty string. Off by default.
    pub fn no_unset(self, no_unset: bool) -> (r: Builder)
        ensures
            r.vars() == (Vars { no_unset, ..self.vars() }),
    {
        let mut b = self;
        b.no_unset = no_unset;
        b
    }

    /// Adds the given map's entries as named variables, overriding those of the same name.
    pub fn with_named_vars(self, vars: HashMap<String, String>) -> (r: Builder)
        ensures
            r.vars() == (Vars {
                named: self.vars().named.union_prefer_right(string_map(vars@)),
                ..self.vars()
            }),
    {
        let mut b = self;
        let ghost before = b.named_vars@;
        let mut entries = entries_of(vars);
        let ghost added = entries@;
        b.named_vars.append(&mut entries);
        proof {
            let m1 = named_map(before + added);
            let m2 = named_map(before).union_prefer_right(named_map(added));
            assert forall|k: Seq<char>| #[trigger] m1.contains_key(k) == m2.contains_key(k) by {
                lemma_lookup_append(before, added, k);
            }
            assert forall|k: Seq<char>| m1.contains_key(k) implies #[trigger] m1[k] == m2[k] by {
                lemma_lookup_append(before, added, k);
            }
            assert(m1 =~= m2);
        }
        b
    }

    /// Adds the given strings as positional variables, after those already there.
    pub fn with_positional_vars(self, vars: Vec<String>) -> (r: Builder)
        ensures
            r.vars() == (Vars {
                positional: self.vars().positional + vars@.map_values(|s: String| s@),
                ..self.vars()
            }),
    {
        let mut b = self;
        let ghost before = b.positional_vars@;
        let mut vars = vars;
        let ghost added = vars@;
        b.positional_vars.append(&mut vars);
        proof {
            assert((before + added).map_values(|s: String| s@) =~= before.map_values(|s: String| s@)
                + added.map_values(|s: String| s@));
        }
        b
    }

    /// Builds a new [`Xpanda`] over the variables collected.
    pub fn build(self) -> (r: Xpanda)
        ensures
            r.vars() == self.vars(),
    {
        Xpanda::new(self)
    }
}

impl Default for Builder {
    fn default() -> (r: Builder)
        ensures
            r.vars() == no_vars(),
    {
        let r = Builder { no_unset: false, positional_vars: Vec::new(), named_vars: Vec::new() };
        assert(r.vars().positional =~= Seq::<Seq<char>>::empty());
        assert(r.vars().named =~= Map::<Seq<char>, Seq<char>>::empty());
        r
    }
}

/// Substitutes the values of variables in texts, in the manner of `envsubst` and of
/// Bash parameter expansion.
pub struct Xpanda {
    evaluator: Evaluator,
}

impl Xpanda {
    /// The variables expansions read.
    pub closed spec fn vars(&self) -> Vars {
        self.evaluator.vars()
    }

    fn new(builder: Builder) -> (r: Xpanda)
        ensures
            r.vars() == builder.vars(),
    {
        Xpanda {
            evaluator: Evaluator::from_entries(
                builder.no_unset,
                builder.positional_vars,
                builder.named_vars,
            ),
        }
    }

    pub fn builder() -> (r: Builder)
        ensures
            r.vars() == no_vars(),
    {
        Builder::default()
    }

    /// Expands the given text by substituting the values of the variables inside it.
    /// See [`expansion`] for what that gives.
    pub fn expand(&self, input: &str) -> (r: Result<String, Error>)
        requires
            input@.len() < usize::MAX,
        ensures
            expanded_as(r, expansion(self.vars(), input@)),
    {
        let lexer = Lexer::new(input);
        let mut parser = Parser::new(lexer);
        let ast = match parser.parse() {
            Ok(ast) => ast,
            Err(e) => {
                return Err(Error { message: e.message, line: e.line, col: e.col });
            },
        };
        match self.evaluator.eval(ast) {
            Ok(text) => Ok(text),
            Err(e) => Err(Error::new(e.message, &e.position)),
        }
    }
}

impl Default for Xpanda {
    fn default() -> (r: Xpanda)
        ensures
            r.vars() == no_vars(),
    {
        Xpanda::builder().build()
    }
}

} // verus!
