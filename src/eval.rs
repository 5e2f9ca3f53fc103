use vstd::prelude::*;
use std::collections::HashMap;
use crate::ast::{Ast, Identifier, IdentifierView, Modifier, Node, NodeView, Param, ParamView};
use crate::ast::text_view;
use crate::forward_peekable::ForwardPeekable;
use crate::position::Position;
use crate::text::push_char;
use vstd::string::StrSliceExecFns;
use crate::text::{
    char_to_lower, char_to_upper, chars_of, decimal, decimal_string, is_uppercase, lower_char,
    lower_str, str_to_lower, str_to_upper, upper_char, upper_str, uppercase,
};

verus! {

/// An error met while evaluating: a variable that had to be set was not.
#[derive(Debug, Clone, PartialEq, Eq)]
pub struct Error {
    pub message: String,
    pub position: Position,
}

/// The variables that an evaluation reads.
pub struct Vars {
    /// whether a variable that is unset and has no fallback is an error
    pub no_unset: bool,
    /// `$1`, `$2`, ... in order
    pub positional: Seq<Seq<char>>,
    /// named variables by name
    pub named: Map<Seq<char>, Seq<char>>,
}

/// The value of name `k` among `entries`, where a later entry overrides an earlier one.
pub open spec fn lookup(entries: Seq<(String, String)>, k: Seq<char>) -> Option<Seq<char>>
    decreases entries.len(),
{
    if entries.len() == 0 {
        None
    } else if entries.last().0@ == k {
        Some(entries.last().1@)
    } else {
        lookup(entries.drop_last(), k)
    }
}

/// The named variables that `entries` define, a later entry overriding an earlier one.
pub open spec fn named_map(entries: Seq<(String, String)>) -> Map<Seq<char>, Seq<char>> {
    Map::new(|k: Seq<char>| lookup(entries, k) is Some, |k: Seq<char>| lookup(entries, k)->0)
}

/// The named variables of a map from names to values.
pub open spec fn string_map(m: Map<String, String>) -> Map<Seq<char>, Seq<char>> {
    Map::new(
        |k: Seq<char>| exists|s: String| m.contains_key(s) && s@ == k,
        |k: Seq<char>| m[choose|s: String| m.contains_key(s) && s@ == k]@,
    )
}

proof fn lemma_lookup_found(e: Seq<(String, String)>, i: int)
    requires
        0 <= i < e.len(),
        forall|a: int, b: int| 0 <= a < b < e.len() ==> e[a].0@ != e[b].0@,
    ensures
        lookup(e, e[i].0@) == Some(e[i].1@),
    decreases e.len(),
{
    if i < e.len() - 1 {
        assert(e.last() == e[e.len() - 1]);
        lemma_lookup_found(e.drop_last(), i);
    }
}

proof fn lemma_lookup_missing(e: Seq<(String, String)>, k: Seq<char>)
    requires
        forall|i: int| 0 <= i < e.len() ==> e[i].0@ != k,
    ensures
        lookup(e, k) is None,
    decreases e.len(),
{
    if e.len() > 0 {
        lemma_lookup_missing(e.drop_last(), k);
    }
}

/// Entries appended later override those before them.
pub proof fn lemma_lookup_append(a: Seq<(String, String)>, b: Seq<(String, String)>, k: Seq<char>)
    ensures
        lookup(a + b, k) == if lookup(b, k) is Some {
            lookup(b, k)
        } else {
            lookup(a, k)
        },
    decreases b.len(),
{
    if b.len() == 0 {
        assert(a + b =~= a);
    } else {
        assert((a + b).drop_last() =~= a + b.drop_last());
        assert((a + b).last() == b.last());
        lemma_lookup_append(a, b.drop_last(), k);
    }
}

/// The entries of a map, each once and with names told apart by their text, define
/// the same named variables as the map.
proof fn lemma_entries_map(e: Seq<(String, String)>, m: Map<String, String>)
    requires
        forall|i: int| 0 <= i < e.len() ==> m.contains_key(#[trigger] e[i].0) && m[e[i].0] == e[i].1,
        forall|k: String| #[trigger] m.contains_key(k) ==> exists|i: int| 0 <= i < e.len() && e[i].0 == k,
        forall|i: int, j: int| 0 <= i < j < e.len() ==> e[i].0@ != e[j].0@,
    ensures
        named_map(e) =~= string_map(m),
{
    assert forall|k: Seq<char>| #[trigger] named_map(e).contains_key(k) == string_map(m).contains_key(k) by {
        if exists|s: String| m.contains_key(s) && s@ == k {
            let s = choose|s: String| m.contains_key(s) && s@ == k;
            let i = choose|i: int| 0 <= i < e.len() && e[i].0 == s;
            lemma_lookup_found(e, i);
        } else {
            assert forall|i: int| 0 <= i < e.len() implies e[i].0@ != k by {
                assert(m.contains_key(e[i].0));
            }
            lemma_lookup_missing(e, k);
        }
    }
    assert forall|k: Seq<char>| #[trigger] named_map(e).contains_key(k) implies named_map(e)[k]
        == string_map(m)[k] by {
        let s = choose|s: String| m.contains_key(s) && s@ == k;
        let i = choose|i: int| 0 <= i < e.len() && e[i].0 == s;
        lemma_lookup_found(e, i);
    }
}

/// The values joined by single spaces.
pub open spec fn join_spaces(values: Seq<Seq<char>>) -> Seq<char>
    decreases values.len(),
{
    if values.len() == 0 {
        Seq::empty()
    } else if values.len() == 1 {
        values[0]
    } else {
        join_spaces(values.drop_last()) + seq![' '] + values.last()
    }
}

/// The value of a variable, if it is set. `$0` is always set: the positional
/// variables joined by spaces.
pub open spec fn resolve(vars: Vars, id: IdentifierView) -> Option<Seq<char>> {
    match id {
        IdentifierView::Named(n) => if vars.named.contains_key(n) {
            Some(vars.named[n])
        } else {
            None
        },
        IdentifierView::Indexed(i) => if i == 0 {
            Some(join_spaces(vars.positional))
        } else if i - 1 < vars.positional.len() {
            Some(vars.positional[i - 1])
        } else {
            None
        },
    }
}

/// A variable as error messages write it: its name, or its index in decimal.
pub open spec fn identifier_text(id: IdentifierView) -> Seq<char> {
    match id {
        IdentifierView::Named(n) => n,
        IdentifierView::Indexed(i) => decimal(i as nat),
    }
}

/// `'<id>' is unset`, or `'<id>' is unset or empty`.
pub open spec fn unset_message(id: IdentifierView, or_empty: bool) -> Seq<char> {
    "'"@ + identifier_text(id) + if or_empty {
        "' is unset or empty"@
    } else {
        "' is unset"@
    }
}

/// The value of a variable; an unset one is empty, or an error under `no_unset`.
pub open spec fn simple_value(vars: Vars, id: IdentifierView) -> Result<Seq<char>, Seq<char>> {
    match resolve(vars, id) {
        Some(v) => Ok(v),
        None => if vars.no_unset {
            Err(unset_message(id, false))
        } else {
            Ok(Seq::empty())
        },
    }
}

/// The value of a variable if it counts as set: with `treat_empty_as_unset`, an
/// empty value counts as unset.
pub open spec fn present(vars: Vars, id: IdentifierView, treat_empty_as_unset: bool) -> Option<
    Seq<char>,
> {
    match resolve(vars, id) {
        Some(v) => if treat_empty_as_unset && v.len() == 0 {
            None
        } else {
            Some(v)
        },
        None => None,
    }
}

/// A character with its case toggled: upper case becomes lower case, anything else
/// is put in upper case.
pub open spec fn toggle_case(c: char) -> Seq<char> {
    if uppercase(c) {
        lower_char(c)
    } else {
        upper_char(c)
    }
}

/// Every character of `s` with its case toggled.
pub open spec fn toggle_all(s: Seq<char>) -> Seq<char>
    decreases s.len(),
{
    if s.len() == 0 {
        Seq::empty()
    } else {
        toggle_all(s.drop_last()) + toggle_case(s.last())
    }
}

/// The first character of `s` replaced by `first` applied to it.
pub open spec fn with_first(s: Seq<char>, first: Seq<char>) -> Seq<char> {
    if s.len() == 0 {
        Seq::empty()
    } else {
        first + s.drop_first()
    }
}

/// A value after a case modifier.
pub open spec fn apply_modifier(m: Modifier, s: Seq<char>) -> Seq<char> {
    match m {
        Modifier::Upper { all } => if all {
            upper_str(s)
        } else {
            with_first(s, upper_char(s[0]))
        },
        Modifier::Lower { all } => if all {
            lower_str(s)
        } else {
            with_first(s, lower_char(s[0]))
        },
        Modifier::Reverse { all } => if all {
            toggle_all(s)
        } else {
            with_first(s, toggle_case(s[0]))
        },
    }
}

/// What a param expands to, or the message of the error it raises.
pub open spec fn eval_param(vars: Vars, p: ParamView) -> Result<Seq<char>, Seq<char>>
    decreases p,
{
    match p {
        ParamView::Simple { identifier, modifier } => match simple_value(vars, identifier) {
            Err(e) => Err(e),
            Ok(v) => match modifier {
                Some(m) => Ok(apply_modifier(m, v)),
                None => Ok(v),
            },
        },
        ParamView::WithDefault { identifier, default, treat_empty_as_unset } => match present(
            vars,
            identifier,
            treat_empty_as_unset,
        ) {
            Some(v) => Ok(v),
            None => eval_node(vars, *default),
        },
        ParamView::WithAlt { identifier, alt, treat_empty_as_unset } => match present(
            vars,
            identifier,
            treat_empty_as_unset,
        ) {
            Some(_) => eval_node(vars, *alt),
            None => Ok(Seq::empty()),
        },
        ParamView::WithError { identifier, error, treat_empty_as_unset } => match present(
            vars,
            identifier,
            treat_empty_as_unset,
        ) {
            Some(v) => Ok(v),
            None => match error {
                Some(m) => Err(m),
                None => Err(unset_message(identifier, treat_empty_as_unset)),
            },
        },
        ParamView::Length { identifier } => match resolve(vars, identifier) {
            Some(v) => Ok(decimal(v.len())),
            None => if vars.no_unset {
                Err(unset_message(identifier, false))
            } else {
                Ok(decimal(0))
            },
        },
        ParamView::Arity => Ok(decimal(vars.positional.len())),
        ParamView::Ref { identifier } => match simple_value(vars, identifier) {
            Err(e) => Err(e),
            Ok(name) => simple_value(vars, IdentifierView::Named(name)),
        },
    }
}

/// What a node expands to, or the message of the error it raises.
pub open spec fn eval_node(vars: Vars, n: NodeView) -> Result<Seq<char>, Seq<char>>
    decreases n,
{
    match n {
        NodeView::Text(t) => Ok(t),
        NodeView::Param(p) => eval_param(vars, p),
    }
}

/// The nodes expanded and joined, or the message of the first error among them.
pub open spec fn eval_nodes(vars: Vars, nodes: Seq<NodeView>) -> Result<Seq<char>, Seq<char>>
    decreases nodes.len(),
{
    if nodes.len() == 0 {
        Ok(Seq::empty())
    } else {
        match eval_nodes(vars, nodes.drop_last()) {
            Err(e) => Err(e),
            Ok(a) => match eval_node(vars, nodes.last()) {
                Err(e) => Err(e),
                Ok(b) => Ok(a + b),
            },
        }
    }
}

/// Relies on `HashMap::into_iter`: every entry of the map exactly once, in some order.
#[verifier::external_body]
fn map_entries(m: HashMap<String, String>) -> (r: Vec<(String, String)>)
    ensures
        forall|i: int|
            0 <= i < r@.len() ==> m@.contains_key(#[trigger] r@[i].0) && m@[r@[i].0] == r@[i].1,
        forall|k: String| #[trigger]
            m@.contains_key(k) ==> exists|i: int| 0 <= i < r@.len() && r@[i].0 == k,
        forall|i: int, j: int| 0 <= i < j < r@.len() ==> r@[i].0@ != r@[j].0@,
{
    m.into_iter().collect()
}

/// Expands trees against a fixed set of variables.
pub struct Evaluator {
    no_unset: bool,
    positional_vars: Vec<String>,
    named_vars: Vec<(String, String)>,
}

impl Evaluator {
    /// The variables this evaluator reads.
    pub closed spec fn vars(&self) -> Vars {
        Vars {
            no_unset: self.no_unset,
            positional: self.positional_vars@.map_values(|s: String| s@),
            named: named_map(self.named_vars@),
        }
    }

    pub fn new(
        no_unset: bool,
        positional_vars: Vec<String>,
        named_vars: HashMap<String, String>,
    ) -> (r: Evaluator)
        ensures
            r.vars() == (Vars {
                no_unset,
                positional: positional_vars@.map_values(|s: String| s@),
                named: string_map(named_vars@),
            }),
    {
        let entries = map_entries(named_vars);
        proof {
            lemma_entries_map(entries@, named_vars@);
        }
        Evaluator { no_unset, positional_vars, named_vars: entries }
    }

    /// An evaluator over named variables given as entries, a later entry overriding
    /// an earlier one.
    pub fn from_entries(
        no_unset: bool,
        positional_vars: Vec<String>,
        named_vars: Vec<(String, String)>,
    ) -> (r: Evaluator)
        ensures
            r.vars() == (Vars {
                no_unset,
                positional: positional_vars@.map_values(|s: String| s@),
                named: named_map(named_vars@),
            }),
    {
        Evaluator { no_unset, positional_vars, named_vars }
    }
}

impl Default for Evaluator {
    fn default() -> (r: Evaluator)
        ensures
            r.vars() == (Vars { no_unset: false, positional: Seq::empty(), named: Map::empty() }),
    {
        let r = Evaluator { no_unset: false, positional_vars: Vec::new(), named_vars: Vec::new() };
        assert(r.vars().positional =~= Seq::<Seq<char>>::empty());
        assert(r.vars().named =~= Map::<Seq<char>, Seq<char>>::empty());
        r
    }
}

/// The entries of a map of named variables, each name once.
pub fn entries_of(named_vars: HashMap<String, String>) -> (r: Vec<(String, String)>)
    ensures
        named_map(r@) == string_map(named_vars@),
        forall|i: int, j: int| 0 <= i < j < r@.len() ==> r@[i].0@ != r@[j].0@,
{
    let entries = map_entries(named_vars);
    proof {
        lemma_entries_map(entries@, named_vars@);
    }
    entries
}

/// Once a prefix of the nodes fails, so do all the nodes, with the same error.
pub proof fn lemma_eval_nodes_fails(vars: Vars, nodes: Seq<NodeView>, k: int)
    requires
        0 <= k <= nodes.len(),
        eval_nodes(vars, nodes.take(k)) is Err,
    ensures
        eval_nodes(vars, nodes) == eval_nodes(vars, nodes.take(k)),
    decreases nodes.len() - k,
{
    if k < nodes.len() {
        assert(nodes.take(k + 1).drop_last() =~= nodes.take(k));
        lemma_eval_nodes_fails(vars, nodes, k + 1);
    } else {
        assert(nodes.take(k) =~= nodes);
    }
}

/// Whether an evaluation result is the exec form of `spec`; errors carry the start
/// of the input as their position.
pub open spec fn evaluated(r: Result<String, Error>, spec: Result<Seq<char>, Seq<char>>) -> bool {
    match spec {
        Ok(v) => r is Ok && r->Ok_0@ == v,
        Err(m) => r is Err && r->Err_0.message@ == m && r->Err_0.position == Position {
            index: 0,
            line: 1,
            col: 1,
        },
    }
}

fn unset_error(message: String) -> (r: Error)
    ensures
        r.message == message,
        r.position == (Position { index: 0, line: 1, col: 1 }),
{
    Error { message, position: Position::start() }
}

fn toggle_char(c: char) -> (r: String)
    ensures
        r@ == toggle_case(c),
{
    if is_uppercase(c) {
        char_to_lower(c)
    } else {
        char_to_upper(c)
    }
}

fn toggle_every_char(value: &String) -> (r: String)
    ensures
        r@ == toggle_all(value@),
{
    let chars = chars_of(value.as_str());
    let mut r = String::new();
    let mut i: usize = 0;
    while i < chars.len()
        invariant
            chars@ == value@,
            0 <= i <= chars@.len(),
            r@ == toggle_all(chars@.take(i as int)),
        decreases chars@.len() - i,
    {
        let t = toggle_char(chars[i]);
        r.append(t.as_str());
        proof {
            assert(chars@.take(i + 1).drop_last() =~= chars@.take(i as int));
        }
        i = i + 1;
    }
    proof {
        assert(chars@.take(i as int) =~= chars@);
    }
    r
}

/// The value with its first character changed by `modifier` (whose `all` is false).
fn change_first(modifier: &Modifier, value: &String) -> (r: String)
    ensures
        r@ == with_first(
            value@,
            match *modifier {
                Modifier::Upper { .. } => upper_char(value@[0]),
                Modifier::Lower { .. } => lower_char(value@[0]),
                Modifier::Reverse { .. } => toggle_case(value@[0]),
            },
        ),
{
    let chars = chars_of(value.as_str());
    if chars.len() == 0 {
        return String::new();
    }
    let mut r = match modifier {
        Modifier::Upper { .. } => char_to_upper(chars[0]),
        Modifier::Lower { .. } => char_to_lower(chars[0]),
        Modifier::Reverse { .. } => toggle_char(chars[0]),
    };
    let ghost first = r@;
    let mut i: usize = 1;
    while i < chars.len()
        invariant
            chars@ == value@,
            1 <= i <= chars@.len(),
            r@ == first + chars@.subrange(1, i as int),
        decreases chars@.len() - i,
    {
        push_char(&mut r, chars[i]);
        i = i + 1;
        assert(r@ =~= first + chars@.subrange(1, i as int));
    }
    assert(chars@.subrange(1, i as int) =~= value@.drop_first());
    r
}

fn modified(modifier: &Modifier, value: String) -> (r: String)
    ensures
        r@ == apply_modifier(*modifier, value@),
{
    match modifier {
        Modifier::Upper { all } => if *all {
            str_to_upper(value.as_str())
        } else {
            change_first(modifier, &value)
        },
        Modifier::Lower { all } => if *all {
            str_to_lower(value.as_str())
        } else {
            change_first(modifier, &value)
        },
        Modifier::Reverse { all } => if *all {
            toggle_every_char(&value)
        } else {
            change_first(modifier, &value)
        },
    }
}

fn write_identifier(identifier: &Identifier) -> (r: String)
    ensures
        r@ == identifier_text(identifier@),
{
    match identifier {
        Identifier::Named(name) => name.clone(),
        Identifier::Indexed(index) => decimal_string(*index),
    }
}

impl Evaluator {
    fn lookup_named(&self, name: &String) -> (r: Option<String>)
        ensures
            text_view(r) == lookup(self.named_vars@, name@),
    {
        let mut i: usize = self.named_vars.len();
        assert(self.named_vars@.take(i as int) =~= self.named_vars@);
        while i > 0
            invariant
                i <= self.named_vars@.len(),
                lookup(self.named_vars@, name@) == lookup(self.named_vars@.take(i as int), name@),
            decreases i,
        {
            let entry = &self.named_vars[i - 1];
            proof {
                assert(self.named_vars@.take(i as int).drop_last() =~= self.named_vars@.take(i - 1));
            }
            if entry.0 == *name {
                return Some(entry.1.clone());
            }
            i = i - 1;
        }
        None
    }

    fn join_positional(&self) -> (r: String)
        ensures
            r@ == join_spaces(self.vars().positional),
    {
        let ghost values = self.vars().positional;
        let mut r = String::new();
        let mut i: usize = 0;
        while i < self.positional_vars.len()
            invariant
                values == self.positional_vars@.map_values(|s: String| s@),
                0 <= i <= self.positional_vars@.len(),
                r@ == join_spaces(values.take(i as int)),
            decreases self.positional_vars@.len() - i,
        {
            if i > 0 {
                push_char(&mut r, ' ');
            }
            r.append(self.positional_vars[i].as_str());
            proof {
                assert(values.take(i + 1).drop_last() =~= values.take(i as int));
                if i == 0 {
                    assert(r@ =~= values.take(1)[0]);
                } else {
                    assert(r@ =~= join_spaces(values.take(i as int)) + seq![' '] + values[i as int]);
                }
            }
            i = i + 1;
        }
        proof {
            assert(values.take(i as int) =~= values);
        }
        r
    }

    fn eval_identifier(&self, identifier: &Identifier) -> (r: Option<String>)
        ensures
            text_view(r) == resolve(self.vars(), identifier@),
    {
        match identifier {
            Identifier::Named(name) => self.lookup_named(name),
            Identifier::Indexed(index) => if *index == 0 {
                Some(self.join_positional())
            } else if *index - 1 < self.positional_vars.len() {
                Some(self.positional_vars[*index - 1].clone())
            } else {
                None
            },
        }
    }

    fn error_message(identifier: &Identifier, treat_empty_as_unset: bool) -> (r: String)
        ensures
            r@ == unset_message(identifier@, treat_empty_as_unset),
    {
        let mut m = String::from_str("'");
        m.append(write_identifier(identifier).as_str());
        if treat_empty_as_unset {
            m.append("' is unset or empty");
        } else {
            m.append("' is unset");
        }
        m
    }

    /// The value if it counts as set.
    fn present_value(&self, identifier: &Identifier, treat_empty_as_unset: bool) -> (r: Option<
        String,
    >)
        ensures
            text_view(r) == present(self.vars(), identifier@, treat_empty_as_unset),
    {
        match self.eval_identifier(identifier) {
            Some(value) => if treat_empty_as_unset && value.as_str().is_empty() {
                None
            } else {
                Some(value)
            },
            None => None,
        }
    }

    fn eval_simple_param(&self, identifier: &Identifier) -> (r: Result<String, Error>)
        ensures
            evaluated(r, simple_value(self.vars(), identifier@)),
    {
        match self.eval_identifier(identifier) {
            Some(value) => Ok(value),
            None => if self.no_unset {
                Err(unset_error(Self::error_message(identifier, false)))
            } else {
                Ok(String::new())
            },
        }
    }

    fn eval_param_with_modifier(&self, identifier: &Identifier, modifier: &Modifier) -> (r: Result<
        String,
        Error,
    >)
        ensures
            evaluated(
                r,
                match simple_value(self.vars(), identifier@) {
                    Err(e) => Err(e),
                    Ok(v) => Ok(apply_modifier(*modifier, v)),
                },
            ),
    {
        match self.eval_simple_param(identifier) {
            Err(e) => Err(e),
            Ok(value) => Ok(modified(modifier, value)),
        }
    }

    fn eval_default_param(&self, identifier: &Identifier, default: Node, treat_empty_as_unset: bool) -> (r:
        Result<String, Error>)
        ensures
            evaluated(
                r,
                match present(self.vars(), identifier@, treat_empty_as_unset) {
                    Some(v) => Ok(v),
                    None => eval_node(self.vars(), default@),
                },
            ),
        decreases default, 4nat,
    {
        match self.present_value(identifier, treat_empty_as_unset) {
            Some(value) => Ok(value),
            None => self.eval_node(default),
        }
    }

    fn eval_alt_param(&self, identifier: &Identifier, alt: Node, treat_empty_as_unset: bool) -> (r:
        Result<String, Error>)
        ensures
            evaluated(
                r,
                match present(self.vars(), identifier@, treat_empty_as_unset) {
                    Some(_) => eval_node(self.vars(), alt@),
                    None => Ok(Seq::empty()),
                },
            ),
        decreases alt, 4nat,
    {
        match self.present_value(identifier, treat_empty_as_unset) {
            Some(_) => self.eval_node(alt),
            None => Ok(String::new()),
        }
    }

    fn eval_error_param(
        &self,
        identifier: &Identifier,
        error: Option<String>,
        treat_empty_as_unset: bool,
    ) -> (r: Result<String, Error>)
        ensures
            evaluated(
                r,
                eval_param(
                    self.vars(),
                    ParamView::WithError {
                        identifier: identifier@,
                        error: text_view(error),
                        treat_empty_as_unset,
                    },
                ),
            ),
    {
        match self.present_value(identifier, treat_empty_as_unset) {
            Some(value) => Ok(value),
            None => {
                let message = match error {
                    Some(m) => m,
                    None => Self::error_message(identifier, treat_empty_as_unset),
                };
                Err(unset_error(message))
            },
        }
    }

    fn eval_length_param(&self, identifier: &Identifier) -> (r: Result<String, Error>)
        ensures
            evaluated(r, eval_param(self.vars(), ParamView::Length { identifier: identifier@ })),
    {
        match self.eval_identifier(identifier) {
            Some(value) => Ok(decimal_string(value.as_str().unicode_len())),
            None => if self.no_unset {
                Err(unset_error(Self::error_message(identifier, false)))
            } else {
                Ok(decimal_string(0))
            },
        }
    }

    fn eval_arity_param(&self) -> (r: Result<String, Error>)
        ensures
            evaluated(r, eval_param(self.vars(), ParamView::Arity)),
    {
        Ok(decimal_string(self.positional_vars.len()))
    }

    fn eval_ref_param(&self, identifier: &Identifier) -> (r: Result<String, Error>)
        ensures
            evaluated(r, eval_param(self.vars(), ParamView::Ref { identifier: identifier@ })),
    {
        match self.eval_simple_param(identifier) {
            Err(e) => Err(e),
            Ok(name) => self.eval_simple_param(&Identifier::Named(name)),
        }
    }

    fn eval_param(&self, param: Param) -> (r: Result<String, Error>)
        ensures
            evaluated(r, eval_param(self.vars(), param@)),
        decreases param, 2nat,
    {
        match param {
            Param::Simple { identifier, modifier } => match modifier {
                Some(m) => self.eval_param_with_modifier(&identifier, &m),
                None => self.eval_simple_param(&identifier),
            },
            Param::WithDefault { identifier, default, treat_empty_as_unset } => self.eval_default_param(
                &identifier,
                *default,
                treat_empty_as_unset,
            ),
            Param::WithAlt { identifier, alt, treat_empty_as_unset } => self.eval_alt_param(
                &identifier,
                *alt,
                treat_empty_as_unset,
            ),
            Param::WithError { identifier, error, treat_empty_as_unset } => self.eval_error_param(
                &identifier,
                error,
                treat_empty_as_unset,
            ),
            Param::Length { identifier } => self.eval_length_param(&identifier),
            Param::Arity => self.eval_arity_param(),
            Param::Ref { identifier } => self.eval_ref_param(&identifier),
        }
    }

    fn eval_node(&self, node: Node) -> (r: Result<String, Error>)
        ensures
            evaluated(r, eval_node(self.vars(), node@)),
        decreases node, 3nat,
    {
        match node {
            Node::Text(text) => Ok(text),
            Node::Param(param) => self.eval_param(param),
        }
    }

    /// Expands every node of the tree in order and joins the results; the first
    /// error ends the evaluation.
    pub fn eval(&self, ast: Ast) -> (r: Result<String, Error>)
        ensures
            evaluated(r, eval_nodes(self.vars(), ast@)),
    {
        let ghost nodes = ast@;
        let mut rest = ForwardPeekable::new(ast.nodes);
        let mut result = String::new();
        let ghost done: int = 0;
        proof {
            assert(nodes.take(0) =~= Seq::<NodeView>::empty());
        }
        loop
            invariant
                nodes == ast@,
                0 <= done <= nodes.len(),
                rest@.len() == nodes.len() - done,
                forall|j: int| 0 <= j < rest@.len() ==> #[trigger] rest@[j]@ == nodes[done + j],
                eval_nodes(self.vars(), nodes.take(done)) == Ok::<Seq<char>, Seq<char>>(result@),
            decreases rest@.len(),
        {
            let ghost old_rest = rest@;
            match rest.next() {
                None => {
                    proof {
                        assert(done == nodes.len());
                        assert(nodes.take(done) =~= nodes);
                    }
                    return Ok(result);
                },
                Some(node) => {
                    let ghost before = old_rest;
                    proof {
                        assert(nodes.take(done + 1).drop_last() =~= nodes.take(done));
                        assert(nodes.take(done + 1).last() == node@);
                    }
                    match self.eval_node(node) {
                        Err(e) => {
                            proof {
                                lemma_eval_nodes_fails(self.vars(), nodes, done + 1);
                            }
                            return Err(e);
                        },
                        Ok(text) => {
                            result.append(text.as_str());
                        },
                    }
                    proof {
                        done = done + 1;
                        assert forall|j: int| 0 <= j < rest@.len() implies #[trigger] rest@[j]@
                            == nodes[done + j] by {
                            assert(rest@[j] == before[j + 1]);
                        }
                    }
                },
            }
        }
    }
}

} // verus!
