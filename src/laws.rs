use vstd::prelude::*;
use crate::ast::{IdentifierView, NodeView, ParamView};
use crate::eval::{eval_node, eval_nodes, eval_param, join_spaces, simple_value, Vars};
use crate::lexer::{
    collapse_dollars, escape_len, in_class, in_param, index_value, lemma_scan_bounds, opens_param, scan, lemma_scan_exact, lex_from, lex_step, next_token, punctuation,
    start_state, text_run, tokens, CharClass, LexState,
};
use crate::text::{
    all_ascii_digits, decimal, decimal_value, digit_char, is_ascii_digit, is_ascii_letter, numeric,
};
use crate::parser::{
    expect, parse_identifier, parse_node, parse_nodes, parse_other, parse_param, token_kinds,
    SyntaxError,
};
use crate::token::TokenView;
use crate::{expansion, Failure};

verus! {

/// Text without a `$` expands to itself, whatever the variables.
pub proof fn law_text_identity(vars: Vars, s: Seq<char>)
    requires
        forall|i: int| 0 <= i < s.len() ==> s[i] != '$',
    ensures
        expansion(vars, s) == Ok::<Seq<char>, Failure>(s),
{
    let n = s.len() as int;
    lemma_scan_exact(s, 0, n, CharClass::NotDollar);
    lemma_scan_exact(s, n, n, CharClass::NotDollar);
    assert(escape_len(s, n) == 0);
    assert(text_run(s, n) == (Seq::<char>::empty(), n));
    let st0 = start_state();
    let end = LexState { pos: n, prev: Some(TokenView::Text(s)), nesting: 0 };
    assert(lex_step(s, end) is None);
    assert(lex_from(s, end) =~= Seq::<(TokenView, int)>::empty());
    if n == 0 {
        assert(text_run(s, 0) == (Seq::<char>::empty(), 0int));
        assert(lex_step(s, st0) is None);
        assert(tokens(s) =~= Seq::<(TokenView, int)>::empty());
        assert(token_kinds(s) =~= Seq::<TokenView>::empty());
        assert(eval_nodes(vars, Seq::<NodeView>::empty()) == Ok::<Seq<char>, Seq<char>>(
            Seq::empty(),
        ));
        assert(s =~= Seq::<char>::empty());
    } else {
        assert(escape_len(s, 0) == 0);
        assert(s.subrange(0, n) + Seq::<char>::empty() =~= s);
        assert(text_run(s, 0) == (s, n));
        assert(next_token(s, st0) == Some((TokenView::Text(s), n)));
        assert(lex_step(s, st0) == Some((TokenView::Text(s), end)));
        assert(tokens(s) =~= seq![(TokenView::Text(s), 0int)]);
        let toks = token_kinds(s);
        assert(toks =~= seq![TokenView::Text(s)]);
        assert(parse_node(toks, 0) == Ok::<(NodeView, int), crate::parser::SyntaxError>(
            (NodeView::Text(s), 1),
        ));
        assert(parse_nodes(toks, 1) == Ok::<Seq<NodeView>, crate::parser::SyntaxError>(
            Seq::empty(),
        ));
        assert(seq![NodeView::Text(s)] + Seq::<NodeView>::empty() =~= seq![NodeView::Text(s)]);
        let nodes = seq![NodeView::Text(s)];
        assert(nodes.drop_last() =~= Seq::<NodeView>::empty());
        assert(Seq::<char>::empty() + s =~= s);
        assert(eval_nodes(vars, nodes) == Ok::<Seq<char>, Seq<char>>(s));
    }
}

/// A variable name that the lexer reads in one piece: ASCII letters, digits and
/// underscores, not starting with a digit.
pub open spec fn is_name(n: Seq<char>) -> bool {
    &&& n.len() > 0
    &&& !is_ascii_digit(n[0])
    &&& forall|i: int|
        0 <= i < n.len() ==> (is_ascii_letter(#[trigger] n[i]) || is_ascii_digit(n[i]) || n[i]
            == '_')
}

/// A text that the lexer reads as one text token inside a param: it holds no `}` or
/// line break, does not start with punctuation, and starts with `$` only as `$$`.
pub open spec fn is_payload(d: Seq<char>) -> bool {
    &&& d.len() > 0
    &&& punctuation(d[0]) is None
    &&& d[0] == '$' ==> d.len() >= 2 && d[1] == '$'
    &&& forall|i: int| 0 <= i < d.len() ==> #[trigger] d[i] != '}' && d[i] != '\n'
}

/// The operator characters that may follow a name in braces.
pub open spec fn is_operator(c: char) -> bool {
    c == '-' || c == '+' || c == '?'
}

/// `${name}`, `${name<op>payload}` or `${name:<op>payload}`, with an optional payload.
pub open spec fn braced(n: Seq<char>, colon: bool, op: Option<char>, d: Seq<char>) -> Seq<char> {
    seq!['$', '{'] + n + (if colon {
        seq![':']
    } else {
        Seq::empty()
    }) + (match op {
        Some(c) => seq![c],
        None => Seq::empty(),
    }) + d + seq!['}']
}

proof fn lemma_name_chars(n: Seq<char>)
    requires
        is_name(n),
    ensures
        forall|i: int|
            0 <= i < n.len() ==> in_class(CharClass::NameChar, #[trigger] n[i]) && n[i] != '$'
                && punctuation(n[i]) is None,
        !numeric(n[0]),
{
    assert forall|i: int| 0 <= i < n.len() implies in_class(CharClass::NameChar, #[trigger] n[i])
        && n[i] != '$' && punctuation(n[i]) is None by {
        assert(is_ascii_letter(n[i]) || is_ascii_digit(n[i]) || n[i] == '_');
    }
}

proof fn lemma_end_of_input(s: Seq<char>, prev: TokenView)
    requires
        prev != TokenView::DollarSign,
    ensures
        lex_from(s, LexState { pos: s.len() as int, prev: Some(prev), nesting: 0 })
            =~= Seq::<(TokenView, int)>::empty(),
{
    let n = s.len() as int;
    lemma_scan_exact(s, n, n, CharClass::NotDollar);
    assert(text_run(s, n) == (Seq::<char>::empty(), n));
}

/// The tokens of a braced param with a name.
#[verifier::rlimit(60)]
proof fn lemma_braced_tokens(n: Seq<char>, colon: bool, op: Option<char>, d: Seq<char>)
    requires
        is_name(n),
        colon ==> op is Some,
        op is Some ==> is_operator(op->0),
        op is None ==> d.len() == 0,
        d.len() == 0 || is_payload(d),
    ensures
        token_kinds(braced(n, colon, op, d)) == seq![
            TokenView::DollarSign,
            TokenView::OpenBrace,
            TokenView::Identifier(n),
        ] + (if colon {
            seq![TokenView::Colon]
        } else {
            Seq::empty()
        }) + (match op {
            Some(c) => seq![punctuation(c)->0],
            None => Seq::empty(),
        }) + (if d.len() > 0 {
            seq![TokenView::Text(collapse_dollars(d))]
        } else {
            Seq::empty()
        }) + seq![TokenView::CloseBrace],
{
    let s = braced(n, colon, op, d);
    let a = n.len() as int;
    let c: int = if colon {
        1
    } else {
        0
    };
    let o: int = if op is Some {
        1
    } else {
        0
    };
    let b = d.len() as int;
    let len = s.len() as int;
    assert(len == 3 + a + c + o + b);
    lemma_name_chars(n);
    assert(s[0] == '$');
    assert(s[1] == '{');
    assert forall|i: int| 0 <= i < a implies s[2 + i] == n[i] by {}
    if colon {
        assert(s[2 + a] == ':');
    }
    if op is Some {
        assert(s[2 + a + c] == op->0);
    }
    assert forall|i: int| 0 <= i < b implies s[2 + a + c + o + i] == d[i] by {}
    assert(s[len - 1] == '}');
    let st0 = start_state();
    let st1 = LexState { pos: 1, prev: Some(TokenView::DollarSign), nesting: 0 };
    assert(lex_step(s, st0) == Some((TokenView::DollarSign, st1)));
    let st2 = LexState { pos: 2, prev: Some(TokenView::OpenBrace), nesting: 1 };
    assert(lex_step(s, st1) == Some((TokenView::OpenBrace, st2)));
    assert forall|k: int| 2 <= k < 2 + a implies in_class(CharClass::NameChar, #[trigger] s[k]) by {
        assert(s[k] == n[k - 2]);
    }
    lemma_scan_exact(s, 2, 2 + a, CharClass::NameChar);
    assert(s.subrange(2, 2 + a) =~= n);
    let st3 = LexState { pos: 2 + a, prev: Some(TokenView::Identifier(n)), nesting: 1 };
    assert(lex_step(s, st2) == Some((TokenView::Identifier(n), st3)));
    let at_op = 2 + a + c;
    let st4 = if colon {
        LexState { pos: at_op, prev: Some(TokenView::Colon), nesting: 1 }
    } else {
        st3
    };
    if colon {
        assert(lex_step(s, st3) == Some((TokenView::Colon, st4)));
    }
    let at_payload = at_op + o;
    let st5 = match op {
        Some(ch) => LexState { pos: at_payload, prev: Some(punctuation(ch)->0), nesting: 1 },
        None => st4,
    };
    if op is Some {
        assert(lex_step(s, st4) == Some((punctuation(op->0)->0, st5)));
    }
    let at_close = at_payload + b;
    let st6 = if b > 0 {
        LexState { pos: at_close, prev: Some(TokenView::Text(collapse_dollars(d))), nesting: 1 }
    } else {
        st5
    };
    if b > 0 {
        assert forall|k: int| at_payload <= k < at_close implies in_class(
            CharClass::NotCloseOrNewline,
            #[trigger] s[k],
        ) by {
            assert(s[k] == d[k - at_payload]);
        }
        lemma_scan_exact(s, at_payload, at_close, CharClass::NotCloseOrNewline);
        assert(s.subrange(at_payload, at_close) =~= d);
        assert(lex_step(s, st5) == Some((TokenView::Text(collapse_dollars(d)), st6)));
    }
    let st7 = LexState { pos: len, prev: Some(TokenView::CloseBrace), nesting: 0 };
    assert(lex_step(s, st6) == Some((TokenView::CloseBrace, st7)));
    lemma_end_of_input(s, TokenView::CloseBrace);
    assert(lex_from(s, st6) =~= seq![(TokenView::CloseBrace, at_close)]);
    let tail5: Seq<(TokenView, int)> = if b > 0 {
        seq![(TokenView::Text(collapse_dollars(d)), at_payload)]
    } else {
        Seq::empty()
    };
    assert(lex_from(s, st5) =~= tail5 + seq![(TokenView::CloseBrace, at_close)]);
    let tail4: Seq<(TokenView, int)> = match op {
        Some(ch) => seq![(punctuation(ch)->0, at_op)],
        None => Seq::empty(),
    };
    assert(lex_from(s, st4) =~= tail4 + tail5 + seq![(TokenView::CloseBrace, at_close)]);
    let tail3: Seq<(TokenView, int)> = if colon {
        seq![(TokenView::Colon, 2 + a)]
    } else {
        Seq::empty()
    };
    assert(lex_from(s, st3) =~= tail3 + tail4 + tail5 + seq![(TokenView::CloseBrace, at_close)]);
    assert(lex_from(s, st2) =~= seq![(TokenView::Identifier(n), 2int)] + tail3 + tail4 + tail5
        + seq![(TokenView::CloseBrace, at_close)]);
    assert(lex_from(s, st1) =~= seq![(TokenView::OpenBrace, 1int), (TokenView::Identifier(n), 2int)]
        + tail3 + tail4 + tail5 + seq![(TokenView::CloseBrace, at_close)]);
    assert(tokens(s) =~= seq![
        (TokenView::DollarSign, 0int),
        (TokenView::OpenBrace, 1int),
        (TokenView::Identifier(n), 2int),
    ] + tail3 + tail4 + tail5 + seq![(TokenView::CloseBrace, at_close)]);
    assert(token_kinds(s) =~= seq![
        TokenView::DollarSign,
        TokenView::OpenBrace,
        TokenView::Identifier(n),
    ] + (if colon {
        seq![TokenView::Colon]
    } else {
        Seq::empty()
    }) + (match op {
        Some(c) => seq![punctuation(c)->0],
        None => Seq::empty(),
    }) + (if d.len() > 0 {
        seq![TokenView::Text(collapse_dollars(d))]
    } else {
        Seq::empty()
    }) + seq![TokenView::CloseBrace]);
}

/// What the parser makes of the tokens of a braced param with a name and an
/// operator, and how the evaluator takes the single node that results.
proof fn lemma_braced_parse(n: Seq<char>, colon: bool, op: char, d: Seq<char>)
    requires
        is_name(n),
        is_operator(op),
        op != '?' ==> is_payload(d),
        op == '?' ==> (d.len() == 0 || is_payload(d)),
    ensures
        parse_nodes(token_kinds(braced(n, colon, Some(op), d)), 0) == Ok::<
            Seq<NodeView>,
            SyntaxError,
        >(
            seq![
                NodeView::Param(
                    if op == '-' {
                        ParamView::WithDefault {
                            identifier: IdentifierView::Named(n),
                            default: Box::new(NodeView::Text(collapse_dollars(d))),
                            treat_empty_as_unset: colon,
                        }
                    } else if op == '+' {
                        ParamView::WithAlt {
                            identifier: IdentifierView::Named(n),
                            alt: Box::new(NodeView::Text(collapse_dollars(d))),
                            treat_empty_as_unset: colon,
                        }
                    } else {
                        ParamView::WithError {
                            identifier: IdentifierView::Named(n),
                            error: if d.len() > 0 {
                                Some(collapse_dollars(d))
                            } else {
                                None
                            },
                            treat_empty_as_unset: colon,
                        }
                    },
                ),
            ],
        ),
{
    lemma_braced_tokens(n, colon, Some(op), d);
    let toks = token_kinds(braced(n, colon, Some(op), d));
    let c: int = if colon {
        1
    } else {
        0
    };
    let b: int = if d.len() > 0 {
        1
    } else {
        0
    };
    let len = toks.len() as int;
    assert(len == 5 + c + b);
    let j = 3 + c;
    assert(toks[2] == TokenView::Identifier(n));
    if colon {
        assert(toks[3] == TokenView::Colon);
    }
    assert(toks[j] == punctuation(op)->0);
    if b > 0 {
        assert(toks[j + 1] == TokenView::Text(collapse_dollars(d)));
    }
    assert(toks[len - 1] == TokenView::CloseBrace);
    assert(parse_identifier(toks, 2) == Ok::<(IdentifierView, int), SyntaxError>(
        (IdentifierView::Named(n), 3),
    ));
    let param = if op == '-' {
        ParamView::WithDefault {
            identifier: IdentifierView::Named(n),
            default: Box::new(NodeView::Text(collapse_dollars(d))),
            treat_empty_as_unset: colon,
        }
    } else if op == '+' {
        ParamView::WithAlt {
            identifier: IdentifierView::Named(n),
            alt: Box::new(NodeView::Text(collapse_dollars(d))),
            treat_empty_as_unset: colon,
        }
    } else {
        ParamView::WithError {
            identifier: IdentifierView::Named(n),
            error: if d.len() > 0 {
                Some(collapse_dollars(d))
            } else {
                None
            },
            treat_empty_as_unset: colon,
        }
    };
    if op != '?' {
        assert(parse_node(toks, j + 1) == Ok::<(NodeView, int), SyntaxError>(
            (NodeView::Text(collapse_dollars(d)), j + 2),
        ));
    }
    assert(expect(toks, len - 1, TokenView::CloseBrace) == Ok::<int, SyntaxError>(len));
    assert(parse_other(toks, 2) == Ok::<(ParamView, int), SyntaxError>((param, len)));
    assert(parse_param(toks, 1) == Ok::<(ParamView, int), SyntaxError>((param, len)));
    assert(parse_node(toks, 0) == Ok::<(NodeView, int), SyntaxError>((NodeView::Param(param), len)));
    assert(parse_nodes(toks, len) == Ok::<Seq<NodeView>, SyntaxError>(Seq::empty()));
    assert(seq![NodeView::Param(param)] + Seq::<NodeView>::empty() =~= seq![NodeView::Param(param)]);
}

/// Evaluating a single node is evaluating the node.
proof fn lemma_eval_single(vars: Vars, node: NodeView)
    ensures
        eval_nodes(vars, seq![node]) == eval_node(vars, node),
{
    let nodes = seq![node];
    assert(nodes.drop_last() =~= Seq::<NodeView>::empty());
    assert(eval_nodes(vars, Seq::<NodeView>::empty()) == Ok::<Seq<char>, Seq<char>>(Seq::empty()));
    assert(nodes.last() == node);
    match eval_node(vars, node) {
        Ok(v) => {
            assert(Seq::<char>::empty() + v =~= v);
        },
        Err(_) => {},
    }
}

/// The value of a named variable, if it is set (and, with `treat_empty_as_unset`,
/// not empty).
pub open spec fn set_value(vars: Vars, n: Seq<char>, treat_empty_as_unset: bool) -> Option<
    Seq<char>,
> {
    if vars.named.contains_key(n) && !(treat_empty_as_unset && vars.named[n].len() == 0) {
        Some(vars.named[n])
    } else {
        None
    }
}

/// `${VAR-default}` gives the default text (each `$$` in it made one `$`) when `VAR` is unset and the value of `VAR`
/// when it is set, even to the empty string; `${VAR:-default}` gives the default text
/// also when `VAR` is empty.
pub proof fn law_default(vars: Vars, n: Seq<char>, colon: bool, d: Seq<char>)
    requires
        is_name(n),
        is_payload(d),
    ensures
        expansion(vars, braced(n, colon, Some('-'), d)) == Ok::<Seq<char>, Failure>(
            match set_value(vars, n, colon) {
                Some(v) => v,
                None => collapse_dollars(d),
            },
        ),
{
    lemma_braced_parse(n, colon, '-', d);
    let p = ParamView::WithDefault {
        identifier: IdentifierView::Named(n),
        default: Box::new(NodeView::Text(collapse_dollars(d))),
        treat_empty_as_unset: colon,
    };
    lemma_eval_single(vars, NodeView::Param(p));
    assert(eval_node(vars, NodeView::Text(collapse_dollars(d))) == Ok::<Seq<char>, Seq<char>>(
        collapse_dollars(d),
    ));
    assert(eval_node(vars, NodeView::Param(p)) == eval_param(vars, p));
}

/// `${VAR+alt}` gives nothing when `VAR` is unset and the alternative text (each `$$`
/// in it made one `$`) when it is
/// set, even to the empty string; `${VAR:+alt}` gives the alternative text only when
/// `VAR` is set and not empty.
pub proof fn law_alternative(vars: Vars, n: Seq<char>, colon: bool, d: Seq<char>)
    requires
        is_name(n),
        is_payload(d),
    ensures
        expansion(vars, braced(n, colon, Some('+'), d)) == Ok::<Seq<char>, Failure>(
            match set_value(vars, n, colon) {
                Some(_) => collapse_dollars(d),
                None => Seq::empty(),
            },
        ),
{
    lemma_braced_parse(n, colon, '+', d);
    let p = ParamView::WithAlt {
        identifier: IdentifierView::Named(n),
        alt: Box::new(NodeView::Text(collapse_dollars(d))),
        treat_empty_as_unset: colon,
    };
    lemma_eval_single(vars, NodeView::Param(p));
    assert(eval_node(vars, NodeView::Text(collapse_dollars(d))) == Ok::<Seq<char>, Seq<char>>(
        collapse_dollars(d),
    ));
    assert(eval_node(vars, NodeView::Param(p)) == eval_param(vars, p));
}

/// `${VAR?msg}` fails with exactly `msg` (each `$$` in it made one `$`) when `VAR` is
/// unset; `${VAR?}` fails with
/// `'VAR' is unset`, and `${VAR:?}` with `'VAR' is unset or empty` when `VAR` is unset
/// or empty. Otherwise they give the value of `VAR`. The error points at the start of
/// the input.
pub proof fn law_error(vars: Vars, n: Seq<char>, colon: bool, d: Seq<char>)
    requires
        is_name(n),
        d.len() == 0 || is_payload(d),
    ensures
        expansion(vars, braced(n, colon, Some('?'), d)) == match set_value(vars, n, colon) {
            Some(v) => Ok::<Seq<char>, Failure>(v),
            None => Err(
                Failure {
                    message: if d.len() > 0 {
                        collapse_dollars(d)
                    } else {
                        "'"@ + n + if colon {
                            "' is unset or empty"@
                        } else {
                            "' is unset"@
                        }
                    },
                    line: 1,
                    col: 1,
                },
            ),
        },
{
    lemma_braced_parse(n, colon, '?', d);
    let p = ParamView::WithError {
        identifier: IdentifierView::Named(n),
        error: if d.len() > 0 {
            Some(collapse_dollars(d))
        } else {
            None
        },
        treat_empty_as_unset: colon,
    };
    lemma_eval_single(vars, NodeView::Param(p));
    assert(eval_node(vars, NodeView::Param(p)) == eval_param(vars, p));
}

/// `${#name}` or `${!name}`.
pub open spec fn prefixed(mark: char, n: Seq<char>) -> Seq<char> {
    seq!['$', '{', mark] + n + seq!['}']
}

proof fn lemma_prefixed_parse(mark: char, n: Seq<char>)
    requires
        is_name(n),
        mark == '#' || mark == '!',
    ensures
        parse_nodes(token_kinds(prefixed(mark, n)), 0) == Ok::<Seq<NodeView>, SyntaxError>(
            seq![
                NodeView::Param(
                    if mark == '#' {
                        ParamView::Length { identifier: IdentifierView::Named(n) }
                    } else {
                        ParamView::Ref { identifier: IdentifierView::Named(n) }
                    },
                ),
            ],
        ),
{
    let s = prefixed(mark, n);
    let a = n.len() as int;
    let len = s.len() as int;
    assert(len == 4 + a);
    lemma_name_chars(n);
    assert(s[0] == '$');
    assert(s[1] == '{');
    assert(s[2] == mark);
    assert(s[len - 1] == '}');
    let mark_token = punctuation(mark)->0;
    let st0 = start_state();
    let st1 = LexState { pos: 1, prev: Some(TokenView::DollarSign), nesting: 0 };
    assert(lex_step(s, st0) == Some((TokenView::DollarSign, st1)));
    let st2 = LexState { pos: 2, prev: Some(TokenView::OpenBrace), nesting: 1 };
    assert(lex_step(s, st1) == Some((TokenView::OpenBrace, st2)));
    let st3 = LexState { pos: 3, prev: Some(mark_token), nesting: 1 };
    assert(lex_step(s, st2) == Some((mark_token, st3)));
    assert forall|k: int| 3 <= k < 3 + a implies in_class(CharClass::NameChar, #[trigger] s[k]) by {
        assert(s[k] == n[k - 3]);
    }
    lemma_scan_exact(s, 3, 3 + a, CharClass::NameChar);
    assert(s.subrange(3, 3 + a) =~= n);
    assert(s[3] == n[0]);
    let st4 = LexState { pos: 3 + a, prev: Some(TokenView::Identifier(n)), nesting: 1 };
    assert(lex_step(s, st3) == Some((TokenView::Identifier(n), st4)));
    let st5 = LexState { pos: len, prev: Some(TokenView::CloseBrace), nesting: 0 };
    assert(lex_step(s, st4) == Some((TokenView::CloseBrace, st5)));
    lemma_end_of_input(s, TokenView::CloseBrace);
    assert(lex_from(s, st4) =~= seq![(TokenView::CloseBrace, 3 + a)]);
    assert(lex_from(s, st3) =~= seq![(TokenView::Identifier(n), 3int), (TokenView::CloseBrace, 3 + a)]);
    assert(lex_from(s, st2) =~= seq![
        (mark_token, 2int),
        (TokenView::Identifier(n), 3int),
        (TokenView::CloseBrace, 3 + a),
    ]);
    assert(lex_from(s, st1) =~= seq![
        (TokenView::OpenBrace, 1int),
        (mark_token, 2int),
        (TokenView::Identifier(n), 3int),
        (TokenView::CloseBrace, 3 + a),
    ]);
    assert(tokens(s) =~= seq![
        (TokenView::DollarSign, 0int),
        (TokenView::OpenBrace, 1int),
        (mark_token, 2int),
        (TokenView::Identifier(n), 3int),
        (TokenView::CloseBrace, 3 + a),
    ]);
    let toks = token_kinds(s);
    assert(toks =~= seq![
        TokenView::DollarSign,
        TokenView::OpenBrace,
        mark_token,
        TokenView::Identifier(n),
        TokenView::CloseBrace,
    ]);
    let param = if mark == '#' {
        ParamView::Length { identifier: IdentifierView::Named(n) }
    } else {
        ParamView::Ref { identifier: IdentifierView::Named(n) }
    };
    assert(parse_identifier(toks, 3) == Ok::<(IdentifierView, int), SyntaxError>(
        (IdentifierView::Named(n), 4),
    ));
    assert(expect(toks, 4, TokenView::CloseBrace) == Ok::<int, SyntaxError>(5));
    assert(parse_param(toks, 1) == Ok::<(ParamView, int), SyntaxError>((param, 5)));
    assert(parse_node(toks, 0) == Ok::<(NodeView, int), SyntaxError>((NodeView::Param(param), 5)));
    assert(parse_nodes(toks, 5) == Ok::<Seq<NodeView>, SyntaxError>(Seq::empty()));
    assert(seq![NodeView::Param(param)] + Seq::<NodeView>::empty() =~= seq![NodeView::Param(param)]);
}

/// `${#VAR}` gives the number of characters of the value of `VAR` in decimal, or `0`
/// when `VAR` is unset (an error under `no_unset`).
pub proof fn law_length(vars: Vars, n: Seq<char>)
    requires
        is_name(n),
    ensures
        expansion(vars, prefixed('#', n)) == if vars.named.contains_key(n) {
            Ok::<Seq<char>, Failure>(decimal(vars.named[n].len()))
        } else if vars.no_unset {
            Err(Failure { message: "'"@ + n + "' is unset"@, line: 1, col: 1 })
        } else {
            Ok(decimal(0))
        },
{
    lemma_prefixed_parse('#', n);
    let p = ParamView::Length { identifier: IdentifierView::Named(n) };
    lemma_eval_single(vars, NodeView::Param(p));
}

/// `${!VAR}` takes the value of `VAR` as a name and gives the value of the variable
/// of that name; where either is unset, as `$VAR` would.
pub proof fn law_indirect(vars: Vars, n: Seq<char>)
    requires
        is_name(n),
    ensures
        expansion(vars, prefixed('!', n)) == match simple_value(vars, IdentifierView::Named(n)) {
            Err(m) => Err(Failure { message: m, line: 1, col: 1 }),
            Ok(name) => match simple_value(vars, IdentifierView::Named(name)) {
                Ok(v) => Ok::<Seq<char>, Failure>(v),
                Err(m) => Err(Failure { message: m, line: 1, col: 1 }),
            },
        },
{
    lemma_prefixed_parse('!', n);
    let p = ParamView::Ref { identifier: IdentifierView::Named(n) };
    lemma_eval_single(vars, NodeView::Param(p));
}

/// `${#}` gives the number of positional variables in decimal, whatever `no_unset` says.
pub proof fn law_arity(vars: Vars)
    ensures
        expansion(vars, seq!['$', '{', '#', '}']) == Ok::<Seq<char>, Failure>(
            decimal(vars.positional.len()),
        ),
{
    let s = seq!['$', '{', '#', '}'];
    let st0 = start_state();
    let st1 = LexState { pos: 1, prev: Some(TokenView::DollarSign), nesting: 0 };
    assert(lex_step(s, st0) == Some((TokenView::DollarSign, st1)));
    let st2 = LexState { pos: 2, prev: Some(TokenView::OpenBrace), nesting: 1 };
    assert(lex_step(s, st1) == Some((TokenView::OpenBrace, st2)));
    let st3 = LexState { pos: 3, prev: Some(TokenView::PoundSign), nesting: 1 };
    assert(lex_step(s, st2) == Some((TokenView::PoundSign, st3)));
    let st4 = LexState { pos: 4, prev: Some(TokenView::CloseBrace), nesting: 0 };
    assert(lex_step(s, st3) == Some((TokenView::CloseBrace, st4)));
    lemma_end_of_input(s, TokenView::CloseBrace);
    assert(lex_from(s, st3) =~= seq![(TokenView::CloseBrace, 3int)]);
    assert(lex_from(s, st2) =~= seq![(TokenView::PoundSign, 2int), (TokenView::CloseBrace, 3int)]);
    assert(lex_from(s, st1) =~= seq![
        (TokenView::OpenBrace, 1int),
        (TokenView::PoundSign, 2int),
        (TokenView::CloseBrace, 3int),
    ]);
    assert(tokens(s) =~= seq![
        (TokenView::DollarSign, 0int),
        (TokenView::OpenBrace, 1int),
        (TokenView::PoundSign, 2int),
        (TokenView::CloseBrace, 3int),
    ]);
    let toks = token_kinds(s);
    assert(toks =~= seq![
        TokenView::DollarSign,
        TokenView::OpenBrace,
        TokenView::PoundSign,
        TokenView::CloseBrace,
    ]);
    assert(expect(toks, 2, TokenView::PoundSign) == Ok::<int, SyntaxError>(3));
    assert(parse_param(toks, 1) == Ok::<(ParamView, int), SyntaxError>((ParamView::Arity, 4)));
    assert(parse_node(toks, 0) == Ok::<(NodeView, int), SyntaxError>(
        (NodeView::Param(ParamView::Arity), 4),
    ));
    assert(parse_nodes(toks, 4) == Ok::<Seq<NodeView>, SyntaxError>(Seq::empty()));
    assert(seq![NodeView::Param(ParamView::Arity)] + Seq::<NodeView>::empty() =~= seq![
        NodeView::Param(ParamView::Arity),
    ]);
    lemma_eval_single(vars, NodeView::Param(ParamView::Arity));
}

proof fn lemma_decimal_reads_back(k: nat)
    ensures
        decimal(k).len() > 0,
        all_ascii_digits(decimal(k)),
        decimal_value(decimal(k)) == k,
    decreases k,
{
    if k < 10 {
        let s = decimal(k);
        assert(s.drop_last() =~= Seq::<char>::empty());
        assert(decimal_value(Seq::<char>::empty()) == 0);
    } else {
        lemma_decimal_reads_back(k / 10);
        let s = decimal(k);
        assert(s.drop_last() =~= decimal(k / 10));
        assert(s.last() == digit_char((k % 10) as int));
        assert forall|i: int| 0 <= i < s.len() implies is_ascii_digit(#[trigger] s[i]) by {
            if i < s.len() - 1 {
                assert(s[i] == decimal(k / 10)[i]);
            }
        }
        assert(k == (k / 10) * 10 + k % 10) by (nonlinear_arith);
    }
}

/// `$0` gives all positional variables joined by single spaces; `$1`, `$2`, ... give
/// the first, second, ... positional variable; a missing one is unset.
pub proof fn law_positional(vars: Vars, k: usize)
    ensures
        expansion(vars, seq!['$'] + decimal(k as nat)) == if k == 0 {
            Ok::<Seq<char>, Failure>(join_spaces(vars.positional))
        } else if k - 1 < vars.positional.len() {
            Ok(vars.positional[k - 1])
        } else if vars.no_unset {
            Err(Failure { message: "'"@ + decimal(k as nat) + "' is unset"@, line: 1, col: 1 })
        } else {
            Ok(Seq::empty())
        },
{
    let digits = decimal(k as nat);
    lemma_decimal_reads_back(k as nat);
    let s = seq!['$'] + digits;
    let len = s.len() as int;
    assert(s[0] == '$');
    assert(s[1] == digits[0]);
    assert(is_ascii_digit(digits[0]));
    let st0 = start_state();
    let st1 = LexState { pos: 1, prev: Some(TokenView::DollarSign), nesting: 0 };
    assert(lex_step(s, st0) == Some((TokenView::DollarSign, st1)));
    assert forall|i: int| 1 <= i < len implies in_class(CharClass::Numeric, #[trigger] s[i]) by {
        assert(s[i] == digits[i - 1]);
        assert(is_ascii_digit(digits[i - 1]));
    }
    lemma_scan_exact(s, 1, len, CharClass::Numeric);
    assert(s.subrange(1, len) =~= digits);
    assert(index_value(digits) == k);
    let st2 = LexState { pos: len, prev: Some(TokenView::Index(k)), nesting: 0 };
    assert(lex_step(s, st1) == Some((TokenView::Index(k), st2)));
    lemma_end_of_input(s, TokenView::Index(k));
    assert(lex_from(s, st1) =~= seq![(TokenView::Index(k), 1int)]);
    assert(tokens(s) =~= seq![(TokenView::DollarSign, 0int), (TokenView::Index(k), 1int)]);
    let toks = token_kinds(s);
    assert(toks =~= seq![TokenView::DollarSign, TokenView::Index(k)]);
    let param = ParamView::Simple { identifier: IdentifierView::Indexed(k), modifier: None };
    assert(parse_param(toks, 1) == Ok::<(ParamView, int), SyntaxError>((param, 2)));
    assert(parse_node(toks, 0) == Ok::<(NodeView, int), SyntaxError>((NodeView::Param(param), 2)));
    assert(parse_nodes(toks, 2) == Ok::<Seq<NodeView>, SyntaxError>(Seq::empty()));
    assert(seq![NodeView::Param(param)] + Seq::<NodeView>::empty() =~= seq![NodeView::Param(param)]);
    lemma_eval_single(vars, NodeView::Param(param));
}

/// Whether every `$` of `s` from index `i` on is half of a `$$` pair.
pub open spec fn escaped_from(s: Seq<char>, i: int) -> bool
    decreases s.len() - i,
{
    if i < 0 || i >= s.len() {
        true
    } else if s[i] == '$' {
        i + 1 < s.len() && s[i + 1] == '$' && escaped_from(s, i + 2)
    } else {
        escaped_from(s, i + 1)
    }
}

/// The text of `s` from index `i` on with every `$$` pair made one `$`.
pub open spec fn unescaped_from(s: Seq<char>, i: int) -> Seq<char>
    decreases s.len() - i,
{
    if i < 0 || i >= s.len() {
        Seq::empty()
    } else if s[i] == '$' && i + 1 < s.len() && s[i + 1] == '$' {
        seq!['$'] + unescaped_from(s, i + 2)
    } else {
        seq![s[i]] + unescaped_from(s, i + 1)
    }
}

/// The texts joined, in order.
pub open spec fn joined(texts: Seq<Seq<char>>) -> Seq<char>
    decreases texts.len(),
{
    if texts.len() == 0 {
        Seq::empty()
    } else {
        joined(texts.drop_last()) + texts.last()
    }
}

proof fn lemma_joined_prepend(a: Seq<char>, rest: Seq<Seq<char>>)
    ensures
        joined(seq![a] + rest) == a + joined(rest),
    decreases rest.len(),
{
    let all = seq![a] + rest;
    if rest.len() == 0 {
        assert(all.drop_last() =~= Seq::<Seq<char>>::empty());
        assert(all.last() == a);
        assert(joined(Seq::<Seq<char>>::empty()) == Seq::<char>::empty());
        assert(Seq::<char>::empty() + a =~= a + Seq::<char>::empty());
    } else {
        assert(all.drop_last() =~= seq![a] + rest.drop_last());
        assert(all.last() == rest.last());
        lemma_joined_prepend(a, rest.drop_last());
        assert(a + joined(rest.drop_last()) + rest.last() =~= a + (joined(rest.drop_last())
            + rest.last()));
    }
}

proof fn lemma_plain_run(s: Seq<char>, i: int, j: int)
    requires
        0 <= i <= j <= s.len(),
        forall|k: int| i <= k < j ==> s[k] != '$',
    ensures
        escaped_from(s, i) == escaped_from(s, j),
        unescaped_from(s, i) == s.subrange(i, j) + unescaped_from(s, j),
    decreases j - i,
{
    if i < j {
        lemma_plain_run(s, i + 1, j);
        assert(s.subrange(i, j) =~= seq![s[i]] + s.subrange(i + 1, j));
    } else {
        assert(s.subrange(i, j) =~= Seq::<char>::empty());
    }
}

proof fn lemma_escaped_text_run(s: Seq<char>, i: int)
    requires
        0 <= i <= s.len(),
        escaped_from(s, i),
    ensures
        i <= text_run(s, i).1 <= s.len(),
        escaped_from(s, text_run(s, i).1),
        unescaped_from(s, i) == text_run(s, i).0 + unescaped_from(s, text_run(s, i).1),
        text_run(s, i).0.len() == 0 ==> i == s.len(),
        text_run(s, i).0.len() > 0 ==> i < text_run(s, i).1,
    decreases s.len() - i,
{
    let i1 = i + escape_len(s, i);
    let dollar: Seq<char> = if escape_len(s, i) > 0 {
        seq!['$']
    } else {
        Seq::empty()
    };
    if i < s.len() && s[i] == '$' {
        assert(escape_len(s, i) == 2);
    } else {
        assert(escape_len(s, i) == 0);
    }
    assert(unescaped_from(s, i) == dollar + unescaped_from(s, i1));
    lemma_scan_bounds(s, i1, CharClass::NotDollar);
    let j = scan(s, i1, CharClass::NotDollar);
    lemma_plain_run(s, i1, j);
    if i1 < j {
        lemma_escaped_text_run(s, j);
        let rest = text_run(s, j);
        assert(text_run(s, i) == (dollar + s.subrange(i1, j) + rest.0, rest.1));
        assert(unescaped_from(s, i) =~= dollar + s.subrange(i1, j) + rest.0 + unescaped_from(
            s,
            rest.1,
        ));
    } else {
        assert(text_run(s, i) == (dollar, i1));
    }
}

/// The texts of a sequence of text tokens.
pub open spec fn token_texts(toks: Seq<(TokenView, int)>) -> Seq<Seq<char>> {
    toks.map_values(|t: (TokenView, int)| t.0->Text_0)
}

proof fn lemma_escaped_tokens(s: Seq<char>, st: LexState)
    requires
        0 <= st.pos <= s.len(),
        st.nesting == 0,
        st.prev is None || st.prev->0 is Text,
        escaped_from(s, st.pos),
    ensures
        forall|k: int| 0 <= k < lex_from(s, st).len() ==> (#[trigger] lex_from(s, st)[k]).0 is Text,
        joined(token_texts(lex_from(s, st))) == unescaped_from(s, st.pos),
    decreases s.len() - st.pos,
{
    let i = st.pos;
    lemma_escaped_text_run(s, i);
    let (t, j) = text_run(s, i);
    assert(!in_param(st));
    if i < s.len() && s[i] == '$' {
        assert(s[i + 1] == '$');
    }
    assert(!opens_param(s, i));
    if t.len() == 0 {
        assert(lex_step(s, st) is None);
        assert(token_texts(lex_from(s, st)) =~= Seq::<Seq<char>>::empty());
        assert(unescaped_from(s, i) =~= Seq::<char>::empty());
    } else {
        let next = LexState { pos: j, prev: Some(TokenView::Text(t)), nesting: 0 };
        assert(lex_step(s, st) == Some((TokenView::Text(t), next)));
        lemma_escaped_tokens(s, next);
        let rest = lex_from(s, next);
        assert(lex_from(s, st) == seq![(TokenView::Text(t), i)] + rest);
        assert(token_texts(lex_from(s, st)) =~= seq![t] + token_texts(rest));
        lemma_joined_prepend(t, token_texts(rest));
    }
}

proof fn lemma_parse_texts(toks: Seq<TokenView>, i: int)
    requires
        0 <= i <= toks.len(),
        forall|k: int| 0 <= k < toks.len() ==> #[trigger] toks[k] is Text,
    ensures
        parse_nodes(toks, i) == Ok::<Seq<NodeView>, SyntaxError>(
            Seq::new((toks.len() - i) as nat, |k: int| NodeView::Text(toks[i + k]->Text_0)),
        ),
    decreases toks.len() - i,
{
    if i < toks.len() {
        assert(toks[i] is Text);
        assert(parse_node(toks, i) == Ok::<(NodeView, int), SyntaxError>(
            (NodeView::Text(toks[i]->Text_0), i + 1),
        ));
        lemma_parse_texts(toks, i + 1);
        assert(seq![NodeView::Text(toks[i]->Text_0)] + Seq::new(
            (toks.len() - i - 1) as nat,
            |k: int| NodeView::Text(toks[i + 1 + k]->Text_0),
        ) =~= Seq::new((toks.len() - i) as nat, |k: int| NodeView::Text(toks[i + k]->Text_0)));
    } else {
        assert(Seq::new((toks.len() - i) as nat, |k: int| NodeView::Text(toks[i + k]->Text_0))
            =~= Seq::<NodeView>::empty());
    }
}

proof fn lemma_eval_texts(vars: Vars, texts: Seq<Seq<char>>)
    ensures
        eval_nodes(vars, texts.map_values(|t: Seq<char>| NodeView::Text(t))) == Ok::<
            Seq<char>,
            Seq<char>,
        >(joined(texts)),
    decreases texts.len(),
{
    let nodes = texts.map_values(|t: Seq<char>| NodeView::Text(t));
    if texts.len() > 0 {
        assert(nodes.drop_last() =~= texts.drop_last().map_values(|t: Seq<char>| NodeView::Text(t)));
        lemma_eval_texts(vars, texts.drop_last());
        assert(nodes.last() == NodeView::Text(texts.last()));
    } else {
        assert(nodes =~= Seq::<NodeView>::empty());
    }
}

/// Where every `$` is doubled, the text expands to itself with each `$$` made one
/// literal `$`: nothing after an escaped `$` is expanded.
pub proof fn law_escaped_dollars(vars: Vars, s: Seq<char>)
    requires
        escaped_from(s, 0),
    ensures
        expansion(vars, s) == Ok::<Seq<char>, Failure>(unescaped_from(s, 0)),
{
    lemma_escaped_tokens(s, start_state());
    let toks = token_kinds(s);
    assert forall|k: int| 0 <= k < toks.len() implies #[trigger] toks[k] is Text by {
        assert(toks[k] == tokens(s)[k].0);
    }
    lemma_parse_texts(toks, 0);
    let texts = token_texts(tokens(s));
    let nodes = Seq::new(toks.len(), |k: int| NodeView::Text(toks[0 + k]->Text_0));
    assert(nodes =~= texts.map_values(|t: Seq<char>| NodeView::Text(t)));
    lemma_eval_texts(vars, texts);
}

} // verus!
