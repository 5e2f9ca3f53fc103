use std::collections::HashMap;
use std::path::PathBuf;
use xpanda::ast::{Ast, Identifier, Modifier, Node, Param};
use xpanda::cli::{read_named_arg, vars_of_file, Args};
use xpanda::eval::Evaluator;
use xpanda::lexer::Lexer;
use xpanda::parser::Parser;
use xpanda::position::Position;
use xpanda::text::{decimal_string, parse_index};
use xpanda::token::Token;
use xpanda::{Error, Xpanda};

fn named(pairs: &[(&str, &str)]) -> Xpanda {
    let mut vars = HashMap::new();
    for (k, v) in pairs {
        vars.insert(String::from(*k), String::from(*v));
    }
    Xpanda::builder().with_named_vars(vars).build()
}

fn err(message: &str, line: usize, col: usize) -> Result<String, Error> {
    Err(Error { message: String::from(message), line, col })
}

#[test]
fn plain_text_is_unchanged() {
    let xpanda = named(&[("VAR", "woop")]);
    for input in ["", "hello", "a {b} c: -+?#!^,~", "line 1\nline 2\n", "héllo wörld"] {
        assert_eq!(xpanda.expand(input), Ok(String::from(input)));
    }
}

#[test]
fn doubled_dollars_are_literal() {
    let xpanda = named(&[("VAR", "woop")]);
    assert_eq!(xpanda.expand("$$VAR"), Ok(String::from("$VAR")));
    assert_eq!(xpanda.expand("a$$b$$"), Ok(String::from("a$b$")));
    assert_eq!(xpanda.expand("$$$$"), Ok(String::from("$$")));
    assert_eq!(xpanda.expand("$${VAR}"), Ok(String::from("${VAR}")));
    assert_eq!(xpanda.expand("$$$VAR"), Ok(String::from("$woop")));
}

#[test]
fn trailing_dollar_is_text() {
    let xpanda = Xpanda::default();
    assert_eq!(xpanda.expand("$"), Ok(String::from("$")));
    assert_eq!(xpanda.expand("cost: 5$"), Ok(String::from("cost: 5$")));
}

#[test]
fn default_forms() {
    assert_eq!(Xpanda::default().expand("${VAR-default}"), Ok(String::from("default")));
    assert_eq!(named(&[("VAR", "")]).expand("${VAR-default}"), Ok(String::from("")));
    assert_eq!(named(&[("VAR", "x")]).expand("${VAR-default}"), Ok(String::from("x")));
    assert_eq!(Xpanda::default().expand("${VAR:-default}"), Ok(String::from("default")));
    assert_eq!(named(&[("VAR", "")]).expand("${VAR:-default}"), Ok(String::from("default")));
    assert_eq!(named(&[("VAR", "x")]).expand("${VAR:-default}"), Ok(String::from("x")));
}

#[test]
fn nested_default() {
    let xpanda = named(&[("B", "inner")]);
    assert_eq!(xpanda.expand("${A-${B-x}}"), Ok(String::from("inner")));
    assert_eq!(Xpanda::default().expand("${A-${B-x}}"), Ok(String::from("x")));
    assert_eq!(Xpanda::default().expand("${VAR:-$$woop}"), Ok(String::from("$woop")));
}

#[test]
fn alt_forms() {
    assert_eq!(Xpanda::default().expand("${VAR+alt}"), Ok(String::from("")));
    assert_eq!(named(&[("VAR", "")]).expand("${VAR+alt}"), Ok(String::from("alt")));
    assert_eq!(named(&[("VAR", "x")]).expand("${VAR+alt}"), Ok(String::from("alt")));
    assert_eq!(Xpanda::default().expand("${VAR:+alt}"), Ok(String::from("")));
    assert_eq!(named(&[("VAR", "")]).expand("${VAR:+alt}"), Ok(String::from("")));
    assert_eq!(named(&[("VAR", "x")]).expand("${VAR:+alt}"), Ok(String::from("alt")));
}

#[test]
fn error_forms() {
    assert_eq!(Xpanda::default().expand("${VAR?msg}"), err("msg", 1, 1));
    assert_eq!(Xpanda::default().expand("${VAR?}"), err("'VAR' is unset", 1, 1));
    assert_eq!(named(&[("VAR", "")]).expand("${VAR:?}"), err("'VAR' is unset or empty", 1, 1));
    assert_eq!(named(&[("VAR", "")]).expand("${VAR?}"), Ok(String::from("")));
    assert_eq!(named(&[("VAR", "x")]).expand("${VAR:?msg}"), Ok(String::from("x")));
    assert_eq!(Xpanda::default().expand("${2?}"), err("'2' is unset", 1, 1));
}

#[test]
fn length_counts_characters() {
    assert_eq!(named(&[("VAR", "héllo")]).expand("${#VAR}"), Ok(String::from("5")));
    assert_eq!(named(&[("VAR", "")]).expand("${#VAR}"), Ok(String::from("0")));
    let long = "x".repeat(1234);
    assert_eq!(named(&[("VAR", long.as_str())]).expand("${#VAR}"), Ok(String::from("1234")));
}

#[test]
fn arity_ignores_no_unset() {
    let xpanda = Xpanda::builder()
        .no_unset(true)
        .with_positional_vars(vec![String::from("a"), String::from("b"), String::from("c")])
        .build();
    assert_eq!(xpanda.expand("${#}"), Ok(String::from("3")));
    let none = Xpanda::builder().no_unset(true).build();
    assert_eq!(none.expand("${#}"), Ok(String::from("0")));
}

#[test]
fn indirect_reference() {
    let xpanda = named(&[("VAR1", "VAR2"), ("VAR2", "woop")]);
    assert_eq!(xpanda.expand("${!VAR1}"), Ok(String::from("woop")));
    assert_eq!(named(&[("VAR1", "VAR2")]).expand("${!VAR1}"), Ok(String::from("")));
    let strict = Xpanda::builder().no_unset(true).build();
    assert_eq!(strict.expand("${!VAR1}"), err("'VAR1' is unset", 1, 1));
}

#[test]
fn positional_variables() {
    let xpanda = Xpanda::builder()
        .with_positional_vars(vec![String::from("one"), String::from("two")])
        .with_positional_vars(vec![String::from("three")])
        .build();
    assert_eq!(xpanda.expand("$0"), Ok(String::from("one two three")));
    assert_eq!(xpanda.expand("$1-$2-$3-$4"), Ok(String::from("one-two-three-")));
    assert_eq!(xpanda.expand("${3}"), Ok(String::from("three")));
    assert_eq!(Xpanda::default().expand("$0"), Ok(String::from("")));
}

#[test]
fn oversized_index_reads_as_zero() {
    let xpanda = Xpanda::builder().with_positional_vars(vec![String::from("all")]).build();
    assert_eq!(xpanda.expand("${99999999999999999999999999}"), Ok(String::from("all")));
}

#[test]
fn later_named_vars_override() {
    let mut first = HashMap::new();
    first.insert(String::from("A"), String::from("1"));
    first.insert(String::from("B"), String::from("1"));
    let mut second = HashMap::new();
    second.insert(String::from("B"), String::from("2"));
    let xpanda = Xpanda::builder().with_named_vars(first).with_named_vars(second).build();
    assert_eq!(xpanda.expand("$A$B"), Ok(String::from("12")));
}

#[test]
fn scenario_positional() {
    let xpanda = Xpanda::builder().with_positional_vars(vec![String::from("woop")]).build();
    assert_eq!(xpanda.expand("$1"), Ok(String::from("woop")));
}

#[test]
fn scenario_no_unset() {
    let xpanda = Xpanda::builder().no_unset(true).build();
    assert_eq!(xpanda.expand("$VAR"), err("'VAR' is unset", 1, 1));
}

#[test]
fn scenario_default_pattern() {
    assert_eq!(named(&[("DEF", "woop")]).expand("${VAR-$DEF}"), Ok(String::from("woop")));
}

#[test]
fn scenario_alt_empty() {
    assert_eq!(named(&[("VAR", "")]).expand("${VAR:+alt}"), Ok(String::from("")));
}

#[test]
fn scenario_unterminated() {
    assert_eq!(Xpanda::default().expand("${VAR"), err("Invalid param, unexpected EOF", 1, 6));
}

#[test]
fn scenario_multiline() {
    let mut vars = HashMap::new();
    vars.insert(String::from("DEF"), String::from("def"));
    let xpanda = Xpanda::builder()
        .with_positional_vars(vec![String::from("jkl")])
        .with_named_vars(vars)
        .build();
    assert_eq!(xpanda.expand("abc$DEF\nghi$1"), Ok(String::from("abcdef\nghijkl")));
    assert_eq!(xpanda.expand("abc$DEF\nghi${1"), err("Invalid param, unexpected EOF", 2, 7));
}

#[test]
fn syntax_error_messages() {
    let xpanda = Xpanda::default();
    assert_eq!(xpanda.expand("${VAR-def"), err("Expected '}', found EOF", 1, 10));
    assert_eq!(xpanda.expand("${}"), err("Expected identifier, found '}'", 1, 3));
    assert_eq!(xpanda.expand("${"), err("Expected param, found EOF", 1, 3));
    assert_eq!(xpanda.expand("${VAR:}"), err("Invalid param, unexpected token '}'", 1, 7));
    assert_eq!(xpanda.expand("${VAR^x}"), err("Expected '}', found \"x\"", 1, 7));
    assert_eq!(xpanda.expand("$-"), err("Expected identifier, found '-'", 1, 2));
    assert_eq!(xpanda.expand("${#VAR"), err("Expected '}', found EOF", 1, 7));
    assert_eq!(xpanda.expand("${!}"), err("Expected identifier, found '}'", 1, 4));
    assert_eq!(xpanda.expand("${VAR\n}"), err("Invalid param, unexpected EOF", 1, 6));
}

#[test]
fn case_modifiers_beyond_ascii() {
    let xpanda = named(&[("VAR", "élan"), ("UP", "ÉLAN")]);
    assert_eq!(xpanda.expand("${VAR^}"), Ok(String::from("Élan")));
    assert_eq!(xpanda.expand("${VAR^^}"), Ok(String::from("ÉLAN")));
    assert_eq!(xpanda.expand("${UP,}"), Ok(String::from("éLAN")));
    assert_eq!(xpanda.expand("${UP,,}"), Ok(String::from("élan")));
    assert_eq!(xpanda.expand("${VAR~~}"), Ok(String::from("ÉLAN")));
    assert_eq!(xpanda.expand("${UP~}"), Ok(String::from("éLAN")));
}

#[test]
fn case_modifiers_on_unset() {
    let strict = Xpanda::builder().no_unset(true).build();
    assert_eq!(strict.expand("${VAR^^}"), err("'VAR' is unset", 1, 1));
    assert_eq!(Xpanda::default().expand("${VAR~~}"), Ok(String::from("")));
}

#[test]
fn named_arg_splits_at_last_equals() {
    assert_eq!(read_named_arg("KEY=value"), Ok((String::from("KEY"), String::from("value"))));
    assert_eq!(read_named_arg("a=b=c"), Ok((String::from("a=b"), String::from("c"))));
    assert_eq!(read_named_arg("KEY="), Ok((String::from("KEY"), String::new())));
    assert_eq!(read_named_arg("novalue"), Err(String::from("'=' character missing in key value pair")));
}

#[test]
fn env_vars_only_without_other_vars() {
    let mut args = Args {
        no_unset: false,
        var_files: Vec::new(),
        env_vars: None,
        named_vars: Vec::new(),
        positional_vars: Vec::new(),
        input_file: None,
        output_file: None,
    };
    assert!(args.use_env_vars());
    args.positional_vars.push(String::from("x"));
    assert!(!args.use_env_vars());
    args.env_vars = Some(true);
    assert!(args.use_env_vars());
    args.env_vars = Some(false);
    args.positional_vars.clear();
    assert!(!args.use_env_vars());
    args.env_vars = None;
    args.var_files.push(PathBuf::from("vars"));
    assert!(!args.use_env_vars());
}

#[test]
fn lexer_positions_are_token_starts() {
    let mut lexer = Lexer::new("ab\n${X}");
    assert_eq!(lexer.next_token(), Some((Token::Text(String::from("ab\n")), Position::new(0, 1, 1))));
    assert_eq!(lexer.next_token(), Some((Token::DollarSign, Position::new(3, 2, 1))));
    assert_eq!(lexer.next_token(), Some((Token::OpenBrace, Position::new(4, 2, 2))));
    assert_eq!(lexer.next_token(), Some((Token::Identifier(String::from("X")), Position::new(5, 2, 3))));
    assert_eq!(lexer.next_token(), Some((Token::CloseBrace, Position::new(6, 2, 4))));
    assert_eq!(lexer.next_token(), None);
    assert_eq!(lexer.next_token(), None);
}

#[test]
fn byte_offsets_count_utf8() {
    let mut lexer = Lexer::new("é$A");
    assert_eq!(lexer.next_token(), Some((Token::Text(String::from("é")), Position::new(0, 1, 1))));
    assert_eq!(lexer.next_token(), Some((Token::DollarSign, Position::new(2, 1, 2))));
}

#[test]
fn token_descriptions() {
    assert_eq!(Token::Text(String::from("a b")).describe(), "\"a b\"");
    assert_eq!(Token::Index(42).describe(), "42");
    assert_eq!(Token::Tilde.describe(), "'~'");
}

#[test]
fn index_parsing() {
    assert_eq!(parse_index(&vec!['1', '2', '3']), 123);
    assert_eq!(parse_index(&vec![]), 0);
    assert_eq!(parse_index(&"18446744073709551615".chars().collect()), usize::MAX);
    assert_eq!(parse_index(&"18446744073709551616".chars().collect()), 0);
    assert_eq!(parse_index(&vec!['٣']), 0);
}

#[test]
fn decimal_notation() {
    assert_eq!(decimal_string(0), "0");
    assert_eq!(decimal_string(907), "907");
    assert_eq!(decimal_string(usize::MAX), usize::MAX.to_string());
}

#[test]
fn error_from_position() {
    let e = Error::new(String::from("m"), &Position::new(4, 2, 3));
    assert_eq!(e, Error { message: String::from("m"), line: 2, col: 3 });
}

#[test]
fn evaluator_over_parsed_tree() {
    let mut parser = Parser::new(Lexer::new("${VAR^^}-${VAR,}"));
    let ast = parser.parse().unwrap();
    assert_eq!(
        ast,
        Ast::new(vec![
            Node::Param(Param::Simple {
                identifier: Identifier::Named(String::from("VAR")),
                modifier: Some(Modifier::Upper { all: true }),
            }),
            Node::Text(String::from("-")),
            Node::Param(Param::Simple {
                identifier: Identifier::Named(String::from("VAR")),
                modifier: Some(Modifier::Lower { all: false }),
            }),
        ])
    );
    let mut vars = HashMap::new();
    vars.insert(String::from("VAR"), String::from("Mixed"));
    let evaluator = Evaluator::new(false, Vec::new(), vars);
    assert_eq!(evaluator.eval(ast), Ok(String::from("MIXED-mixed")));
}

#[test]
fn iterating_a_lexer() {
    let mut tokens = Lexer::new("$A").into_iter();
    assert_eq!(tokens.next(), Some((Token::DollarSign, Position::new(0, 1, 1))));
    assert_eq!(tokens.next(), Some((Token::Identifier(String::from("A")), Position::new(1, 1, 2))));
    assert_eq!(tokens.next(), None);
}

#[test]
fn doubled_dollars_in_payloads() {
    let xpanda = Xpanda::default();
    assert_eq!(xpanda.expand("${VAR-a$$b}"), Ok(String::from("a$b")));
    assert_eq!(xpanda.expand("${VAR-$$a$$b$$}"), Ok(String::from("$a$b$")));
    assert_eq!(xpanda.expand("${VAR-a$$$$b}"), Ok(String::from("a$$b")));
    assert_eq!(xpanda.expand("${VAR?x$$y}"), err("x$y", 1, 1));
    assert_eq!(named(&[("VAR", "v")]).expand("${VAR+a$$b}"), Ok(String::from("a$b")));
}

#[test]
fn parser_payload_with_doubled_dollars() {
    let mut parser = Parser::new(Lexer::new("${VAR:-a$$b$$}"));
    assert_eq!(
        parser.parse(),
        Ok(Ast::new(vec![Node::Param(Param::WithDefault {
            identifier: Identifier::Named(String::from("VAR")),
            default: Box::new(Node::Text(String::from("a$b$"))),
            treat_empty_as_unset: true,
        })]))
    );
}

#[test]
fn var_file_lines() {
    let pairs = vars_of_file("A=1\n\n  \t\r\nB=x=y\r\nA=2").unwrap();
    assert_eq!(
        pairs,
        vec![
            (String::from("A"), String::from("1")),
            (String::from("B=x"), String::from("y")),
            (String::from("A"), String::from("2")),
        ]
    );
    assert_eq!(vars_of_file(""), Ok(Vec::new()));
    assert_eq!(vars_of_file("k = v\n"), Ok(vec![(String::from("k "), String::from(" v"))]));
    assert_eq!(
        vars_of_file("A=1\noops\nB"),
        Err(String::from("Failed to parse named arg: '=' character missing in key value pair"))
    );
}
