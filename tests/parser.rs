use xpanda::ast::{Ast, Identifier, Node, Param};
use xpanda::lexer::Lexer;
use xpanda::parser::Parser;

#[test]
fn parser_simple_index() {
    let lexer = Lexer::new("$1");
    let mut parser = Parser::new(lexer);

    assert_eq!(
        parser.parse(),
        Ok(Ast::new(vec![Node::Param(Param::Simple {
            identifier: Identifier::Indexed(1),
            modifier: None,
        })]))
    );
}

#[test]
fn parser_simple_index_text() {
    let lexer = Lexer::new("pre $1 post");
    let mut parser = Parser::new(lexer);

    assert_eq!(
        parser.parse(),
        Ok(Ast::new(vec![
            Node::Text(String::from("pre ")),
            Node::Param(Param::Simple {
                identifier: Identifier::Indexed(1),
                modifier: None,
            }),
            Node::Text(String::from(" post"))
        ]))
    );
}

#[test]
fn parser_simple_named() {
    let lexer = Lexer::new("$VAR");
    let mut parser = Parser::new(lexer);

    assert_eq!(
        parser.parse(),
        Ok(Ast::new(vec![Node::Param(Param::Simple {
            identifier: Identifier::Named(String::from("VAR")),
            modifier: None,
        })]))
    );
}

#[test]
fn parser_simple_named_text() {
    let lexer = Lexer::new("pre $VAR post");
    let mut parser = Parser::new(lexer);

    assert_eq!(
        parser.parse(),
        Ok(Ast::new(vec![
            Node::Text(String::from("pre ")),
            Node::Param(Param::Simple {
                identifier: Identifier::Named(String::from("VAR")),
                modifier: None,
            }),
            Node::Text(String::from(" post"))
        ]))
    );
}

#[test]
fn parser_braced_index() {
    let lexer = Lexer::new("${1}");
    let mut parser = Parser::new(lexer);

    assert_eq!(
        parser.parse(),
        Ok(Ast::new(vec![Node::Param(Param::Simple {
            identifier: Identifier::Indexed(1),
            modifier: None,
        })]))
    );
}

#[test]
fn parser_braced_index_text() {
    let lexer = Lexer::new("pre ${1} post");
    let mut parser = Parser::new(lexer);

    assert_eq!(
        parser.parse(),
        Ok(Ast::new(vec![
            Node::Text(String::from("pre ")),
            Node::Param(Param::Simple {
                identifier: Identifier::Indexed(1),
                modifier: None,
            }),
            Node::Text(String::from(" post"))
        ]))
    );
}

#[test]
fn parser_braced_named() {
    let lexer = Lexer::new("${VAR}");
    let mut parser = Parser::new(lexer);

    assert_eq!(
        parser.parse(),
        Ok(Ast::new(vec![Node::Param(Param::Simple {
            identifier: Identifier::Named(String::from("VAR")),
            modifier: None,
        })]))
    );
}

#[test]
fn parser_braced_named_text() {
    let lexer = Lexer::new("pre ${VAR} post");
    let mut parser = Parser::new(lexer);

    assert_eq!(
        parser.parse(),
        Ok(Ast::new(vec![
            Node::Text(String::from("pre ")),
            Node::Param(Param::Simple {
                identifier: Identifier::Named(String::from("VAR")),
                modifier: None,
            }),
            Node::Text(String::from(" post")),
        ]))
    );
}

#[test]
fn parser_default_index() {
    let lexer = Lexer::new("${1-default}");
    let mut parser = Parser::new(lexer);

    assert_eq!(
        parser.parse(),
        Ok(Ast::new(vec![Node::Param(Param::WithDefault {
            identifier: Identifier::Indexed(1),
            default: Box::new(Node::Text(String::from("default"))),
            treat_empty_as_unset: false,
        })]))
    );
}

#[test]
fn parser_default_named() {
    let lexer = Lexer::new("${VAR-default}");
    let mut parser = Parser::new(lexer);

    assert_eq!(
        parser.parse(),
        Ok(Ast::new(vec![Node::Param(Param::WithDefault {
            identifier: Identifier::Named(String::from("VAR")),
            default: Box::new(Node::Text(String::from("default"))),
            treat_empty_as_unset: false,
        })]))
    );
}

#[test]
fn parser_default_pattern() {
    let lexer = Lexer::new("${VAR-$DEF}");
    let mut parser = Parser::new(lexer);

    assert_eq!(
        parser.parse(),
        Ok(Ast::new(vec![Node::Param(Param::WithDefault {
            identifier: Identifier::Named(String::from("VAR")),
            default: Box::new(Node::Param(Param::Simple {
                identifier: Identifier::Named(String::from("DEF")),
                modifier: None,
            })),
            treat_empty_as_unset: false,
        })]))
    );
}

#[test]
fn parser_default_index_no_empty() {
    let lexer = Lexer::new("${1:-default}");
    let mut parser = Parser::new(lexer);

    assert_eq!(
        parser.parse(),
        Ok(Ast::new(vec![Node::Param(Param::WithDefault {
            identifier: Identifier::Indexed(1),
            default: Box::new(Node::Text(String::from("default"))),
            treat_empty_as_unset: true,
        })]))
    );
}

#[test]
fn parser_default_named_no_empty() {
    let lexer = Lexer::new("${VAR:-default}");
    let mut parser = Parser::new(lexer);

    assert_eq!(
        parser.parse(),
        Ok(Ast::new(vec![Node::Param(Param::WithDefault {
            identifier: Identifier::Named(String::from("VAR")),
            default: Box::new(Node::Text(String::from("default"))),
            treat_empty_as_unset: true,
        })]))
    );
}

#[test]
fn parser_default_pattern_no_empty() {
    let lexer = Lexer::new("${VAR:-$DEF}");
    let mut parser = Parser::new(lexer);

    assert_eq!(
        parser.parse(),
        Ok(Ast::new(vec![Node::Param(Param::WithDefault {
            identifier: Identifier::Named(String::from("VAR")),
            default: Box::new(Node::Param(Param::Simple {
                identifier: Identifier::Named(String::from("DEF")),
                modifier: None,
            })),
            treat_empty_as_unset: true,
        })]))
    );
}

#[test]
fn parser_alt_index() {
    let lexer = Lexer::new("${1+alt}");
    let mut parser = Parser::new(lexer);

    assert_eq!(
        parser.parse(),
        Ok(Ast::new(vec![Node::Param(Param::WithAlt {
            identifier: Identifier::Indexed(1),
            alt: Box::new(Node::Text(String::from("alt"))),
            treat_empty_as_unset: false,
        })]))
    );
}

#[test]
fn parser_alt_named() {
    let lexer = Lexer::new("${VAR+alt}");
    let mut parser = Parser::new(lexer);

    assert_eq!(
        parser.parse(),
        Ok(Ast::new(vec![Node::Param(Param::WithAlt {
            identifier: Identifier::Named(String::from("VAR")),
            alt: Box::new(Node::Text(String::from("alt"))),
            treat_empty_as_unset: false,
        })]))
    );
}

#[test]
fn parser_alt_pattern() {
    let lexer = Lexer::new("${VAR+$ALT}");
    let mut parser = Parser::new(lexer);

    assert_eq!(
        parser.parse(),
        Ok(Ast::new(vec![Node::Param(Param::WithAlt {
            identifier: Identifier::Named(String::from("VAR")),
            alt: Box::new(Node::Param(Param::Simple {
                identifier: Identifier::Named(String::from("ALT")),
                modifier: None,
            })),
            treat_empty_as_unset: false,
        })]))
    );
}

#[test]
fn parser_alt_index_no_empty() {
    let lexer = Lexer::new("${1:+alt}");
    let mut parser = Parser::new(lexer);

    assert_eq!(
        parser.parse(),
        Ok(Ast::new(vec![Node::Param(Param::WithAlt {
            identifier: Identifier::Indexed(1),
            alt: Box::new(Node::Text(String::from("alt"))),
            treat_empty_as_unset: true,
        })]))
    );
}

#[test]
fn parser_alt_named_no_empty() {
    let lexer = Lexer::new("${VAR:+alt}");
    let mut parser = Parser::new(lexer);

    assert_eq!(
        parser.parse(),
        Ok(Ast::new(vec![Node::Param(Param::WithAlt {
            identifier: Identifier::Named(String::from("VAR")),
            alt: Box::new(Node::Text(String::from("alt"))),
            treat_empty_as_unset: true,
        })]))
    );
}

#[test]
fn parser_alt_pattern_no_empty() {
    let lexer = Lexer::new("${VAR:+$ALT}");
    let mut parser = Parser::new(lexer);

    assert_eq!(
        parser.parse(),
        Ok(Ast::new(vec![Node::Param(Param::WithAlt {
            identifier: Identifier::Named(String::from("VAR")),
            alt: Box::new(Node::Param(Param::Simple {
                identifier: Identifier::Named(String::from("ALT")),
                modifier: None,
            })),
            treat_empty_as_unset: true
        })]))
    );
}

#[test]
fn parser_error_index() {
    let lexer = Lexer::new("${1?msg}");
    let mut parser = Parser::new(lexer);

    assert_eq!(
        parser.parse(),
        Ok(Ast::new(vec![Node::Param(Param::WithError {
            identifier: Identifier::Indexed(1),
            error: Some(String::from("msg")),
            treat_empty_as_unset: false
        })]))
    );
}

#[test]
fn parser_error_named() {
    let lexer = Lexer::new("${VAR?msg}");
    let mut parser = Parser::new(lexer);

    assert_eq!(
        parser.parse(),
        Ok(Ast::new(vec![Node::Param(Param::WithError {
            identifier: Identifier::Named(String::from("VAR")),
            error: Some(String::from("msg")),
            treat_empty_as_unset: false
        })]))
    );
}

#[test]
fn parser_error_index_no_empty() {
    let lexer = Lexer::new("${1:?msg}");
    let mut parser = Parser::new(lexer);

    assert_eq!(
        parser.parse(),
        Ok(Ast::new(vec![Node::Param(Param::WithError {
            identifier: Identifier::Indexed(1),
            error: Some(String::from("msg")),
            treat_empty_as_unset: true
        })]))
    );
}

#[test]
fn parser_error_named_no_empty() {
    let lexer = Lexer::new("${VAR:?msg}");
    let mut parser = Parser::new(lexer);

    assert_eq!(
        parser.parse(),
        Ok(Ast::new(vec![Node::Param(Param::WithError {
            identifier: Identifier::Named(String::from("VAR")),
            error: Some(String::from("msg")),
            treat_empty_as_unset: true
        })]))
    );
}

#[test]
fn parser_error_no_message() {
    let lexer = Lexer::new("${VAR?}");
    let mut parser = Parser::new(lexer);

    assert_eq!(
        parser.parse(),
        Ok(Ast::new(vec![Node::Param(Param::WithError {
            identifier: Identifier::Named(String::from("VAR")),
            error: None,
            treat_empty_as_unset: false
        })]))
    );
}

#[test]
fn parser_error_no_message_no_empty() {
    let lexer = Lexer::new("${VAR:?}");
    let mut parser = Parser::new(lexer);

    assert_eq!(
        parser.parse(),
        Ok(Ast::new(vec![Node::Param(Param::WithError {
            identifier: Identifier::Named(String::from("VAR")),
            error: None,
            treat_empty_as_unset: true
        })]))
    );
}

#[test]
fn parser_len_index() {
    let lexer = Lexer::new("${#1}");
    let mut parser = Parser::new(lexer);

    assert_eq!(
        parser.parse(),
        Ok(Ast::new(vec![Node::Param(Param::Length {
            identifier: Identifier::Indexed(1)
        })]))
    );
}

#[test]
fn parser_len_named() {
    let lexer = Lexer::new("${#VAR}");
    let mut parser = Parser::new(lexer);

    assert_eq!(
        parser.parse(),
        Ok(Ast::new(vec![Node::Param(Param::Length {
            identifier: Identifier::Named(String::from("VAR"))
        })]))
    );
}

#[test]
fn arity() {
    let lexer = Lexer::new("${#}");
    let mut parser = Parser::new(lexer);

    assert_eq!(
        parser.parse(),
        Ok(Ast::new(vec![Node::Param(Param::Arity)]))
    );
}

#[test]
fn ref_index() {
    let lexer = Lexer::new("${!1}");
    let mut parser = Parser::new(lexer);

    assert_eq!(
        parser.parse(),
        Ok(Ast::new(vec![Node::Param(Param::Ref {
            identifier: Identifier::Indexed(1)
        })]))
    );
}

#[test]
fn ref_named() {
    let lexer = Lexer::new("${!VAR}");
    let mut parser = Parser::new(lexer);

    assert_eq!(
        parser.parse(),
        Ok(Ast::new(vec![Node::Param(Param::Ref {
            identifier: Identifier::Named(String::from("VAR"))
        })]))
    );
}

#[test]
fn simple_escaped() {
    let lexer = Lexer::new("$${VAR");
    let mut parser = Parser::new(lexer);

    assert_eq!(
        parser.parse(),
        Ok(Ast::new(vec![Node::Text(String::from("${VAR"))]))
    );

    let lexer = Lexer::new("$$VAR$$");
    let mut parser = Parser::new(lexer);

    assert_eq!(
        parser.parse(),
        Ok(Ast::new(vec![Node::Text(String::from("$VAR$"))]))
    );
}

#[test]
fn pattern_escaped() {
    let lexer = Lexer::new("${VAR:-$$woop}");
    let mut parser = Parser::new(lexer);

    assert_eq!(
        parser.parse(),
        Ok(Ast::new(vec![Node::Param(Param::WithDefault {
            identifier: Identifier::Named(String::from("VAR")),
            default: Box::new(Node::Text(String::from("$woop"))),
            treat_empty_as_unset: true,
        })]))
    );
}

#[test]
fn parser_multiline() {
    let lexer = Lexer::new("$1 woop\n${VAR}");
    let mut parser = Parser::new(lexer);

    assert_eq!(
        parser.parse(),
        Ok(Ast::new(vec![
            Node::Param(Param::Simple {
                identifier: Identifier::Indexed(1),
                modifier: None,
            }),
            Node::Text(String::from(" woop\n")),
            Node::Param(Param::Simple {
                identifier: Identifier::Named(String::from("VAR")),
                modifier: None,
            })
        ]))
    );
}
