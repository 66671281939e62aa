use askama_derive::ast::{Expr, Node, WS};
use askama_derive::errors::ParseError;
use askama_derive::parser::{parse, split_ws_parts};

fn chars(s: &str) -> Vec<char> {
    s.chars().collect()
}

fn text(v: &Vec<char>) -> String {
    v.iter().collect()
}

fn check_ws_split(s: &str, res: &(&str, &str, &str)) {
    let node = split_ws_parts(&chars(s));
    match node {
        Node::Lit(lws, body, rws) => {
            assert_eq!(text(&lws), res.0);
            assert_eq!(text(&body), res.1);
            assert_eq!(text(&rws), res.2);
        },
        _ => {
            panic!("fail");
        },
    }
}

#[test]
fn test_ws_splitter() {
    check_ws_split("", &("", "", ""));
    check_ws_split("a", &("", "a", ""));
    check_ws_split("\ta", &("\t", "a", ""));
    check_ws_split("b\n", &("", "b", "\n"));
    check_ws_split(" \t\r\n", &(" \t\r\n", "", ""));
}

#[test]
fn test_invalid_block() {
    // `extend` is not a statement form, so the directive cannot be parsed
    assert!(parse("{% extend \"blah\" %}").is_err());
}

#[test]
fn empty_template_is_one_empty_literal() {
    let nodes = parse("").unwrap();
    assert_eq!(nodes.len(), 1);
    assert_eq!(nodes[0], Node::Lit(chars(""), chars(""), chars("")));
}

#[test]
fn literal_round_trip() {
    // the literal chunks between directives keep every character of the
    // source, split into leading whitespace, body and trailing whitespace
    let nodes = parse("  a b \t{# c #} x ").unwrap();
    let mut rebuilt = String::new();
    for n in &nodes {
        if let Node::Lit(lws, body, rws) = n {
            rebuilt.push_str(&text(lws));
            rebuilt.push_str(&text(body));
            rebuilt.push_str(&text(rws));
        }
    }
    assert_eq!(rebuilt, "  a b \t x ");
}

#[test]
fn expression_node() {
    let nodes = parse("{{ name }}").unwrap();
    assert_eq!(nodes.len(), 1);
    assert_eq!(
        nodes[0],
        Node::Expr(WS(false, false), Expr::Var(chars("name")))
    );
}

#[test]
fn expression_sigils() {
    let nodes = parse("{{- name -}}").unwrap();
    assert_eq!(
        nodes[0],
        Node::Expr(WS(true, true), Expr::Var(chars("name")))
    );
}

#[test]
fn binary_operators_associate_to_the_right() {
    // the grammar re-parses the right operand from the loosest level, so
    // chains of one level associate to the right
    let nodes = parse("{{ a - b - c }}").unwrap();
    let expected = Expr::BinOp(
        chars("-"),
        Box::new(Expr::Var(chars("a"))),
        Box::new(Expr::BinOp(
            chars("-"),
            Box::new(Expr::Var(chars("b"))),
            Box::new(Expr::Var(chars("c"))),
        )),
    );
    assert_eq!(nodes[0], Node::Expr(WS(false, false), expected));
}

#[test]
fn filter_chain_subject_is_first_argument() {
    let nodes = parse("{{ a|f(b) }}").unwrap();
    let expected = Expr::Filter(
        chars("f"),
        vec![Expr::Var(chars("a")), Expr::Var(chars("b"))],
    );
    assert_eq!(nodes[0], Node::Expr(WS(false, false), expected));
}

#[test]
fn attribute_and_method_chain() {
    let nodes = parse("{{ a.b.c(1) }}").unwrap();
    let expected = Expr::MethodCall(
        Box::new(Expr::Attr(
            Box::new(Expr::Var(chars("a"))),
            chars("b"),
        )),
        chars("c"),
        vec![Expr::NumLit(chars("1"))],
    );
    assert_eq!(nodes[0], Node::Expr(WS(false, false), expected));
}

#[test]
fn path_expression() {
    let nodes = parse("{{ a::b::c }}").unwrap();
    let expected = Expr::Path(vec![chars("a"), chars("b"), chars("c")]);
    assert_eq!(nodes[0], Node::Expr(WS(false, false), expected));
}

#[test]
fn unclosed_expression_is_rejected() {
    assert!(parse("{{ x").is_err());
    assert!(parse("{{ x }").is_err());
}

#[test]
fn unclosed_statement_is_rejected() {
    assert!(parse("{% if x %}y").is_err());
    assert!(parse("{% if x ").is_err());
}

#[test]
fn unclosed_comment_is_rejected() {
    assert!(parse("{# boo").is_err());
}

#[test]
fn comment_sigils() {
    let nodes = parse("{#- hi -#}").unwrap();
    assert_eq!(nodes[0], Node::Comment(WS(true, true)));
    let nodes = parse("{# hi #}").unwrap();
    assert_eq!(nodes[0], Node::Comment(WS(false, false)));
}

#[test]
fn conditional_with_elif_and_else() {
    let nodes = parse("{% if a %}x{% elif b %}y{% else %}z{% endif %}").unwrap();
    match &nodes[0] {
        Node::Cond(arms, _) => {
            assert_eq!(arms.len(), 3);
            assert!(arms[0].1.is_some());
            assert!(arms[1].1.is_some());
            assert!(arms[2].1.is_none());
        },
        _ => panic!("expected a conditional"),
    }
}

#[test]
fn match_rejects_stray_text_before_first_arm() {
    let r = parse("{% match x %}boo{% when y %}v{% endmatch %}");
    match r {
        Err(ParseError::MatchNonWhitespace(_)) => {},
        other => panic!("expected the stray-text error, got {:?}", other),
    }
}

#[test]
fn match_with_parameters_and_else() {
    let nodes = parse("{% match x %} {% when Some with (v) %}{{ v }}{% else %}n{% endmatch %}")
        .unwrap();
    match &nodes[0] {
        Node::Match(_, _, inter, arms, _) => {
            assert_eq!(inter.as_ref().map(text), Some(" ".to_string()));
            assert_eq!(arms.len(), 2);
            assert_eq!(arms[0].2.len(), 1);
            assert!(arms[1].1.is_none());
        },
        _ => panic!("expected a match"),
    }
}

#[test]
fn macro_definition_and_call() {
    let nodes = parse("{% macro greet(n) %}Hi {{ n }}{% endmacro %}{% call greet(\"there\") %}")
        .unwrap();
    match &nodes[0] {
        Node::Macro(name, m) => {
            assert_eq!(text(name), "greet");
            assert_eq!(m.args.len(), 1);
            assert_eq!(text(&m.args[0]), "n");
        },
        _ => panic!("expected a macro definition"),
    }
    match &nodes[1] {
        Node::Call(_, scope, name, args) => {
            assert!(scope.is_none());
            assert_eq!(text(name), "greet");
            assert_eq!(args.len(), 1);
        },
        _ => panic!("expected a call"),
    }
}

#[test]
fn block_with_repeated_closing_name() {
    let nodes = parse("{% block body %}x{% endblock body %}").unwrap();
    match &nodes[0] {
        Node::BlockDef(_, name, body, _) => {
            assert_eq!(text(name), "body");
            assert_eq!(body.len(), 1);
        },
        _ => panic!("expected a block definition"),
    }
}

#[test]
fn extends_include_import_forms() {
    let nodes = parse("{% extends \"base\" %}{% include \"side\" %}{% import \"lib\" as helpers %}")
        .unwrap();
    assert_eq!(nodes[0], Node::Extends(Expr::StrLit(chars("base"))));
    assert_eq!(nodes[1], Node::Include(WS(false, false), chars("side")));
    assert_eq!(
        nodes[2],
        Node::Import(WS(false, false), chars("lib"), chars("helpers"))
    );
}

#[test]
fn comment_trailing_sigil_needs_preceding_content() {
    // a lone `-` after the opening sigil does not also set the trailing one
    let nodes = parse("{#--#}").unwrap();
    assert_eq!(nodes[0], Node::Comment(WS(true, false)));
    let nodes = parse("{# x -#}").unwrap();
    assert_eq!(nodes[0], Node::Comment(WS(false, true)));
}

#[test]
fn array_literal_and_group() {
    let nodes = parse("{{ [a, 1] }}").unwrap();
    assert_eq!(
        nodes[0],
        Node::Expr(
            WS(false, false),
            Expr::Array(vec![Expr::Var(chars("a")), Expr::NumLit(chars("1"))])
        )
    );
    let nodes = parse("{{ (a) }}").unwrap();
    assert_eq!(
        nodes[0],
        Node::Expr(
            WS(false, false),
            Expr::Group(Box::new(Expr::Var(chars("a"))))
        )
    );
}

#[test]
fn unary_operator() {
    let nodes = parse("{{ !a }}").unwrap();
    assert_eq!(
        nodes[0],
        Node::Expr(
            WS(false, false),
            Expr::Unary(chars("!"), Box::new(Expr::Var(chars("a"))))
        )
    );
}
