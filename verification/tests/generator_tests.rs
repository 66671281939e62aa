use askama_derive::ast::Macro;
use askama_derive::errors::GenError;
use askama_derive::generator::generate;
use askama_derive::input::{EscapeMode, Field, Loader, TemplateInput};
use askama_derive::parser::parse;
use askama_derive::state::{trait_name_for_path, State};

fn chars(s: &str) -> Vec<char> {
    s.chars().collect()
}

fn text(v: &Vec<char>) -> String {
    v.iter().collect()
}

fn default_filters() -> Vec<Vec<char>> {
    ["e", "escape", "format", "join", "lower", "lowercase", "safe", "trim", "truncate", "upper",
        "uppercase"]
        .iter()
        .map(|s| chars(s))
        .collect()
}

fn plain_input(escaping: EscapeMode) -> TemplateInput {
    TemplateInput {
        ident: chars("Ctx"),
        impl_generics: chars(""),
        ty_generics: chars(""),
        where_clause: chars(""),
        named_struct: true,
        fields: vec![],
        path: chars("tpl.html"),
        escaping,
    }
}

fn empty_loader() -> Loader {
    Loader { entries: vec![] }
}

fn compile(src: &str, input: TemplateInput, loader: Loader) -> Result<String, GenError> {
    let nodes = parse(src).expect("template must parse");
    let imported: Vec<(Option<Vec<char>>, Vec<char>, Macro)> = vec![];
    generate(input, nodes, imported, loader, default_filters()).map(|v| text(&v))
}

/// The literal texts the emitted source writes to the sink, in order,
/// unescaped.
fn writes(out: &str) -> Vec<String> {
    let mut res = Vec::new();
    let mut rest = out;
    while let Some(p) = rest.find("writer.write_str(\"") {
        rest = &rest[p + "writer.write_str(\"".len()..];
        let end = rest.find("\")?;").expect("unterminated write");
        let raw = &rest[..end];
        let mut s = String::new();
        let mut it = raw.chars();
        while let Some(c) = it.next() {
            if c == '\\' {
                match it.next() {
                    Some('n') => s.push('\n'),
                    Some('t') => s.push('\t'),
                    Some('r') => s.push('\r'),
                    Some(other) => s.push(other),
                    None => {},
                }
            } else {
                s.push(c);
            }
        }
        res.push(s);
        rest = &rest[end..];
    }
    res
}

#[test]
fn hello_literal() {
    let out = compile("hello", plain_input(EscapeMode::Off), empty_loader()).unwrap();
    assert_eq!(writes(&out), vec!["hello"]);
    assert!(out.contains("fn render_into(&self, writer: &mut ::std::fmt::Write)"));
    assert!(out.contains("impl ::askama::Template for Ctx {"));
    assert!(out.contains("impl ::std::fmt::Display for Ctx {"));
}

#[test]
fn expression_reads_host_field() {
    let out = compile("{{ name }}", plain_input(EscapeMode::Off), empty_loader()).unwrap();
    assert!(out.contains("let askama_expr = &self.name;"));
    assert!(out.contains("writer.write_fmt(format_args!(\"{}\", askama_expr))?;"));
    assert!(!out.contains("MarkupDisplay"));
}

#[test]
fn html_escaping_wraps_expressions() {
    let out = compile("{{ name }}", plain_input(EscapeMode::Html), empty_loader()).unwrap();
    assert!(out.contains(
        "writer.write_fmt(format_args!(\"{}\", &::askama::MarkupDisplay::from(askama_expr)))?;"
    ));
}

#[test]
fn safe_filter_suppresses_escaping() {
    let out = compile("{{ name|safe }}", plain_input(EscapeMode::Html), empty_loader()).unwrap();
    assert!(out.contains("::askama::filters::safe(&self.name)?"));
    assert!(!out.contains("MarkupDisplay"));
}

#[test]
fn unknown_filter_goes_to_user_namespace() {
    let out = compile("{{ name|shout }}", plain_input(EscapeMode::Off), empty_loader()).unwrap();
    assert!(out.contains("filters::shout(&self.name)?"));
    assert!(!out.contains("::askama::filters::shout"));
}

#[test]
fn loop_with_index() {
    let out = compile(
        "{% for x in xs %}{{ loop.index }}:{{ x }};{% endfor %}",
        plain_input(EscapeMode::Off),
        empty_loader(),
    )
        .unwrap();
    assert!(out.contains("for (_loop_index, x) in (&self.xs).into_iter().enumerate() {"));
    assert!(out.contains("let askama_expr = &_loop_index + 1;"));
    assert!(out.contains("let askama_expr = &x;"));
    let w = writes(&out);
    assert_eq!(w, vec![":", ";"]);
}

#[test]
fn loop_index0_is_zero_based() {
    let out = compile(
        "{% for x in xs %}{{ loop.index0 }}{% endfor %}",
        plain_input(EscapeMode::Off),
        empty_loader(),
    )
        .unwrap();
    assert!(out.contains("let askama_expr = &_loop_index;"));
}

#[test]
fn unknown_loop_attribute_is_rejected() {
    let nodes = parse("{% for x in xs %}{{ loop.limit }}{% endfor %}").unwrap();
    let r = generate(
        plain_input(EscapeMode::Off),
        nodes,
        vec![],
        empty_loader(),
        default_filters(),
    );
    assert_eq!(r.err(), Some(GenError::UnknownLoopAttribute));
}

#[test]
fn whitespace_sigils_suppress_adjacent_runs() {
    let out = compile(
        "a  {%- if true -%}  b  {%- endif -%}  c",
        plain_input(EscapeMode::Off),
        empty_loader(),
    )
        .unwrap();
    assert_eq!(writes(&out), vec!["a", "b", "c"]);
}

#[test]
fn whitespace_without_sigils_is_kept() {
    let out = compile("A {{ x }} B", plain_input(EscapeMode::Off), empty_loader()).unwrap();
    assert_eq!(writes(&out), vec!["A", " ", " ", "B"]);
}

#[test]
fn pre_sigil_drops_preceding_run() {
    let out = compile("A{{- x }}B", plain_input(EscapeMode::Off), empty_loader()).unwrap();
    assert_eq!(writes(&out), vec!["A", "B"]);
    let out2 = compile("A {{ x -}} B", plain_input(EscapeMode::Off), empty_loader()).unwrap();
    assert_eq!(writes(&out2), vec!["A", " ", "B"]);
}

#[test]
fn macro_call_binds_parameters() {
    let out = compile(
        "{% macro greet(n) %}Hi {{ n }}{% endmacro %}{% call greet(\"there\") %}",
        plain_input(EscapeMode::Off),
        empty_loader(),
    )
        .unwrap();
    assert!(out.contains("let n = &\"there\";"));
    assert!(out.contains("let askama_expr = &n;"));
    assert_eq!(writes(&out), vec!["Hi", " "]);
}

#[test]
fn unknown_macro_is_rejected() {
    let nodes = parse("{% call nope() %}").unwrap();
    let r = generate(
        plain_input(EscapeMode::Off),
        nodes,
        vec![],
        empty_loader(),
        default_filters(),
    );
    assert_eq!(r.err(), Some(GenError::UnknownMacro));
}

#[test]
fn inheritance_child_dispatches_through_parent() {
    let mut input = plain_input(EscapeMode::Off);
    input.fields = vec![Field { name: chars("_parent"), ty: chars("Base") }];
    input.path = chars("child.html");
    let loader = Loader {
        entries: vec![(chars("base"), chars("base.html"), chars(
            "[{% block body %}base{% endblock %}]",
        ))],
    };
    let out = compile(
        "{% extends \"base\" %}{% block body %}child{% endblock %}",
        input,
        loader,
    )
        .unwrap();
    assert!(out.contains("self._parent.render_trait_into(self, writer)"));
    assert!(out.contains("impl ::std::ops::Deref for Ctx {"));
    assert!(out.contains("type Target = Base;"));
    assert!(out.contains("fn render_block_body_into"));
    assert_eq!(writes(&out), vec!["child"]);
    let tn = text(&trait_name_for_path(&chars("base.html")));
    assert!(out.contains(&tn));
}

#[test]
fn inheritance_base_defines_trait_and_renders_blocks() {
    let mut input = plain_input(EscapeMode::Off);
    input.path = chars("base.html");
    let out = compile(
        "[{% block body %}base{% endblock %}]",
        input,
        empty_loader(),
    )
        .unwrap();
    let tn = text(&trait_name_for_path(&chars("base.html")));
    assert!(out.contains(&format!("pub trait {} {{", tn)));
    assert!(out.contains("timpl.render_block_body_into(writer)?;"));
    assert!(out.contains("self.render_trait_into(self, writer)"));
    // the block body is emitted twice: once as the trait's default renderer
    // and once in the host's implementation
    let w = writes(&out);
    assert_eq!(w, vec!["base", "base", "[", "]"]);
}

#[test]
fn missing_parent_field_is_rejected() {
    let input = plain_input(EscapeMode::Off);
    let loader = Loader {
        entries: vec![(chars("base"), chars("base.html"), chars("x"))],
    };
    let nodes = parse("{% extends \"base\" %}{% block b %}y{% endblock %}").unwrap();
    let r = generate(input, nodes, vec![], loader, default_filters());
    assert_eq!(r.err(), Some(GenError::MissingParentField));
}

#[test]
fn two_extends_directives_are_rejected() {
    let nodes = parse("{% extends \"a\" %}{% extends \"b\" %}").unwrap();
    let r = State::new(
        plain_input(EscapeMode::Off),
        nodes,
        vec![],
        empty_loader(),
        default_filters(),
    );
    assert_eq!(r.err(), Some(GenError::MultipleExtends));
}

#[test]
fn include_splices_child_output() {
    let loader = Loader {
        entries: vec![(chars("inc"), chars("inc.html"), chars("INC"))],
    };
    let out = compile("x{% include \"inc\" %}y", plain_input(EscapeMode::Off), loader).unwrap();
    assert_eq!(writes(&out), vec!["x", "INC", "y"]);
}

#[test]
fn include_of_unknown_template_is_rejected() {
    let nodes = parse("{% include \"nope\" %}").unwrap();
    let r = generate(
        plain_input(EscapeMode::Off),
        nodes,
        vec![],
        empty_loader(),
        default_filters(),
    );
    assert_eq!(r.err(), Some(GenError::TemplateNotFound));
}

#[test]
fn nested_block_definition_is_rejected() {
    let nodes = parse("{% if a %}{% block b %}x{% endblock %}{% endif %}").unwrap();
    let r = generate(
        plain_input(EscapeMode::Off),
        nodes,
        vec![],
        empty_loader(),
        default_filters(),
    );
    assert_eq!(r.err(), Some(GenError::NestedBlockDef));
}

#[test]
fn filter_argument_is_lifted_into_temporary() {
    let out = compile("{{ a|f(b|g) }}", plain_input(EscapeMode::Off), empty_loader()).unwrap();
    assert!(out.contains("let var0 = filters::g(&self.b)?;"));
    assert!(out.contains("filters::f(&self.a, &var0)?"));
}

#[test]
fn match_emission_binds_by_reference() {
    let out = compile(
        "{% match x %}{% when Some with (v) %}{{ v }}{% else %}n{% endmatch %}",
        plain_input(EscapeMode::Off),
        empty_loader(),
    )
        .unwrap();
    assert!(out.contains("match (&self.x).deref() {"));
    assert!(out.contains("&Some(ref v) => {"));
    assert!(out.contains("let askama_expr = &v;"));
    assert_eq!(writes(&out), vec!["n"]);
}

#[test]
fn let_declares_then_assigns() {
    let out = compile(
        "{% let y %}{% let y = x %}{% let z = 1 %}",
        plain_input(EscapeMode::Off),
        empty_loader(),
    )
        .unwrap();
    assert!(out.contains("let y;"));
    assert!(out.contains("y = self.x;"));
    assert!(out.contains("let z = 1;"));
}

#[test]
fn emitted_literal_text_is_escaped() {
    let out = compile("a\"b\\c\n", plain_input(EscapeMode::Off), empty_loader()).unwrap();
    assert!(out.contains("writer.write_str(\"a\\\"b\\\\c\")?;"));
    assert!(out.contains("writer.write_str(\"\\n\")?;"));
}

#[test]
fn trait_name_encodes_path() {
    assert_eq!(text(&trait_name_for_path(&chars("a.html"))), "TraitFroma002ehtml");
    assert_eq!(text(&trait_name_for_path(&chars("Ab9"))), "TraitFromAb9");
}

#[test]
fn join_filter_coerces_its_subject() {
    let out = compile("{{ xs|join(\", \") }}", plain_input(EscapeMode::Off), empty_loader())
        .unwrap();
    assert!(out.contains("::askama::filters::join((&self.xs).into_iter(), &\", \")?"));
}

#[test]
fn format_filter_becomes_format_invocation() {
    let out = compile(
        "{{ \"{:?}\"|format(x) }}",
        plain_input(EscapeMode::Off),
        empty_loader(),
    )
        .unwrap();
    assert!(out.contains("format!(\"{:?}\", &self.x)"));
}

#[test]
fn nested_blocks_are_hoisted_and_rendered_in_place() {
    let mut input = plain_input(EscapeMode::Off);
    input.path = chars("base.html");
    let out = compile(
        "{% block a %}1{% block b %}2{% endblock %}3{% endblock %}",
        input,
        empty_loader(),
    )
        .unwrap();
    // both blocks get renderers, and the outer block renders the inner one
    // at its original position
    assert!(out.contains("fn render_block_a_into"));
    assert!(out.contains("fn render_block_b_into"));
    assert!(out.contains("self.render_block_b_into(writer)?;"));
}

#[test]
fn recursive_macro_calls_hit_the_nesting_bound() {
    let nodes = parse("{% macro a() %}{% call a() %}{% endmacro %}{% call a() %}").unwrap();
    let r = generate(
        plain_input(EscapeMode::Off),
        nodes,
        vec![],
        empty_loader(),
        default_filters(),
    );
    assert_eq!(r.err(), Some(GenError::RecursionLimit));
}

#[test]
fn elif_chain_emits_else_if() {
    let out = compile(
        "{% if a %}x{% elif b %}y{% else %}z{% endif %}",
        plain_input(EscapeMode::Off),
        empty_loader(),
    )
        .unwrap();
    assert!(out.contains("if self.a {"));
    assert!(out.contains("} else if self.b {"));
    assert!(out.contains("} else {"));
    assert_eq!(writes(&out), vec!["x", "y", "z"]);
}

#[test]
fn imported_macro_is_called_through_its_scope() {
    let nodes = parse("{% import \"lib\" as helpers %}{% call helpers::hi() %}").unwrap();
    let mac = match parse("{% macro hi() %}!{% endmacro %}").unwrap().remove(0) {
        askama_derive::ast::Node::Macro(_, m) => m,
        _ => panic!("expected a macro"),
    };
    let imported = vec![(Some(chars("helpers")), chars("hi"), mac)];
    let out = generate(
        plain_input(EscapeMode::Off),
        nodes,
        imported,
        empty_loader(),
        default_filters(),
    )
        .map(|v| text(&v))
        .unwrap();
    assert_eq!(writes(&out), vec!["!"]);
}
