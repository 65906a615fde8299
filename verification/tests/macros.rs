use rustdv::macros::component_derive::{derive_component, make_field, parse_struct};
use rustdv::macros::test_attr::{
    find_fn_name, parse_test_opts, strip_quotes, OptsError, TestAttrError,
};
use rustdv::macros::tokens::{Delim, Token, TokenKind};
use rustdv::text::parse_u64;

fn ident(s: &str) -> Token {
    Token { kind: TokenKind::Ident, text: s.to_string() }
}

fn punct(c: char) -> Token {
    Token { kind: TokenKind::Punct(c), text: c.to_string() }
}

fn lit(s: &str) -> Token {
    Token { kind: TokenKind::Literal, text: s.to_string() }
}

fn group(d: Delim, children: Vec<Token>, inner: &str, text: &str) -> Token {
    Token { kind: TokenKind::Group(d, children, inner.to_string()), text: text.to_string() }
}

#[test]
fn test_options_are_read_from_the_attribute() {
    let attr = vec![
        ident("name"),
        punct('='),
        lit("\"my_test\""),
        punct(','),
        ident("timeout_time"),
        punct('='),
        lit("100"),
        punct(','),
        ident("timeout_unit"),
        punct('='),
        lit("\"us\""),
        punct(','),
        ident("skip"),
        punct(','),
        ident("expect_fail"),
        punct('='),
        ident("false"),
    ];
    let o = parse_test_opts(&attr).ok().unwrap();
    assert_eq!(o.name.as_deref(), Some("my_test"));
    assert_eq!(o.timeout_time, Some(100));
    assert_eq!(o.timeout_unit.as_deref(), Some("us"));
    assert!(o.skip);
    assert!(!o.expect_fail);
}

#[test]
fn bad_test_options_are_refused_with_their_reason() {
    let e = parse_test_opts(&vec![ident("colour")]).err().unwrap();
    assert_eq!(e.message().unwrap(), "unknown #[rustdv::test] option 'colour'");
    let e = parse_test_opts(&vec![ident("timeout_time")]).err().unwrap();
    assert_eq!(e.message().unwrap(), "timeout_time needs a value");
    let e = parse_test_opts(&vec![ident("timeout_time"), punct('='), lit("1_000")]).err().unwrap();
    assert_eq!(e.message().unwrap(), "bad timeout_time '1_000'");
    let e = parse_test_opts(&vec![lit("\"x\"")]).err().unwrap();
    assert_eq!(e.message().unwrap(), "unexpected token in #[rustdv::test(...)]: \"x\"");
    match parse_test_opts(&vec![ident("name"), punct('=')]).err().unwrap() {
        OptsError::ExpectedValue { key, got } => {
            assert_eq!(key, "name");
            assert_eq!(got, None);
        }
        _ => panic!("expected a missing value"),
    }
    match parse_test_opts(&vec![ident("name"), punct('='), punct('=')]).err().unwrap() {
        OptsError::ExpectedValue { got, .. } => assert_eq!(got, Some(2)),
        _ => panic!("expected a missing value"),
    }
}

#[test]
fn the_marked_function_is_found_after_fn() {
    let item = vec![
        ident("pub"),
        ident("async"),
        ident("fn"),
        ident("smoke"),
        group(Delim::Paren, vec![], "ctx : TestCtx", "(ctx : TestCtx)"),
    ];
    assert_eq!(find_fn_name(&item).as_deref(), Some("smoke"));
    assert_eq!(find_fn_name(&vec![ident("struct"), ident("S")]), None);
    assert_eq!(find_fn_name(&vec![ident("fn"), punct('<')]), None);
}

#[test]
fn a_test_registers_under_its_name_with_a_default_unit() {
    let item = vec![ident("async"), ident("fn"), ident("smoke")];
    let reg = rustdv::macros::test_attr::test(&vec![ident("timeout_time"), punct('='), lit("5")], &item).ok().unwrap();
    assert_eq!(reg.fn_name, "smoke");
    assert_eq!(reg.test_name, "smoke");
    assert_eq!(reg.timeout, Some((5, "ns".to_string())));
    assert!(!reg.skip && !reg.expect_fail);
    let reg = rustdv::macros::test_attr::test(&vec![ident("name"), punct('='), lit("\"other\"")], &item).ok().unwrap();
    assert_eq!(reg.test_name, "other");
    assert_eq!(reg.timeout, None);
    let e = rustdv::macros::test_attr::test(&vec![], &vec![ident("struct"), ident("S")]).err().unwrap();
    assert!(matches!(e, TestAttrError::NotAFunction));
    assert_eq!(e.message().unwrap(), "#[rustdv::test] must be applied to an async fn");
}

#[test]
fn quotes_and_numbers_are_read_as_the_standard_library_reads_them() {
    assert_eq!(strip_quotes("\"abc\""), "abc");
    assert_eq!(strip_quotes("\"\""), "");
    assert_eq!(strip_quotes("plain"), "plain");
    assert_eq!(parse_u64("+12"), Some(12));
    assert_eq!(parse_u64("18446744073709551615"), Some(u64::MAX));
    assert_eq!(parse_u64("18446744073709551616"), None);
    assert_eq!(parse_u64(""), None);
    assert_eq!(parse_u64("+"), None);
    assert_eq!(parse_u64("-1"), None);
    assert_eq!(parse_u64("12a"), None);
}

fn env_struct() -> Vec<Token> {
    let fields = vec![
        punct('#'),
        group(Delim::Bracket, vec![], "component(child)", "[component(child)]"),
        ident("pub"),
        ident("agent"),
        punct(':'),
        ident("Agent"),
        punct('<'),
        ident("T"),
        punct('>'),
        punct(','),
        ident("pub"),
        ident("count"),
        punct(':'),
        ident("u32"),
        punct(','),
        punct('#'),
        group(Delim::Bracket, vec![], "component(child)", "[component(child)]"),
        ident("kids"),
        punct(':'),
        ident("Vec"),
        punct('<'),
        ident("Kid"),
        punct('>'),
        punct(','),
        punct('#'),
        group(Delim::Bracket, vec![], "component(child)", "[component(child)]"),
        ident("spare"),
        punct(':'),
        ident("Option"),
        punct('<'),
        ident("Kid"),
        punct('>'),
    ];
    vec![
        ident("pub"),
        ident("struct"),
        ident("Env"),
        punct('<'),
        ident("T"),
        punct(':'),
        ident("Tester"),
        punct('+'),
        punct('\''),
        ident("static"),
        punct('>'),
        group(Delim::Brace, fields, "", "{ }"),
    ]
}

#[test]
fn a_component_struct_is_read_with_its_generics_and_children() {
    let (name, ig, tp, fields) = parse_struct(&env_struct()).unwrap();
    assert_eq!(name, "Env");
    assert_eq!(ig, "< T : Tester + 'static >");
    assert_eq!(tp, "< T >");
    assert_eq!(fields.len(), 4);
    assert_eq!((fields[0].name.as_str(), fields[0].ty.as_str(), fields[0].is_child), ("agent", "Agent < T >", true));
    assert_eq!((fields[1].name.as_str(), fields[1].ty.as_str(), fields[1].is_child), ("count", "u32", false));
    assert_eq!((fields[2].name.as_str(), fields[2].ty.as_str(), fields[2].is_child), ("kids", "Vec < Kid >", true));
    assert_eq!(fields[3].name, "spare");
}

#[test]
fn the_derive_visits_each_child_by_its_shape() {
    let out = derive_component(&env_struct()).unwrap();
    assert!(out.starts_with("\nimpl < T : Tester + 'static > ::rustdv::ComponentNode for Env < T > {\n"));
    assert!(out.contains("fn node_name(&self) -> &'static str { \"Env\" }"));
    assert!(out.contains("f(\"agent\", &mut self.agent);\n"));
    assert!(out.contains("for (__i, __c) in self.kids.iter_mut().enumerate() { let __n = ::std::format!(\"kids[{}]\", __i); f(&__n, __c); }\n"));
    assert!(out.contains("if let ::core::option::Option::Some(__c) = &mut self.spare { f(\"spare\", __c); }\n"));
    assert!(!out.contains("self.count"));
    assert!(out.ends_with("\n    }\n}\n"));
}

#[test]
fn what_the_derive_cannot_read_is_reported() {
    assert_eq!(
        derive_component(&vec![ident("enum"), ident("E")]),
        Err("#[derive(Component)] supports only structs".to_string())
    );
    assert_eq!(
        derive_component(&vec![ident("struct"), punct('<')]),
        Err("expected struct name".to_string())
    );
    assert_eq!(
        derive_component(&vec![ident("struct"), ident("U"), punct(';')]),
        Err("#[derive(Component)] requires named fields".to_string())
    );
    let tuple_like = vec![ident("struct"), ident("T"), group(Delim::Brace, vec![ident("a")], "a", "{ a }")];
    assert_eq!(
        derive_component(&tuple_like),
        Err("field without ':' (tuple structs unsupported)".to_string())
    );
    let nameless = vec![punct(':'), ident("u8")];
    assert_eq!(make_field(&nameless, &vec![0, 1], false).err(), Some("could not find field name".to_string()));
}

use rustdv::macros::expand::{
    child_kind, expand_component, expand_test, fields, parse_options, port_attr, ArgValue,
    ChildKind, DerivedShape, FieldDecl, MarkedItem, OptionArg, TestForm,
};

fn arg(key: &str, value: Option<ArgValue>) -> OptionArg {
    OptionArg { key: key.to_string(), value }
}

#[test]
fn parsed_test_options_take_typed_literals() {
    let args = vec![
        arg("name", Some(ArgValue::Str("smoke".to_string()))),
        arg("timeout_time", Some(ArgValue::Int("250".to_string()))),
        arg("skip", None),
        arg("expect_fail", Some(ArgValue::Bool(false))),
        arg("expect_error", Some(ArgValue::Str("tlm_unconnected_port".to_string()))),
    ];
    let o = parse_options(&args).ok().unwrap();
    assert_eq!(o.name.as_deref(), Some("smoke"));
    assert_eq!(o.timeout_time, Some(250));
    assert_eq!(o.timeout_unit, None);
    assert!(o.skip);
    assert!(!o.expect_fail);
    assert_eq!(o.expect_error.as_deref(), Some("tlm_unconnected_port"));
}

#[test]
fn parsed_test_options_refuse_the_wrong_kind_of_value() {
    let e = |args: Vec<OptionArg>| parse_options(&args).err().unwrap();
    assert_eq!(e(vec![arg("name", None)]), "name requires a value");
    assert_eq!(e(vec![arg("name", Some(ArgValue::NotLit))]), "name requires a literal value");
    assert_eq!(e(vec![arg("name", Some(ArgValue::Int("1".to_string())))]), "name requires a string literal");
    assert_eq!(
        e(vec![arg("timeout_time", Some(ArgValue::Str("1".to_string())))]),
        "timeout_time requires an integer literal"
    );
    assert_eq!(
        e(vec![arg("timeout_time", Some(ArgValue::Int("99999999999999999999".to_string())))]),
        "number too large to fit in target type"
    );
    assert_eq!(e(vec![arg("skip", Some(ArgValue::OtherLit))]), "skip requires true or false");
    assert_eq!(e(vec![arg("colour", None)]), "unknown #[rustdv::test] option");
    assert_eq!(
        e(vec![arg("bogus", None), arg("name", None)]),
        "unknown #[rustdv::test] option"
    );
}

#[test]
fn test_expansion_names_the_registration_after_the_item() {
    let args = vec![
        arg("timeout_time", Some(ArgValue::Int("10".to_string()))),
        arg("timeout_unit", Some(ArgValue::Str("us".to_string()))),
    ];
    let x = expand_test(&args, &MarkedItem::Struct("ConcTwoRuns".to_string())).ok().unwrap();
    assert_eq!(x.form, TestForm::Component);
    assert_eq!(x.test_name, "ConcTwoRuns");
    assert_eq!(x.timeout, Some((10, "us".to_string())));
    assert_eq!(x.registration_module, "__rustdv_test_registration_ConcTwoRuns");
    assert_eq!(x.module_path_constant, "__RUSTDV_TEST_MODULE_ConcTwoRuns");
    let x = expand_test(&vec![arg("timeout_time", Some(ArgValue::Int("3".to_string())))], &MarkedItem::Function("f".to_string()))
        .ok()
        .unwrap();
    assert_eq!(x.form, TestForm::Function);
    assert_eq!(x.timeout, Some((3, "ns".to_string())));
    assert_eq!(
        expand_test(&vec![], &MarkedItem::Other).err().unwrap(),
        "#[rustdv::test] must be applied to an async fn, a struct, or a type alias"
    );
}

fn decl(name: &str, ty: Option<&str>, component: bool, ports: Vec<Result<String, String>>) -> FieldDecl {
    FieldDecl { name: name.to_string(), type_tail: ty.map(|t| t.to_string()), component, ports }
}

#[test]
fn derived_fields_are_classified_by_their_type_and_attributes() {
    assert_eq!(child_kind(&Some("RustdvComp".to_string())), ChildKind::RustdvComp);
    assert_eq!(child_kind(&Some("Option".to_string())), ChildKind::Option);
    assert_eq!(child_kind(&Some("Vec".to_string())), ChildKind::Vec);
    assert_eq!(child_kind(&Some("Agent".to_string())), ChildKind::Plain);
    assert_eq!(child_kind(&None), ChildKind::Plain);
    let two = decl("p", None, false, vec![Ok("put".to_string()), Ok("get".to_string())]);
    assert_eq!(port_attr(&two).err().unwrap(), "a field may have only one #[port(...)] attribute");
    let both = DerivedShape::NamedFields(vec![decl("x", None, true, vec![Ok("put".to_string())])]);
    assert_eq!(fields(&both).err().unwrap(), "a field cannot be both #[component] and #[port(...)]");
    assert!(fields(&DerivedShape::Unit).ok().unwrap().is_empty());
    assert_eq!(
        fields(&DerivedShape::TupleFields).err().unwrap(),
        "#[derive(Component)] requires named fields, or a unit struct"
    );
    assert_eq!(fields(&DerivedShape::NotAStruct).err().unwrap(), "#[derive(Component)] supports only structs");
}

#[test]
fn component_expansion_lists_children_and_ports() {
    let shape = DerivedShape::NamedFields(vec![
        decl("agent", Some("RustdvComp"), true, vec![]),
        decl("drv", Some("SeqItemPort"), false, vec![Ok("seq_item".to_string())]),
        decl("ap", Some("AnalysisPort"), false, vec![Ok("publish".to_string())]),
        decl("kids", Some("Vec"), true, vec![]),
        decl("count", Some("u32"), false, vec![]),
    ]);
    let x = expand_component("Env", 0, &shape).ok().unwrap();
    assert_eq!(x.name, "Env");
    assert_eq!(
        x.children,
        vec![("agent".to_string(), ChildKind::RustdvComp), ("kids".to_string(), ChildKind::Vec)]
    );
    assert_eq!(x.ports.len(), 2);
    assert_eq!(x.ports[0].field, "drv");
    assert!(x.ports[0].required);
    assert_eq!(x.ports[0].constant, "DRV");
    assert_eq!(x.ports[0].doc, "The `drv` port, for `connect`.");
    assert!(!x.ports[1].required);
    assert!(x.port_impl && x.resolve_impl && x.registration);
    let generic = expand_component("G", 1, &DerivedShape::Unit).ok().unwrap();
    assert!(!generic.registration && !generic.port_impl && !generic.resolve_impl);
    let bad = DerivedShape::NamedFields(vec![decl("p", None, false, vec![Ok("push".to_string())])]);
    assert_eq!(
        expand_component("B", 0, &bad).err().unwrap(),
        "expected put, get, peek, publish, subscribe, or seq_item"
    );
}
