use scorium::ast::{BinOp, ExprKind, ItemKind, StrLit, StrPart};
use std::cmp::Ordering;
use scorium::entry::{last_leaf_value, Entry, HostCallEntry, IncludeEntry, LeafEntry, NodeEntry};
use scorium::evaluation::{
    compare_ordering, count_iteration, enter_call, if_step, int_arith, left_decides, while_step, Flow, IfAction, int_negate, interpolate, is_blocked_global, EvalError, EvalErrorKind, IncludePolicy, IntOutcome,
    RuntimeOptions,
};
use scorium::lexer::tokenize;
use scorium::parser::parse_interpolated;
use scorium::scope::Scope;
use scorium::token::TokenKind;
use scorium::{
    ColorValue, DurationUnit, DurationValue, FormatOptions, NodeSchema, Schema, SchemaErrorKind, Source, Span,
    Spanned, SyntaxError, Value, ValueType,
};

fn parse_ok(src: &str) -> scorium::Document {
    scorium::parse(&Source::new("<test>", src)).unwrap_or_else(|e| panic!("expected {src:?} to parse, got {e:?}"))
}

fn parse_err(src: &str) -> SyntaxError {
    scorium::parse(&Source::new("<test>", src)).expect_err("expected a syntax error")
}

fn fmt(src: &str) -> String {
    scorium::format::format(&parse_ok(src))
}

// -- spans -------------------------------------------------------------

#[test]
fn span_join_covers_both_in_either_order() {
    let a = Span::new(1, 3);
    let b = Span::new(2, 5);
    assert_eq!(a.join(b), Span::new(1, 5));
    assert_eq!(b.join(a), Span::new(1, 5));
    assert_eq!(a.join(a), a);
    let c = Span::new(7, 9);
    assert_eq!(a.join(b).join(c), a.join(b.join(c)));
}

#[test]
fn span_measures() {
    let s = Span::new(4, 10);
    assert_eq!(s.len(), 6);
    assert!(!s.is_empty());
    assert!(Span::at(3).is_empty());
    assert_eq!(Span::at(3), Span::new(3, 3));
    assert_eq!(s.as_range(), 4..10);
    let sp = Spanned::new("x", s);
    assert_eq!(sp.node, "x");
    assert_eq!(sp.span, s);
}

// -- values ------------------------------------------------------------

#[test]
fn duration_units_round_trip_through_their_suffix() {
    for unit in [DurationUnit::Millis, DurationUnit::Seconds, DurationUnit::Minutes] {
        assert_eq!(DurationUnit::parse(unit.suffix()), Some(unit));
    }
    assert_eq!(DurationUnit::Millis.suffix(), "ms");
    assert_eq!(DurationUnit::parse("h"), None);
}

#[test]
fn duration_literal_prints_its_amount_canonically() {
    let d = DurationValue::from_literal("1.50", "s").unwrap();
    assert_eq!(d.to_text(), "1.5s");
    let d = DurationValue::from_literal("600", "ms").unwrap();
    assert_eq!(d.to_text(), "600ms");
    assert!(DurationValue::from_literal("5", "h").is_none());
    assert_eq!(DurationValue::new("2", DurationUnit::Minutes).to_text(), "2m");
}

#[test]
fn color_hex_round_trip() {
    let c = ColorValue::parse_hex("8EDDFF").unwrap();
    assert_eq!(c, ColorValue::rgb(0x8E, 0xDD, 0xFF));
    assert_eq!(c.to_hex(false), "8EDDFF");
    assert_eq!(c.to_text(), "#8EDDFF");
    let c = ColorValue::parse_hex("101820CC").unwrap();
    assert_eq!(c, ColorValue::rgba(0x10, 0x18, 0x20, 0xCC));
    assert_eq!(c.to_hex(true), "101820CC");
    assert_eq!(c.to_text(), "#101820CC");
    assert_eq!(ColorValue::parse_hex("12345"), None);
    assert_eq!(ColorValue::parse_hex("GGGGGG"), None);
    assert_eq!(ColorValue::parse_hex("+F+F+F"), None);
    assert_eq!(ColorValue::parse_hex("+FFFFF"), None);
    assert_eq!(ColorValue::parse_hex("8eddff"), Some(ColorValue::rgb(0x8E, 0xDD, 0xFF)));
}

#[test]
fn value_text_and_kinds() {
    let v = Value::List(vec![Value::Int(-3), Value::Str("a b".into()), Value::Bool(true), Value::Nil]);
    assert_eq!(v.to_text(), "[-3, a b, true, nil]");
    assert_eq!(v.kind_name(), "list");
    assert_eq!(Value::Float("1.5".into()).kind_name(), "float");
    assert!(v.is_truthy());
    assert!(!Value::Nil.is_truthy());
    assert!(!Value::Bool(false).is_truthy());
    assert!(Value::Int(0).is_truthy());
    assert_eq!(v.clone(), v);
}

#[test]
fn source_keeps_name_and_text() {
    let s = Source::new("cfg.scor", "a = 1");
    assert_eq!(s.name(), "cfg.scor");
    assert_eq!(s.text(), "a = 1");
    let t = s.clone();
    assert_eq!(t.text(), "a = 1");
}

// -- lexing ------------------------------------------------------------

#[test]
fn tokens_cover_their_source_text() {
    let src = "port = 8080 # note\nname = \"a\\\"b\"";
    let toks = tokenize(src).unwrap();
    let texts: Vec<&str> = toks.iter().map(|t| &src[t.span.start as usize..t.span.end as usize]).collect();
    assert_eq!(texts, vec!["port", "=", "8080", "# note", "name", "=", "\"a\\\"b\"", ""]);
    assert!(matches!(toks.last().unwrap().kind, TokenKind::Eof));
    assert!(matches!(&toks[6].kind, TokenKind::QuotedString(s) if s == "a\"b"));
}

#[test]
fn lexer_errors() {
    assert!(matches!(parse_err("x = \"abc"), SyntaxError::UnterminatedString { .. }));
    assert!(matches!(parse_err("--[[ abc"), SyntaxError::UnterminatedComment { .. }));
    assert!(matches!(parse_err("x = a*b"), SyntaxError::SqueezedOperator { .. }));
}

// -- parsing -----------------------------------------------------------

#[test]
fn parser_errors_name_the_problem() {
    assert!(matches!(parse_err("server {"), SyntaxError::UnexpectedEof { .. }));
    assert!(matches!(parse_err("= 3"), SyntaxError::UnexpectedToken { .. }));
    assert!(matches!(parse_err("@end = 3"), SyntaxError::ReservedWord { .. }));
    assert!(matches!(parse_err("x = $a + 1"), SyntaxError::DollarInExpression { .. }));
    assert!(matches!(parse_err("x = @a + 1"), SyntaxError::AtInExpression { .. }));
    let err = parse_err("server {\n    port = \n}");
    assert_eq!(err.span(), Span::new(21, 22));
}

#[test]
fn script_body_is_the_raw_text_between_braces() {
    let doc = parse_ok("script {  local t = { 'x}' }  }");
    let ItemKind::Script(s) = &doc.items[0].kind else { panic!("expected a script") };
    assert_eq!(s.raw, "  local t = { 'x}' }  ");
}

#[test]
fn script_body_keeps_its_leading_white_space() {
    let src = "script {\n  local   x=1+1\n}";
    let doc = parse_ok(src);
    let ItemKind::Script(s) = &doc.items[0].kind else { panic!("expected a script") };
    assert_eq!(s.raw, "\n  local   x=1+1\n");
    assert_eq!(s.inner_span, Span::new(8, 25));
    assert_eq!(fmt(src), "script {\n  local   x=1+1\n}\n");
    assert_eq!(fmt(&fmt(src)), fmt(src));
}

#[test]
fn blank_lines_before_items_are_recorded() {
    let doc = parse_ok("a = 1\nb = 2\n\n# c\nc = 3");
    assert!(!doc.items[0].trivia.blank_line_before);
    assert!(!doc.items[1].trivia.blank_line_before);
    assert!(doc.items[2].trivia.blank_line_before);
}

#[test]
fn single_value_words_and_expressions() {
    let doc = parse_ok("a = cert.pem\nb = port\nc = x.darken(0.5)\nd = \"$q\"");
    let kind = |i: usize| match &doc.items[i].kind {
        ItemKind::Leaf(l) => &l.value.kind,
        _ => panic!("expected a leaf"),
    };
    assert!(matches!(kind(0), ExprKind::Str(StrLit::Bare(_))));
    assert!(matches!(kind(1), ExprKind::Ident(n) if n == "port"));
    assert!(matches!(kind(2), ExprKind::Call(..)));
    assert!(matches!(kind(3), ExprKind::Str(StrLit::Quoted(s)) if s == "$q"));
}

fn leaf_value(doc: &scorium::Document, i: usize) -> &scorium::ast::Expr {
    match &doc.items[i].kind {
        ItemKind::Leaf(l) => &l.value,
        _ => panic!("expected a leaf"),
    }
}

#[test]
fn multiplication_binds_tighter_and_operators_associate_left() {
    let doc = parse_ok("x = 1 + 2 * 3
y = 8 - 4 - 2");
    let ExprKind::Binary(BinOp::Add, l, r) = &leaf_value(&doc, 0).kind else { panic!("expected +") };
    assert!(matches!(l.kind, ExprKind::Int(1)));
    assert!(matches!(&r.kind, ExprKind::Binary(BinOp::Mul, a, b)
        if matches!(a.kind, ExprKind::Int(2)) && matches!(b.kind, ExprKind::Int(3))));
    let ExprKind::Binary(BinOp::Sub, l, r) = &leaf_value(&doc, 1).kind else { panic!("expected -") };
    assert!(matches!(&l.kind, ExprKind::Binary(BinOp::Sub, a, b)
        if matches!(a.kind, ExprKind::Int(8)) && matches!(b.kind, ExprKind::Int(4))));
    assert!(matches!(r.kind, ExprKind::Int(2)));
    assert_eq!(leaf_value(&doc, 0).span, Span::new(4, 13));
}

#[test]
fn lists_allow_a_trailing_comma_and_calls_chain() {
    let doc = parse_ok("xs = [1, 2,]
c = f(1)(2)");
    assert!(matches!(&leaf_value(&doc, 0).kind, ExprKind::List(items) if items.len() == 2));
    let ExprKind::Call(inner, args) = &leaf_value(&doc, 1).kind else { panic!("expected a call") };
    assert_eq!(args.len(), 1);
    assert!(matches!(&inner.kind, ExprKind::Call(f, a)
        if matches!(&f.kind, ExprKind::Ident(n) if n == "f") && a.len() == 1));
}

#[test]
fn comments_lead_and_trail_items() {
    let doc = parse_ok("# about a\na = 1 # one\nb = 2\n# left over\n");
    assert_eq!(doc.items[0].trivia.leading.len(), 1);
    assert_eq!(doc.items[0].trivia.leading[0].text, " about a");
    assert_eq!(doc.items[0].trivia.trailing.as_ref().map(|c| c.text.as_str()), Some(" one"));
    assert!(doc.items[1].trivia.trailing.is_none());
    assert_eq!(doc.trailing.len(), 1);
    assert_eq!(doc.trailing[0].text, " left over");
}

#[test]
fn squeezed_operator_error_suggests_the_spaced_form() {
    let SyntaxError::SqueezedOperator { original, suggestion, span } = parse_err("x = base*2") else {
        panic!("expected a squeezed operator")
    };
    assert_eq!(original, "base*2");
    assert_eq!(suggestion, "base * 2");
    assert_eq!(span, Span::new(8, 9));
}

#[test]
fn squeezed_operator_error_quotes_the_whole_operand() {
    let SyntaxError::SqueezedOperator { original, suggestion, span } = parse_err("size = base*20") else {
        panic!("expected a squeezed operator")
    };
    assert_eq!(original, "base*20");
    assert_eq!(suggestion, "base * 20");
    assert_eq!(span, Span::new(11, 12));
    let SyntaxError::SqueezedOperator { original, suggestion, .. } = parse_err("x = (width/height)") else {
        panic!("expected a squeezed operator")
    };
    assert_eq!(original, "width/height");
    assert_eq!(suggestion, "width / height");
}

#[test]
fn unterminated_string_runs_to_the_end_of_the_text() {
    let err = parse_err("x = \"abc");
    assert_eq!(err.span(), Span::new(4, 8));
    let err = parse_err("x = (1");
    assert!(matches!(err, SyntaxError::UnexpectedEof { .. }));
}

// -- formatting --------------------------------------------------------

#[test]
fn quoted_strings_print_escaped_and_read_back_unchanged() {
    let src = "x = \"a\\\"b\\\\c\\nd\"";
    let out = fmt(src);
    assert_eq!(out, "x = \"a\\\"b\\\\c\\nd\"\n");
    let doc = parse_ok(&out);
    let ItemKind::Leaf(l) = &doc.items[0].kind else { panic!() };
    assert!(matches!(&l.value.kind, ExprKind::Str(StrLit::Quoted(s)) if s == "a\"b\\c\nd"));
}

#[test]
fn bare_strings_print_as_written() {
    assert_eq!(fmt("k = $mod+Return"), "k = $mod+Return\n");
    assert_eq!(fmt("k = a$b$"), "k = a$b$\n");
}

#[test]
fn output_ends_with_exactly_one_line_break() {
    assert_eq!(fmt("a = 1\n\n\n# end\n\n\n"), "a = 1\n# end\n");
    assert_eq!(fmt(""), "");
}

#[test]
fn expression_grouping_survives_formatting() {
    assert_eq!(fmt("x = (a + b) * c"), "x = (a + b) * c\n");
    assert_eq!(fmt("x = a - (b - c)"), "x = a - (b - c)\n");
    assert_eq!(fmt("x = -(a + 1)"), "x = -(a + 1)\n");
    assert_eq!(fmt("x = not a and b"), "x = not a and b\n");
    assert_eq!(fmt("x = 1.50 + 2.0"), "x = 1.5 + 2.0\n");
}

#[test]
fn floats_print_with_a_point_and_unitless_numbers_are_no_durations() {
    assert_eq!(fmt("x = 2.0\ny = 2.50\nz = 600\nw = 600ms"), "x = 2.0\ny = 2.5\nz = 600\nw = 600ms\n");
    let toks = tokenize("600 600ms 1.5s 2m 3x").unwrap();
    assert!(matches!(toks[0].kind, TokenKind::Int(600)));
    assert!(matches!(&toks[1].kind, TokenKind::DurationLit(a, u) if a == "600" && u == "ms"));
    assert!(matches!(&toks[2].kind, TokenKind::DurationLit(a, u) if a == "1.5" && u == "s"));
    assert!(matches!(&toks[3].kind, TokenKind::DurationLit(a, u) if a == "2" && u == "m"));
    assert!(matches!(&toks[4].kind, TokenKind::BareWord(w) if w == "3x"));
}

#[test]
fn indent_width_is_configurable() {
    let doc = parse_ok("a {\nb = 1\n}");
    let out = scorium::format_with(&doc, &FormatOptions { indent_width: 2 });
    assert_eq!(out, "a {\n  b = 1\n}\n");
    assert_eq!(FormatOptions::default().indent_width, 4);
}

// -- schema ------------------------------------------------------------

#[test]
fn redeclaring_a_key_replaces_it() {
    let schema: Schema = Schema::builder()
        .node("s", NodeSchema::builder().key("port", ValueType::String).required_key("port", ValueType::Integer).build())
        .build();
    let node = |children: Vec<Entry>| {
        vec![Entry::Node(NodeEntry {
            name: "s".into(),
            name_span: Span::new(0, 1),
            header: None,
            header_span: None,
            children,
            span: Span::new(0, 1),
        })]
    };
    let leaf = Entry::Leaf(LeafEntry {
        key: "port".into(),
        key_span: Span::new(2, 3),
        value: Value::Int(1),
        span: Span::new(2, 3),
    });
    assert!(schema.validate(&node(vec![leaf])).is_valid());
    let result = schema.validate(&node(vec![]));
    assert!(matches!(&result.errors[..], [SchemaErrorKind::MissingRequiredKey { key, .. }] if key == "port"));
}

#[test]
fn suggestions_prefer_the_closest_then_the_first_declared() {
    let schema: Schema = Schema::builder()
        .node("alpha", NodeSchema::builder().build())
        .node("alps", NodeSchema::builder().build())
        .node("zzzz", NodeSchema::builder().build())
        .build();
    let entry = |name: &str| {
        vec![Entry::Node(NodeEntry {
            name: name.into(),
            name_span: Span::new(0, 1),
            header: None,
            header_span: None,
            children: vec![],
            span: Span::new(0, 1),
        })]
    };
    let suggestion = |name: &str| match &schema.validate(&entry(name)).errors[0] {
        SchemaErrorKind::UnknownNode { suggestion, .. } => suggestion.clone(),
        other => panic!("expected UnknownNode, got {other:?}"),
    };
    assert_eq!(suggestion("alpa").as_deref(), Some("alpha"));
    assert_eq!(suggestion("alp").as_deref(), Some("alps"));
    assert_eq!(suggestion("qqqqqqq"), None);
    assert_eq!(suggestion("a"), None);
}

#[test]
fn list_types_check_every_item() {
    let t: ValueType = ValueType::List(Box::new(ValueType::Integer));
    assert!(t.check(&Value::List(vec![Value::Int(1), Value::Int(2)])).is_ok());
    let err = t.check(&Value::List(vec![Value::Int(1), Value::Str("x".into())])).unwrap_err();
    assert_eq!(err, "expected integer, found string");
    assert_eq!(t.name(), "list of integer");
    let err = ValueType::<scorium::NoCustom>::Float.check(&Value::Bool(true)).unwrap_err();
    assert_eq!(err, "expected float, found boolean");
    assert!(ValueType::<scorium::NoCustom>::Float.check(&Value::Int(3)).is_ok());
}

#[test]
fn float_type_promotes_integers() {
    let float: ValueType = ValueType::Float;
    assert_eq!(float.check(&Value::Int(3)), Ok(Value::Float("3".into())));
    assert_eq!(float.check(&Value::Int(-42)), Ok(Value::Float("-42".into())));
    assert_eq!(float.check(&Value::Int(9007199254740993)), Ok(Value::Float("9007199254740992".into())));
    assert_eq!(float.check(&Value::Int(9007199254740995)), Ok(Value::Float("9007199254740996".into())));
    assert_eq!(float.check(&Value::Int(123456789012345678)), Ok(Value::Float("123456789012345680".into())));
    assert_eq!(float.check(&Value::Int(i64::MAX)), Ok(Value::Float("9223372036854775807".parse::<f64>().unwrap().to_string())));
    assert_eq!(float.check(&Value::Int(i64::MIN)), Ok(Value::Float((i64::MIN as f64).to_string())));
    for n in [0i64, 7, -7, 1 << 53, (1 << 53) + 1, (1 << 54) + 3, 98765432109876543, -98765432109876543, i64::MAX - 1000] {
        assert_eq!(float.check(&Value::Int(n)), Ok(Value::Float((n as f64).to_string())), "{n}");
    }
    assert_eq!(float.check(&Value::Float("2.5".into())), Ok(Value::Float("2.5".into())));
    let floats: ValueType = ValueType::List(Box::new(ValueType::Float));
    assert_eq!(
        floats.check(&Value::List(vec![Value::Int(1), Value::Float("0.5".into())])),
        Ok(Value::List(vec![Value::Float("1".into()), Value::Float("0.5".into())]))
    );
}

// -- evaluation helpers ------------------------------------------------

#[test]
fn integer_arithmetic_is_checked() {
    let sp = Span::new(0, 1);
    assert!(matches!(int_arith(BinOp::Add, 2, 3, sp), Ok(IntOutcome::Int(5))));
    assert!(matches!(int_arith(BinOp::Add, i64::MAX, 1, sp), Err(EvalErrorKind::ArithmeticOverflow { .. })));
    assert!(matches!(int_arith(BinOp::Sub, i64::MIN, 1, sp), Err(EvalErrorKind::ArithmeticOverflow { .. })));
    assert!(matches!(int_arith(BinOp::Mul, 1 << 40, 1 << 40, sp), Err(EvalErrorKind::ArithmeticOverflow { .. })));
    assert!(matches!(int_arith(BinOp::Mod, -7, 3, sp), Ok(IntOutcome::Int(2))));
    assert!(matches!(int_arith(BinOp::Mod, 7, -3, sp), Ok(IntOutcome::Int(1))));
    assert!(matches!(int_arith(BinOp::Mod, i64::MIN, -1, sp), Ok(IntOutcome::Int(0))));
    assert!(matches!(int_arith(BinOp::Mod, 1, 0, sp), Err(EvalErrorKind::DivisionByZero { .. })));
    assert!(matches!(int_arith(BinOp::Div, 1, 0, sp), Err(EvalErrorKind::DivisionByZero { .. })));
    assert!(matches!(int_arith(BinOp::Div, 7, 2, sp), Ok(IntOutcome::Quotient(7, 2))));
    assert!(matches!(int_negate(5, sp), Ok(-5)));
    assert!(matches!(int_negate(i64::MIN, sp), Err(EvalErrorKind::ArithmeticOverflow { .. })));
}

#[test]
fn orderings_answer_comparisons() {
    assert!(compare_ordering(BinOp::Lt, Ordering::Less));
    assert!(!compare_ordering(BinOp::Lt, Ordering::Equal));
    assert!(compare_ordering(BinOp::LtEq, Ordering::Equal));
    assert!(!compare_ordering(BinOp::LtEq, Ordering::Greater));
    assert!(compare_ordering(BinOp::Gt, Ordering::Greater));
    assert!(compare_ordering(BinOp::GtEq, Ordering::Equal));
    assert!(!compare_ordering(BinOp::GtEq, Ordering::Less));
}

#[test]
fn runtime_defaults() {
    let o = RuntimeOptions::default();
    assert_eq!(o.max_loop_iterations, 1_000_000);
    assert_eq!(o.max_function_call_depth, 256);
    assert_eq!(o.max_script_instructions, 50_000_000);
    assert_eq!(o.max_lua_memory_bytes, 64 * 1024 * 1024);
    assert!(o.include_policy.enabled && !o.include_policy.allow_parent_traversal);
    let p = IncludePolicy::default();
    assert!(p.enabled);
    let e = EvalError::new(EvalErrorKind::DivisionByZero { span: Span::new(1, 2) }, Source::new("f", "x"));
    assert!(matches!(e.kind, EvalErrorKind::DivisionByZero { .. }));
    assert_eq!(e.src.name(), "f");
}

#[test]
fn scope_resolves_innermost_first() {
    let host = vec![("env".to_string(), Value::Str("prod".into())), ("x".to_string(), Value::Int(0))];
    let mut s = Scope::new();
    s.set_vardef("x".into(), Value::Int(1));
    assert_eq!(s.lookup(&"x".to_string(), &host), Some(Value::Int(1)));
    s.push();
    s.set_local("x".into(), Value::Int(2));
    assert_eq!(s.lookup(&"x".to_string(), &host), Some(Value::Int(2)));
    assert_eq!(s.lookup(&"env".to_string(), &host), Some(Value::Str("prod".into())));
    assert_eq!(s.lookup(&"nope".to_string(), &host), None);
    let mut visible = s.all_visible(&host);
    visible.sort_by(|a, b| a.0.cmp(&b.0));
    assert_eq!(visible, vec![("env".to_string(), Value::Str("prod".into())), ("x".to_string(), Value::Int(2))]);
    s.pop();
    assert_eq!(s.lookup(&"x".to_string(), &host), Some(Value::Int(1)));
}

#[test]
fn interpolation_replaces_names_and_reports_the_first_unbound() {
    let mut scope = Scope::new();
    scope.set_local("port".to_string(), Value::Int(80));
    let host = vec![("host".to_string(), Value::Str("example.org".to_string()))];
    let lit = StrLit::Bare(vec![
        StrPart::Lit("http://".into()),
        StrPart::Interp("host".into(), Span::new(7, 12)),
        StrPart::Lit(":".into()),
        StrPart::Interp("port".into(), Span::new(13, 18)),
    ]);
    assert_eq!(interpolate(&lit, &scope, &host).unwrap(), "http://example.org:80");
    let missing = StrLit::Bare(vec![
        StrPart::Interp("nope".into(), Span::new(0, 5)),
        StrPart::Interp("also".into(), Span::new(5, 10)),
    ]);
    match interpolate(&missing, &scope, &host) {
        Err(EvalErrorKind::UndefinedInterpolation { name, span }) => {
            assert_eq!(name, "nope");
            assert_eq!(span, Span::new(0, 5));
        }
        other => panic!("expected an undefined interpolation, got {other:?}"),
    }
    assert_eq!(interpolate(&StrLit::Quoted("$port".into()), &scope, &host).unwrap(), "$port");
}

#[test]
fn a_sibling_leaf_is_the_last_one_with_that_key() {
    let leaf = |k: &str, v: i64| {
        Entry::Leaf(LeafEntry { key: k.into(), key_span: Span::new(0, 1), value: Value::Int(v), span: Span::new(0, 1) })
    };
    let entries = vec![leaf("a", 1), leaf("b", 2), leaf("a", 3)];
    assert_eq!(last_leaf_value(&entries, &"a".to_string()), Some(Value::Int(3)));
    assert_eq!(last_leaf_value(&entries, &"b".to_string()), Some(Value::Int(2)));
    assert_eq!(last_leaf_value(&entries, &"c".to_string()), None);
}

#[test]
fn call_parameters_bind_positionally_and_default_to_nil() {
    let mut scope = Scope::new();
    scope.bind_params(&vec!["a".to_string(), "b".to_string()], &vec![Value::Int(1)]);
    let host = Vec::new();
    assert_eq!(scope.lookup(&"a".to_string(), &host), Some(Value::Int(1)));
    assert_eq!(scope.lookup(&"b".to_string(), &host), Some(Value::Nil));
    scope.pop();
    assert_eq!(scope.lookup(&"a".to_string(), &host), None);
}

#[test]
fn sandbox_budgets_refuse_the_step_past_their_limit() {
    let span = Span::new(2, 3);
    assert!(matches!(count_iteration(4, 5, span), Ok(5)));
    assert!(matches!(count_iteration(5, 5, span), Err(EvalErrorKind::LoopBudgetExceeded { limit: 5, .. })));
    assert!(matches!(enter_call(0, 1, span), Ok(1)));
    assert!(matches!(enter_call(1, 1, span), Err(EvalErrorKind::CallDepthExceeded { limit: 1, .. })));
}

#[test]
fn script_blocks_do_not_see_globals_that_escape_their_environment() {
    for name in ["_G", "collectgarbage", "getmetatable", "load", "dofile", "loadfile"] {
        assert!(is_blocked_global(name.as_bytes()), "{name} should be kept out");
    }
    for name in ["math", "string", "table", "print", "loadstring", "_"] {
        assert!(!is_blocked_global(name.as_bytes()), "{name} should be kept");
    }
}

#[test]
fn only_locals_of_the_current_node_body_are_reassignable() {
    let mut s = Scope::new();
    s.push();
    s.set_local("port".into(), Value::Int(1));
    s.enter_node_body();
    s.push();
    assert!(s.boundary_in_range());
    assert!(!s.is_reassignable_local(&"port".to_string()));
    s.set_local("total".into(), Value::Int(0));
    assert!(s.is_reassignable_local(&"total".to_string()));
    s.reassign_local(&"total".to_string(), Value::Int(6));
    assert_eq!(s.lookup(&"total".to_string(), &vec![]), Some(Value::Int(6)));
    s.pop();
    s.exit_node_body();
    assert!(s.is_reassignable_local(&"port".to_string()));
}

#[test]
fn a_leaf_reassigns_a_local_of_its_node_body_or_is_handed_back() {
    let mut s = Scope::new();
    s.push();
    s.set_local("port".into(), Value::Int(1));
    s.enter_node_body();
    s.push();
    s.set_local("n".into(), Value::Int(0));
    assert_eq!(s.assign_leaf(&"n".to_string(), Value::Int(1)), None);
    assert_eq!(s.lookup(&"n".to_string(), &vec![]), Some(Value::Int(1)));
    assert_eq!(s.assign_leaf(&"port".to_string(), Value::Int(8080)), Some(Value::Int(8080)));
    assert_eq!(s.lookup(&"port".to_string(), &vec![]), Some(Value::Int(1)));
    assert_eq!(s.assign_leaf(&"host".to_string(), Value::Str("a".into())), Some(Value::Str("a".into())));
}

// -- outline -----------------------------------------------------------

#[test]
fn outline_of_an_entry_tree() {
    let sp = Span::new(0, 1);
    let entries = vec![
        Entry::Leaf(LeafEntry { key: "name".into(), key_span: sp, value: Value::Str("a \"b\"".into()), span: sp }),
        Entry::Node(NodeEntry {
            name: "server".into(),
            name_span: sp,
            header: Some("main".into()),
            header_span: Some(sp),
            children: vec![Entry::Leaf(LeafEntry { key: "port".into(), key_span: sp, value: Value::Int(80), span: sp })],
            span: sp,
        }),
        Entry::Include(IncludeEntry { path: "t.scor".into(), resolved_path: Some("/x/t.scor".into()), span: sp }),
        Entry::HostCall(HostCallEntry { name: "reload".into(), args: vec![], result: None, span: sp }),
    ];
    assert_eq!(
        scorium::outline::outline(&entries),
        "name = \"a \\\"b\\\"\"\nserver main {\n  port = 80\n}\ninclude \"t.scor\" -> /x/t.scor\nreload()\n"
    );
    assert_eq!(entries[1].span(), sp);
}

#[test]
fn bare_words_split_into_whole_literal_runs_and_names() {
    let doc = parse_ok("a = cert.pem\nb = $café-x\nc = node-$i-$j");
    let parts = |i: usize| match &leaf_value(&doc, i).kind {
        ExprKind::Str(StrLit::Bare(parts)) => parts.clone(),
        other => panic!("expected a bare string, got {other:?}"),
    };
    assert_eq!(parts(0), vec![StrPart::Lit("cert.pem".into())]);
    assert_eq!(parts(1), vec![StrPart::Interp("café".into(), Span::new(18, 23)), StrPart::Lit("-x".into())]);
    assert_eq!(
        parts(2),
        vec![
            StrPart::Lit("node-".into()),
            StrPart::Interp("i".into(), Span::new(36, 37)),
            StrPart::Lit("-".into()),
            StrPart::Interp("j".into(), Span::new(39, 40)),
        ]
    );
}

#[test]
fn suggest_picks_the_closest_candidate_worth_suggesting() {
    let names: Vec<String> = ["alpha", "alps", "zzzz"].iter().map(|s| s.to_string()).collect();
    assert_eq!(scorium::schema::suggest("alpa", &names).as_deref(), Some("alpha"));
    assert_eq!(scorium::schema::suggest("alp", &names).as_deref(), Some("alps"));
    assert_eq!(scorium::schema::suggest("alpha", &names).as_deref(), Some("alps"));
    assert_eq!(scorium::schema::suggest("zzzz", &names), None);
    assert_eq!(scorium::schema::suggest("qqqqqqq", &names), None);
    assert_eq!(scorium::schema::suggest("a", &names), None);
    assert_eq!(scorium::schema::suggest("x", &Vec::new()), None);
}

#[test]
fn parse_interpolated_splits_names_from_literal_text() {
    assert_eq!(parse_interpolated("cert.pem", Span::new(4, 12)), StrLit::Bare(vec![StrPart::Lit("cert.pem".into())]));
    assert_eq!(
        parse_interpolated("$café-x", Span::new(0, 8)),
        StrLit::Bare(vec![StrPart::Interp("café".into(), Span::new(1, 6)), StrPart::Lit("-x".into())])
    );
    assert_eq!(
        parse_interpolated("a$$b$", Span::new(10, 15)),
        StrLit::Bare(vec![StrPart::Lit("a$".into()), StrPart::Interp("b".into(), Span::new(13, 14)), StrPart::Lit("$".into())])
    );
    assert_eq!(parse_interpolated("", Span::new(0, 0)), StrLit::Bare(vec![StrPart::Lit("".into())]));
}

#[test]
fn and_or_short_circuit_on_the_left_operand() {
    assert!(left_decides(BinOp::And, &Value::Bool(false)));
    assert!(left_decides(BinOp::And, &Value::Nil));
    assert!(!left_decides(BinOp::And, &Value::Int(0)));
    assert!(left_decides(BinOp::Or, &Value::Str("".into())));
    assert!(!left_decides(BinOp::Or, &Value::Nil));
}

#[test]
fn if_chains_run_the_first_truthy_arm() {
    assert_eq!(if_step(0, 3, &Value::Bool(true), true), IfAction::Run(0));
    assert_eq!(if_step(0, 3, &Value::Nil, true), IfAction::Test(1));
    assert_eq!(if_step(2, 3, &Value::Bool(false), true), IfAction::RunElse);
    assert_eq!(if_step(2, 3, &Value::Bool(false), false), IfAction::Done);
    assert_eq!(if_step(1, 3, &Value::Int(1), false), IfAction::Run(1));
}

#[test]
fn while_loops_stop_on_a_falsy_condition_or_the_budget() {
    let sp = Span::new(3, 9);
    assert!(matches!(while_step(&Value::Bool(false), 5, 10, sp), Ok(None)));
    assert!(matches!(while_step(&Value::Bool(true), 5, 10, sp), Ok(Some(6))));
    assert!(matches!(
        while_step(&Value::Bool(true), 10, 10, sp),
        Err(EvalErrorKind::LoopBudgetExceeded { limit: 10, span }) if span == sp
    ));
}

#[test]
fn a_call_gives_what_its_body_returned_or_nil() {
    assert_eq!(Flow::Return(Some(Value::Int(4))).call_value(), Value::Int(4));
    assert_eq!(Flow::Return(None).call_value(), Value::Nil);
    assert_eq!(Flow::Normal.call_value(), Value::Nil);
    assert!(Flow::Normal.continues());
    assert!(!Flow::Return(None).continues());
}

#[test]
fn include_paths_that_leave_the_base_directory_are_refused() {
    let strict = IncludePolicy::default();
    let sp = Span::new(0, 4);
    for ok in ["theme.scor", "a/b.scor", "a..b/c", "..x", "a/...", "./x"] {
        assert!(strict.check_path(ok, sp).is_ok(), "{ok}");
    }
    for bad in ["/etc/passwd", "../x", "a/../b", "a/..", ".."] {
        assert!(
            matches!(strict.check_path(bad, sp), Err(EvalErrorKind::IncludePathDenied { ref path, span }) if path == bad && span == sp),
            "{bad}"
        );
    }
    let open = IncludePolicy { enabled: true, allow_parent_traversal: true };
    assert!(open.check_path("../x", sp).is_ok());
}
