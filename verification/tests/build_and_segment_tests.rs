use templatia::errors::TemplateError;
use templatia::fields::{FieldDescriptor, TypeSig};
use templatia::scalar::ScalarValue;
use templatia::template::{CompiledTemplate, Config};
use templatia::value::{FieldValue, Record};

fn plain(name: &str, ty: &str) -> FieldDescriptor {
    FieldDescriptor { name: name.to_string(), ty: TypeSig::Plain(ty.to_string()) }
}

#[allow(dead_code)]
fn wrap1(name: &str, outer: &str, inner: &str) -> FieldDescriptor {
    FieldDescriptor {
        name: name.to_string(),
        ty: TypeSig::Generic1(outer.to_string(), inner.to_string()),
    }
}

fn cfg(template: &str, allow_missing: bool, empty_absent: bool) -> Config {
    Config {
        template: template.to_string(),
        allow_missing_placeholders: allow_missing,
        empty_string_means_absent: empty_absent,
    }
}

fn compile(fields: Vec<FieldDescriptor>, config: Config) -> CompiledTemplate {
    CompiledTemplate::compile(fields, config).expect("template should compile")
}

#[allow(dead_code)]
fn record(entries: Vec<(&str, FieldValue)>) -> Record {
    let mut r = Record::new();
    for (n, v) in entries {
        r.push(n.to_string(), v);
    }
    r
}

#[allow(dead_code)]
fn vs(x: &str) -> FieldValue {
    FieldValue::Primitive(ScalarValue::Str(x.to_string()))
}

#[allow(dead_code)]
fn get(rec: &Record, name: &str) -> FieldValue {
    rec.get(name).expect("field should be bound").clone()
}

#[allow(dead_code)]
fn get_str(rec: &Record, name: &str) -> String {
    match get(rec, name) {
        FieldValue::Primitive(ScalarValue::Str(s)) => s,
        other => panic!("expected string value, got {other:?}"),
    }
}

#[allow(dead_code)]
fn get_opt(rec: &Record, name: &str) -> Option<ScalarValue> {
    match get(rec, name) {
        FieldValue::Optional(o) => o,
        other => panic!("expected optional value, got {other:?}"),
    }
}

#[allow(dead_code)]
fn get_elems(rec: &Record, name: &str) -> Vec<ScalarValue> {
    match get(rec, name) {
        FieldValue::Sequence(v) => v,
        FieldValue::SetOf(v) => v,
        FieldValue::OrderedSetOf(v) => v,
        other => panic!("expected collection value, got {other:?}"),
    }
}


use templatia::errors::BuildError;
use templatia::segment::{parse_template, parse_template_base, TemplateSegments};

#[test]
fn ambiguous_consecutive_strings_rejected() {
    let err = CompiledTemplate::compile(
        vec![plain("first", "String"), plain("second", "String")],
        cfg("{first}{second}", false, true),
    )
    .expect_err("two adjacent variable-width placeholders must be refused");
    match err {
        BuildError::ConsecutivePlaceholdersAmbiguous { first, second, first_kind } => {
            assert_eq!(first, "first");
            assert_eq!(second, "second");
            assert_eq!(first_kind, "String");
        }
        other => panic!("unexpected build error: {other:?}"),
    }
}

#[test]
fn ambiguous_consecutive_chars_accepted() {
    let ct = compile(
        vec![plain("first", "char"), plain("second", "char")],
        cfg("{first}{second}", false, true),
    );
    let rec = ct.parse("AB").unwrap();
    assert_eq!(get(&rec, "first"), FieldValue::Primitive(ScalarValue::Char('A')));
    assert_eq!(get(&rec, "second"), FieldValue::Primitive(ScalarValue::Char('B')));
}

#[test]
fn unknown_placeholder_rejected() {
    let err = CompiledTemplate::compile(
        vec![plain("host", "String")],
        cfg("host={host}, port={port}", false, true),
    )
    .expect_err("a placeholder naming no field must be refused");
    match err {
        BuildError::UnknownPlaceholder { name } => assert_eq!(name, "port"),
        other => panic!("unexpected build error: {other:?}"),
    }
}

#[test]
fn missing_placeholders_rejected_without_flag() {
    let err = CompiledTemplate::compile(
        vec![plain("host", "String"), plain("port", "u16"), plain("user", "String")],
        cfg("host={host}", false, true),
    )
    .expect_err("unused fields must be refused when missing placeholders are not allowed");
    match err {
        BuildError::MissingPlaceholders { names } => {
            assert_eq!(names, vec!["port".to_string(), "user".to_string()]);
        }
        other => panic!("unexpected build error: {other:?}"),
    }
}

#[test]
fn mapping_placeholder_rejected() {
    let err = CompiledTemplate::compile(
        vec![FieldDescriptor {
            name: "table".to_string(),
            ty: TypeSig::Generic2("HashMap".to_string(), "String".to_string(), "u32".to_string()),
        }],
        cfg("table={table}", false, true),
    )
    .expect_err("a mapping-kind placeholder must be refused");
    match err {
        BuildError::UnsupportedFieldKind { name, kind_name } => {
            assert_eq!(name, "table");
            assert_eq!(kind_name, "HashMap<String, u32>");
        }
        other => panic!("unexpected build error: {other:?}"),
    }
}

#[test]
fn unmatched_open_brace_is_a_template_error() {
    let err = CompiledTemplate::compile(
        vec![plain("a", "String")],
        cfg("left={a", false, true),
    )
    .expect_err("an unmatched brace must be refused");
    match err {
        BuildError::Template(msg) => assert_eq!(msg, "Unmatched opening brace '{'"),
        other => panic!("unexpected build error: {other:?}"),
    }
}

#[test]
fn trailing_input_is_a_parse_error() {
    let ct = compile(vec![plain("x", "char")], cfg("{x}", false, true));
    match ct.parse("AB") {
        Err(TemplateError::Parse(msg)) => assert_eq!(msg, "unexpected trailing characters"),
        other => panic!("expected trailing-characters error, got: {other:?}"),
    }
}

#[test]
fn parse_to_type_message_names_everything() {
    let e = TemplateError::ParseToType {
        placeholder: "port".to_string(),
        value: "abc".to_string(),
        ty_name: "u16".to_string(),
    };
    assert_eq!(
        e.message(),
        "Cannot parse the placeholder 'port' with value 'abc' to type 'u16', \
please check the type compatibility"
    );
}

#[test]
fn unexpected_input_message_names_everything() {
    let e = TemplateError::UnexpectedInput {
        expected_next_literal: ": ".to_string(),
        remaining_text: "rest".to_string(),
    };
    assert_eq!(e.message(), "Template defines ': ' but not found it in 'rest'");
}

#[test]
fn segmenter_splits_literals_and_placeholders() {
    let segs = parse_template_base("a = {a}, b = {b}").unwrap();
    assert_eq!(segs.len(), 4);
    match &segs[0] {
        TemplateSegments::Literal(l) => assert_eq!(l, "a = "),
        other => panic!("unexpected segment: {other:?}"),
    }
    match &segs[1] {
        TemplateSegments::Placeholder(p) => assert_eq!(p, "a"),
        other => panic!("unexpected segment: {other:?}"),
    }
    match &segs[2] {
        TemplateSegments::Literal(l) => assert_eq!(l, ", b = "),
        other => panic!("unexpected segment: {other:?}"),
    }
    match &segs[3] {
        TemplateSegments::Placeholder(p) => assert_eq!(p, "b"),
        other => panic!("unexpected segment: {other:?}"),
    }
}

#[test]
fn segmenter_trims_placeholder_names() {
    let segs = parse_template_base("{  name  }").unwrap();
    assert_eq!(segs.len(), 1);
    match &segs[0] {
        TemplateSegments::Placeholder(p) => assert_eq!(p, "name"),
        other => panic!("unexpected segment: {other:?}"),
    }
}

#[test]
fn segmenter_rejects_nested_braces() {
    let err = parse_template_base("{a{b}").unwrap_err();
    assert_eq!(err, "Nested braces are not supported: a{b");
}

#[test]
fn segmenter_rejects_unmatched_closing_brace() {
    let err = parse_template_base("a}b").unwrap_err();
    assert_eq!(err, "Unmatched closing brace '}'");
}

#[test]
fn bracket_scan_builds_a_group() {
    let segs = parse_template("pre[{name}]post").unwrap();
    let mut found = false;
    for seg in &segs {
        if let TemplateSegments::GroupBox { placeholder, .. } = seg {
            assert_eq!(placeholder, "name");
            found = true;
        }
    }
    assert!(found, "expected a group segment in {segs:?}");
}

#[test]
fn bracket_scan_requires_one_placeholder() {
    let err = parse_template("[plain]").unwrap_err();
    assert_eq!(err, "Group box must contain at least one placeholder: plain");
    let err2 = parse_template("[{a}{b}]").unwrap_err();
    assert_eq!(err2, "Group box can only contain one placeholder: {a}{b}");
}

#[test]
fn i64_extremes_render_and_parse() {
    let ct = compile(vec![plain("v", "i64")], cfg("v={v}", false, true));
    let rec = record(vec![("v", FieldValue::Primitive(ScalarValue::I64(i64::MIN)))]);
    let rendered = ct.render(&rec);
    assert_eq!(rendered, "v=-9223372036854775808");
    let parsed = ct.parse(&rendered).unwrap();
    assert_eq!(parsed, rec);
}

#[test]
fn u64_upper_bound_parses() {
    let ct = compile(vec![plain("v", "u64")], cfg("v={v}", false, true));
    let parsed = ct.parse("v=18446744073709551615").unwrap();
    assert_eq!(get(&parsed, "v"), FieldValue::Primitive(ScalarValue::U64(u64::MAX)));
    match ct.parse("v=18446744073709551616") {
        Err(TemplateError::ParseToType { .. }) => {}
        other => panic!("expected overflow to fail, got: {other:?}"),
    }
}

#[test]
fn btreeset_sorts_and_deduplicates() {
    let ct = compile(vec![wrap1("xs", "BTreeSet", "i64")], cfg("xs={xs}", false, true));
    let parsed = ct.parse("xs=5,-3,5,10,-3").unwrap();
    assert_eq!(
        get_elems(&parsed, "xs"),
        vec![ScalarValue::I64(-3), ScalarValue::I64(5), ScalarValue::I64(10)]
    );
    let rendered = ct.render(&parsed);
    assert_eq!(rendered, "xs=-3,5,10");
}

#[test]
fn default_template_matches_declared_order() {
    let fields = vec![plain("one", "u8"), plain("two", "u8")];
    assert_eq!(templatia::fields::default_template(&fields), "one = {one}\ntwo = {two}");
}
