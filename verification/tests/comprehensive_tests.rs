use templatia::errors::TemplateError;
use templatia::fields::{FieldDescriptor, TypeSig};
use templatia::scalar::ScalarValue;
use templatia::template::{CompiledTemplate, Config};
use templatia::value::{FieldValue, Record};

fn plain(name: &str, ty: &str) -> FieldDescriptor {
    FieldDescriptor { name: name.to_string(), ty: TypeSig::Plain(ty.to_string()) }
}

#[allow(dead_code)]
fn wrap1(name: &str, outer: &str, inner: &str) -> FieldDescriptor {
    FieldDescriptor {
        name: name.to_string(),
        ty: TypeSig::Generic1(outer.to_string(), inner.to_string()),
    }
}

fn cfg(template: &str, allow_missing: bool, empty_absent: bool) -> Config {
    Config {
        template: template.to_string(),
        allow_missing_placeholders: allow_missing,
        empty_string_means_absent: empty_absent,
    }
}

fn compile(fields: Vec<FieldDescriptor>, config: Config) -> CompiledTemplate {
    CompiledTemplate::compile(fields, config).expect("template should compile")
}

#[allow(dead_code)]
fn record(entries: Vec<(&str, FieldValue)>) -> Record {
    let mut r = Record::new();
    for (n, v) in entries {
        r.push(n.to_string(), v);
    }
    r
}

#[allow(dead_code)]
fn vs(x: &str) -> FieldValue {
    FieldValue::Primitive(ScalarValue::Str(x.to_string()))
}

#[allow(dead_code)]
fn get(rec: &Record, name: &str) -> FieldValue {
    rec.get(name).expect("field should be bound").clone()
}

#[allow(dead_code)]
fn get_str(rec: &Record, name: &str) -> String {
    match get(rec, name) {
        FieldValue::Primitive(ScalarValue::Str(s)) => s,
        other => panic!("expected string value, got {other:?}"),
    }
}

#[allow(dead_code)]
fn get_opt(rec: &Record, name: &str) -> Option<ScalarValue> {
    match get(rec, name) {
        FieldValue::Optional(o) => o,
        other => panic!("expected optional value, got {other:?}"),
    }
}

#[allow(dead_code)]
fn get_elems(rec: &Record, name: &str) -> Vec<ScalarValue> {
    match get(rec, name) {
        FieldValue::Sequence(v) => v,
        FieldValue::SetOf(v) => v,
        FieldValue::OrderedSetOf(v) => v,
        other => panic!("expected collection value, got {other:?}"),
    }
}

#[allow(dead_code)]
fn vu8(n: u8) -> FieldValue { FieldValue::Primitive(ScalarValue::U8(n)) }
#[allow(dead_code)]
fn vu16(n: u16) -> FieldValue { FieldValue::Primitive(ScalarValue::U16(n)) }
#[allow(dead_code)]
fn vu32(n: u32) -> FieldValue { FieldValue::Primitive(ScalarValue::U32(n)) }
#[allow(dead_code)]
fn vu64(n: u64) -> FieldValue { FieldValue::Primitive(ScalarValue::U64(n)) }
#[allow(dead_code)]
fn vi32(n: i32) -> FieldValue { FieldValue::Primitive(ScalarValue::I32(n)) }
#[allow(dead_code)]
fn vi64(n: i64) -> FieldValue { FieldValue::Primitive(ScalarValue::I64(n)) }
#[allow(dead_code)]
fn vb(b: bool) -> FieldValue { FieldValue::Primitive(ScalarValue::Bool(b)) }
#[allow(dead_code)]
fn vc(c: char) -> FieldValue { FieldValue::Primitive(ScalarValue::Char(c)) }


#[test]
fn default_template_single_field() {
    let fields = vec![plain("name", "String")];
    let template = templatia::fields::default_template(&fields);
    let ct = compile(fields, cfg(&template, false, true));
    let rec = record(vec![("name", vs("test"))]);
    let rendered = ct.render(&rec);
    assert_eq!(rendered, "name = test");
    let parsed = ct.parse(&rendered).unwrap();
    assert_eq!(get_str(&parsed, "name"), "test");
}

#[test]
fn default_template_multiple_fields_preserves_order() {
    let fields = vec![plain("alpha", "String"), plain("beta", "u32"), plain("gamma", "bool")];
    let template = templatia::fields::default_template(&fields);
    let ct = compile(fields, cfg(&template, false, true));
    let rec = record(vec![("alpha", vs("first")), ("beta", vu32(42)), ("gamma", vb(true))]);
    let rendered = ct.render(&rec);
    assert_eq!(rendered, "alpha = first\nbeta = 42\ngamma = true");
    let parsed = ct.parse(&rendered).unwrap();
    assert_eq!(parsed, rec);
}

#[test]
fn default_template_boolean_values() {
    let fields = vec![plain("flag_true", "bool"), plain("flag_false", "bool")];
    let template = templatia::fields::default_template(&fields);
    let ct = compile(fields, cfg(&template, false, true));
    let rec = record(vec![("flag_true", vb(true)), ("flag_false", vb(false))]);
    let rendered = ct.render(&rec);
    assert_eq!(rendered, "flag_true = true\nflag_false = false");
    let parsed = ct.parse(&rendered).unwrap();
    assert_eq!(parsed, rec);
}

#[test]
fn default_template_empty_string() {
    let fields = vec![plain("empty", "String"), plain("normal", "String")];
    let template = templatia::fields::default_template(&fields);
    let ct = compile(fields, cfg(&template, false, true));
    let rec = record(vec![("empty", vs("")), ("normal", vs("content"))]);
    let rendered = ct.render(&rec);
    assert_eq!(rendered, "empty = \nnormal = content");
    let parsed = ct.parse(&rendered).unwrap();
    assert_eq!(parsed, rec);
}

#[test]
fn custom_template_complex_format() {
    let ct = compile(
        vec![plain("host", "String"), plain("port", "u16"), plain("database", "String")],
        cfg("Server: {host} | Port: {port} | DB: {database}", false, true),
    );
    let rec = record(vec![
        ("host", vs("db.example.com")),
        ("port", vu16(5432)),
        ("database", vs("production")),
    ]);
    let rendered = ct.render(&rec);
    assert_eq!(rendered, "Server: db.example.com | Port: 5432 | DB: production");
    let parsed = ct.parse(&rendered).unwrap();
    assert_eq!(parsed, rec);
}

#[test]
fn custom_template_url_format() {
    let ct = compile(
        vec![
            plain("host", "String"),
            plain("port", "u16"),
            plain("path", "String"),
            plain("token", "String"),
        ],
        cfg("https://{host}:{port}/{path}?token={token}", false, true),
    );
    let rec = record(vec![
        ("host", vs("api.example.com")),
        ("port", vu16(443)),
        ("path", vs("v1/data")),
        ("token", vs("abc123")),
    ]);
    let rendered = ct.render(&rec);
    assert_eq!(rendered, "https://api.example.com:443/v1/data?token=abc123");
    let parsed = ct.parse(&rendered).unwrap();
    assert_eq!(parsed, rec);
}

#[test]
fn custom_template_json_like_format() {
    let ct = compile(
        vec![plain("name", "String"), plain("age", "u32"), plain("active", "bool")],
        cfg("{{\"name\": \"{name}\", \"age\": {age}, \"active\": {active}}}", false, true),
    );
    let rec = record(vec![("name", vs("Alice")), ("age", vu32(30)), ("active", vb(true))]);
    let rendered = ct.render(&rec);
    assert_eq!(rendered, "{\"name\": \"Alice\", \"age\": 30, \"active\": true}");
    let parsed = ct.parse(&rendered).unwrap();
    assert_eq!(parsed, rec);
}

#[test]
fn custom_template_with_special_characters() {
    let ct = compile(
        vec![plain("name", "String"), plain("email", "String"), plain("notes", "String")],
        cfg("User: {name}\nEmail: {email}\nNotes: {notes}", false, true),
    );
    let rec = record(vec![
        ("name", vs("John Doe")),
        ("email", vs("john@example.com")),
        ("notes", vs("Test notes with symbols: @#$%^&*()")),
    ]);
    let rendered = ct.render(&rec);
    let parsed = ct.parse(&rendered).unwrap();
    assert_eq!(parsed, rec);
}

#[test]
fn custom_template_minimal_format() {
    let ct = compile(vec![plain("value", "String")], cfg("{value}", false, true));
    let rec = record(vec![("value", vs("just_this"))]);
    let rendered = ct.render(&rec);
    assert_eq!(rendered, "just_this");
    let parsed = ct.parse(&rendered).unwrap();
    assert_eq!(parsed, rec);
}

#[test]
fn duplicate_placeholders_consistent_values() {
    let ct = compile(
        vec![plain("name", "String")],
        cfg("Hello {name}! Welcome back, {name}!", false, true),
    );
    let rec = record(vec![("name", vs("Alice"))]);
    let rendered = ct.render(&rec);
    assert_eq!(rendered, "Hello Alice! Welcome back, Alice!");
    let parsed = ct.parse(&rendered).unwrap();
    assert_eq!(parsed, rec);
}

#[test]
fn duplicate_placeholders_many_occurrences() {
    let ct = compile(vec![plain("id", "u32")], cfg("{id}-{id}-{id}-{id}", false, true));
    let rec = record(vec![("id", vu32(12345))]);
    let rendered = ct.render(&rec);
    assert_eq!(rendered, "12345-12345-12345-12345");
    let parsed = ct.parse(&rendered).unwrap();
    assert_eq!(parsed, rec);
}

#[test]
fn duplicate_placeholders_inconsistent_values_error() {
    let ct = compile(vec![plain("name", "String")], cfg("first={name}, second={name}", false, true));
    match ct.parse("first=alice, second=bob") {
        Err(TemplateError::InconsistentValues { placeholder, first_value, second_value }) => {
            assert_eq!(placeholder, "name");
            assert_eq!(first_value, "alice");
            assert_eq!(second_value, "bob");
        }
        other => panic!("Expected InconsistentValues error, got: {other:?}"),
    }
}

#[test]
fn duplicate_placeholders_numeric_inconsistency() {
    let ct = compile(vec![plain("port", "u16")], cfg("port1={port} port2={port}", false, true));
    match ct.parse("port1=8080 port2=9090") {
        Err(TemplateError::InconsistentValues { placeholder, first_value, second_value }) => {
            assert_eq!(placeholder, "port");
            assert_eq!(first_value, "8080");
            assert_eq!(second_value, "9090");
        }
        other => panic!("Expected InconsistentValues error, got: {other:?}"),
    }
}

#[test]
fn duplicate_placeholders_mixed_with_unique() {
    let ct = compile(
        vec![plain("env", "String"), plain("service", "String"), plain("version", "String")],
        cfg("{env}-{service}-{env}-{version}", false, true),
    );
    let rec = record(vec![("env", vs("prod")), ("service", vs("api")), ("version", vs("v1.0"))]);
    let rendered = ct.render(&rec);
    assert_eq!(rendered, "prod-api-prod-v1.0");
    let parsed = ct.parse(&rendered).unwrap();
    assert_eq!(parsed, rec);
}

#[test]
fn parse_error_invalid_number() {
    let ct = compile(vec![plain("port", "u16")], cfg("port={port}", false, true));
    match ct.parse("port=not_a_number") {
        Err(TemplateError::ParseToType { placeholder, value, ty_name }) => {
            assert_eq!(placeholder, "port");
            assert_eq!(value, "not_a_number");
            assert_eq!(ty_name, "u16");
        }
        other => panic!("Expected ParseToType error, got: {other:?}"),
    }
}

#[test]
fn parse_error_invalid_boolean() {
    let ct = compile(vec![plain("enabled", "bool")], cfg("enabled={enabled}", false, true));
    match ct.parse("enabled=maybe") {
        Err(TemplateError::ParseToType { placeholder, value, ty_name }) => {
            assert_eq!(placeholder, "enabled");
            assert_eq!(value, "maybe");
            assert_eq!(ty_name, "bool");
        }
        other => panic!("Expected ParseToType error, got: {other:?}"),
    }
}

#[test]
fn parse_error_number_overflow() {
    let ct = compile(vec![plain("value", "u8")], cfg("value={value}", false, true));
    match ct.parse("value=256") {
        Err(TemplateError::ParseToType { .. }) => {}
        other => panic!("Expected ParseToType error for overflow, got: {other:?}"),
    }
}

#[test]
fn parse_error_negative_unsigned() {
    let ct = compile(vec![plain("count", "u32")], cfg("count={count}", false, true));
    match ct.parse("count=-1") {
        Err(TemplateError::ParseToType { .. }) => {}
        other => panic!("Expected ParseToType error for negative unsigned, got: {other:?}"),
    }
}

#[test]
fn parse_error_malformed_template() {
    let ct = compile(
        vec![plain("host", "String"), plain("port", "u16")],
        cfg("host={host}:{port}", false, true),
    );
    match ct.parse("host=localhost 8080") {
        Err(TemplateError::UnexpectedInput { .. }) => {}
        other => panic!("Expected UnexpectedInput error for malformed input, got: {other:?}"),
    }
}

#[test]
fn parse_error_partial_template_match() {
    let ct = compile(vec![plain("value", "String")], cfg("prefix_{value}_suffix", false, true));
    match ct.parse("prefix_test") {
        Err(TemplateError::UnexpectedInput { .. }) => {}
        other => panic!("Expected UnexpectedInput error for partial match, got: {other:?}"),
    }
}

#[test]
fn extreme_numeric_values() {
    let ct = compile(
        vec![plain("max_val", "i64"), plain("min_val", "i64")],
        cfg("max={max_val}, min={min_val}", false, true),
    );
    let rec = record(vec![("max_val", vi64(i64::MAX)), ("min_val", vi64(i64::MIN))]);
    let rendered = ct.render(&rec);
    let parsed = ct.parse(&rendered).unwrap();
    assert_eq!(parsed, rec);
}

#[test]
fn string_with_whitespace() {
    let ct = compile(vec![plain("name", "String")], cfg("name={name}", false, true));
    let rec = record(vec![("name", vs("  spaced  name  "))]);
    let rendered = ct.render(&rec);
    let parsed = ct.parse(&rendered).unwrap();
    assert_eq!(parsed, rec);
}

#[test]
fn string_with_newlines() {
    let ct = compile(vec![plain("content", "String")], cfg("content={content}", false, true));
    let rec = record(vec![("content", vs("line1\nline2\nline3"))]);
    let rendered = ct.render(&rec);
    let parsed = ct.parse(&rendered).unwrap();
    assert_eq!(parsed, rec);
}

#[test]
fn mixed_field_order_in_custom_template() {
    let ct = compile(
        vec![plain("a", "String"), plain("b", "u32"), plain("c", "bool")],
        cfg("{c}-{a}-{b}", false, true),
    );
    let rec = record(vec![("a", vs("middle")), ("b", vu32(999)), ("c", vb(false))]);
    let rendered = ct.render(&rec);
    assert_eq!(rendered, "false-middle-999");
    let parsed = ct.parse(&rendered).unwrap();
    assert_eq!(parsed, rec);
}

#[test]
fn single_field_repeated_many_times() {
    let ct = compile(vec![plain("x", "char")], cfg("{x}{x}{x}{x}{x}{x}{x}{x}", false, true));
    let rec = record(vec![("x", vc('A'))]);
    let rendered = ct.render(&rec);
    assert_eq!(rendered, "AAAAAAAA");
    let parsed = ct.parse(&rendered).unwrap();
    assert_eq!(parsed, rec);
}

#[test]
fn roundtrip_consistency_default_template() {
    let fields = vec![plain("name", "String"), plain("count", "u32"), plain("enabled", "bool")];
    let template = templatia::fields::default_template(&fields);
    let ct = compile(fields, cfg(&template, false, true));
    let rec = record(vec![("name", vs("test_data")), ("count", vu32(100)), ("enabled", vb(true))]);
    let template1 = ct.render(&rec);
    let parsed1 = ct.parse(&template1).unwrap();
    assert_eq!(parsed1, rec);
    let template2 = ct.render(&parsed1);
    let parsed2 = ct.parse(&template2).unwrap();
    assert_eq!(parsed2, rec);
    assert_eq!(template1, template2);
}

#[test]
fn roundtrip_consistency_custom_template() {
    let ct = compile(
        vec![plain("name", "String"), plain("value", "String")],
        cfg("Config[{name}]={value}", false, true),
    );
    let original = record(vec![
        ("name", vs("database_url")),
        ("value", vs("postgres://localhost:5432/mydb")),
    ]);
    let mut current = original.clone();
    for _ in 0..5 {
        let rendered = ct.render(&current);
        current = ct.parse(&rendered).unwrap();
    }
    assert_eq!(current, original);
}

#[test]
fn roundtrip_with_edge_case_values() {
    let ct = compile(
        vec![plain("text", "String"), plain("number", "i32")],
        cfg("'{text}' #{number}", false, true),
    );
    let cases = vec![
        record(vec![("text", vs("")), ("number", vi32(0))]),
        record(vec![("text", vs("single")), ("number", vi32(-1))]),
        record(vec![("text", vs("with spaces and symbols: @#$%")), ("number", vi32(i32::MAX))]),
        record(vec![("text", vs("unicode: \u{1F980} Rust \u{1F680}")), ("number", vi32(i32::MIN))]),
    ];
    for original in cases {
        let rendered = ct.render(&original);
        let parsed = ct.parse(&rendered).unwrap();
        assert_eq!(parsed, original, "Failed roundtrip for: {original:?}");
    }
}

#[test]
fn consecutive_char_placeholders_allowed() {
    let ct = compile(
        vec![plain("first", "char"), plain("second", "char")],
        cfg("{first}{second}", false, true),
    );
    let rec = record(vec![("first", vc('A')), ("second", vc('B'))]);
    let rendered = ct.render(&rec);
    assert_eq!(rendered, "AB");
    let parsed = ct.parse(&rendered).unwrap();
    assert_eq!(parsed, rec);
}

#[test]
fn consecutive_bool_placeholders_allowed() {
    let ct = compile(
        vec![plain("flag1", "bool"), plain("flag2", "bool")],
        cfg("{flag1}{flag2}", false, true),
    );
    let rec = record(vec![("flag1", vb(true)), ("flag2", vb(false))]);
    let rendered = ct.render(&rec);
    assert_eq!(rendered, "truefalse");
    let parsed = ct.parse(&rendered).unwrap();
    assert_eq!(parsed, rec);
}

#[test]
fn mixed_char_bool_consecutive_allowed() {
    let ct = compile(
        vec![plain("character", "char"), plain("flag", "bool")],
        cfg("{character}{flag}", false, true),
    );
    let rec = record(vec![("character", vc('X')), ("flag", vb(true))]);
    let rendered = ct.render(&rec);
    assert_eq!(rendered, "Xtrue");
    let parsed = ct.parse(&rendered).unwrap();
    assert_eq!(parsed, rec);
}

#[test]
fn bool_char_consecutive_allowed() {
    let ct = compile(
        vec![plain("enabled", "bool"), plain("grade", "char")],
        cfg("{enabled}{grade}", false, true),
    );
    let rec = record(vec![("enabled", vb(false)), ("grade", vc('A'))]);
    let rendered = ct.render(&rec);
    assert_eq!(rendered, "falseA");
    let parsed = ct.parse(&rendered).unwrap();
    assert_eq!(parsed, rec);
}

#[test]
fn multiple_consecutive_chars() {
    let ct = compile(
        vec![plain("a", "char"), plain("b", "char"), plain("c", "char"), plain("d", "char")],
        cfg("{a}{b}{c}{d}", false, true),
    );
    let rec = record(vec![("a", vc('T')), ("b", vc('E')), ("c", vc('S')), ("d", vc('T'))]);
    let rendered = ct.render(&rec);
    assert_eq!(rendered, "TEST");
    let parsed = ct.parse(&rendered).unwrap();
    assert_eq!(parsed, rec);
}

#[test]
fn multiple_consecutive_bools() {
    let ct = compile(
        vec![plain("a", "bool"), plain("b", "bool"), plain("c", "bool")],
        cfg("{a}{b}{c}", false, true),
    );
    let rec = record(vec![("a", vb(true)), ("b", vb(false)), ("c", vb(true))]);
    let rendered = ct.render(&rec);
    assert_eq!(rendered, "truefalsetrue");
    let parsed = ct.parse(&rendered).unwrap();
    assert_eq!(parsed, rec);
}

#[test]
fn char_with_literal_separator() {
    let ct = compile(
        vec![plain("first", "char"), plain("second", "char")],
        cfg("{first}-{second}", false, true),
    );
    let rec = record(vec![("first", vc('A')), ("second", vc('Z'))]);
    let rendered = ct.render(&rec);
    assert_eq!(rendered, "A-Z");
    let parsed = ct.parse(&rendered).unwrap();
    assert_eq!(parsed, rec);
}

#[test]
fn bool_with_literal_separator() {
    let ct = compile(
        vec![plain("enabled", "bool"), plain("disabled", "bool")],
        cfg("{enabled}|{disabled}", false, true),
    );
    let rec = record(vec![("enabled", vb(true)), ("disabled", vb(false))]);
    let rendered = ct.render(&rec);
    assert_eq!(rendered, "true|false");
    let parsed = ct.parse(&rendered).unwrap();
    assert_eq!(parsed, rec);
}

#[test]
fn escaped_opening_brace() {
    let ct = compile(vec![plain("value", "String")], cfg("{{value={value}", false, true));
    let rec = record(vec![("value", vs("test"))]);
    let rendered = ct.render(&rec);
    assert_eq!(rendered, "{value=test");
    let parsed = ct.parse(&rendered).unwrap();
    assert_eq!(parsed, rec);
}

#[test]
fn escaped_closing_brace() {
    let ct = compile(vec![plain("value", "String")], cfg("value={value}}}", false, true));
    let rec = record(vec![("value", vs("test"))]);
    let rendered = ct.render(&rec);
    assert_eq!(rendered, "value=test}");
    let parsed = ct.parse(&rendered).unwrap();
    assert_eq!(parsed, rec);
}

#[test]
fn both_escaped_braces() {
    let ct = compile(vec![plain("value", "String")], cfg("{{data: {value}}}", false, true));
    let rec = record(vec![("value", vs("test"))]);
    let rendered = ct.render(&rec);
    assert_eq!(rendered, "{data: test}");
    let parsed = ct.parse(&rendered).unwrap();
    assert_eq!(parsed, rec);
}

#[test]
fn multiple_escaped_braces() {
    let ct = compile(vec![plain("value", "String")], cfg("{{{{prefix}}}}: {value}", false, true));
    let rec = record(vec![("value", vs("data"))]);
    let rendered = ct.render(&rec);
    assert_eq!(rendered, "{{prefix}}: data");
    let parsed = ct.parse(&rendered).unwrap();
    assert_eq!(parsed, rec);
}

#[test]
fn basic_missing_field_with_default() {
    let ct = compile(
        vec![plain("name", "String"), plain("port", "u16")],
        cfg("name={name}", true, true),
    );
    let rec = record(vec![("name", vs("server")), ("port", vu16(8080))]);
    let rendered = ct.render(&rec);
    assert_eq!(rendered, "name=server");
    let parsed = ct.parse(&rendered).unwrap();
    assert_eq!(get_str(&parsed, "name"), "server");
    assert_eq!(get(&parsed, "port"), vu16(0));
}

#[test]
fn multiple_missing_fields() {
    let ct = compile(
        vec![plain("id", "u32"), plain("name", "String"), plain("enabled", "bool"), plain("count", "i32")],
        cfg("id={id}", true, true),
    );
    let rec = record(vec![
        ("id", vu32(42)),
        ("name", vs("test")),
        ("enabled", vb(true)),
        ("count", vi32(-5)),
    ]);
    let rendered = ct.render(&rec);
    assert_eq!(rendered, "id=42");
    let parsed = ct.parse(&rendered).unwrap();
    assert_eq!(get(&parsed, "id"), vu32(42));
    assert_eq!(get_str(&parsed, "name"), "");
    assert_eq!(get(&parsed, "enabled"), vb(false));
    assert_eq!(get(&parsed, "count"), vi32(0));
}

#[test]
fn missing_field_with_some_in_template() {
    let ct = compile(
        vec![
            plain("user", "String"),
            plain("pass", "String"),
            plain("domain", "String"),
            plain("port", "u16"),
        ],
        cfg("user={user}:pass={pass}", true, true),
    );
    let rec = record(vec![
        ("user", vs("admin")),
        ("pass", vs("secret")),
        ("domain", vs("example.com")),
        ("port", vu16(443)),
    ]);
    let rendered = ct.render(&rec);
    assert_eq!(rendered, "user=admin:pass=secret");
    let parsed = ct.parse(&rendered).unwrap();
    assert_eq!(get_str(&parsed, "user"), "admin");
    assert_eq!(get_str(&parsed, "pass"), "secret");
    assert_eq!(get_str(&parsed, "domain"), "");
    assert_eq!(get(&parsed, "port"), vu16(0));
}

#[test]
fn missing_field_roundtrip_consistency() {
    let ct = compile(
        vec![plain("status", "String"), plain("timestamp", "u64"), plain("level", "u8")],
        cfg("status={status}", true, true),
    );
    let original = record(vec![
        ("status", vs("ok")),
        ("timestamp", vu64(1234567890)),
        ("level", vu8(5)),
    ]);
    let template1 = ct.render(&original);
    let parsed1 = ct.parse(&template1).unwrap();
    assert_eq!(get_str(&parsed1, "status"), "ok");
    assert_eq!(get(&parsed1, "timestamp"), vu64(0));
    assert_eq!(get(&parsed1, "level"), vu8(0));
    let template2 = ct.render(&parsed1);
    assert_eq!(template1, template2);
    let parsed2 = ct.parse(&template2).unwrap();
    assert_eq!(parsed2, parsed1);
}

#[test]
fn missing_field_with_duplicate_placeholders() {
    let ct = compile(
        vec![plain("id", "char"), plain("extra", "String")],
        cfg("{id}-{id}-{id}", true, true),
    );
    let rec = record(vec![("id", vc('A')), ("extra", vs("not_in_template"))]);
    let rendered = ct.render(&rec);
    assert_eq!(rendered, "A-A-A");
    let parsed = ct.parse(&rendered).unwrap();
    assert_eq!(get(&parsed, "id"), vc('A'));
    assert_eq!(get_str(&parsed, "extra"), "");
}

#[test]
fn missing_field_empty_template() {
    let ct = compile(
        vec![plain("field1", "String"), plain("field2", "u32")],
        cfg("constant_text", true, true),
    );
    let rec = record(vec![("field1", vs("value")), ("field2", vu32(100))]);
    let rendered = ct.render(&rec);
    assert_eq!(rendered, "constant_text");
    let parsed = ct.parse(&rendered).unwrap();
    assert_eq!(get_str(&parsed, "field1"), "");
    assert_eq!(get(&parsed, "field2"), vu32(0));
}

#[test]
fn missing_field_complex_template() {
    let ct = compile(
        vec![
            plain("name", "String"),
            plain("age", "u8"),
            plain("email", "String"),
            plain("phone", "String"),
            plain("address", "String"),
        ],
        cfg("Name: {name}, Age: {age}", true, true),
    );
    let rec = record(vec![
        ("name", vs("Alice")),
        ("age", vu8(30)),
        ("email", vs("alice@example.com")),
        ("phone", vs("555-1234")),
        ("address", vs("123 Main St")),
    ]);
    let rendered = ct.render(&rec);
    assert_eq!(rendered, "Name: Alice, Age: 30");
    let parsed = ct.parse(&rendered).unwrap();
    assert_eq!(get_str(&parsed, "name"), "Alice");
    assert_eq!(get(&parsed, "age"), vu8(30));
    assert_eq!(get_str(&parsed, "email"), "");
    assert_eq!(get_str(&parsed, "phone"), "");
    assert_eq!(get_str(&parsed, "address"), "");
}

#[test]
fn missing_field_with_consecutive_types() {
    let ct = compile(
        vec![
            plain("flag", "bool"),
            plain("ch", "char"),
            plain("extra1", "String"),
            plain("extra2", "u32"),
        ],
        cfg("{flag}{ch}", true, true),
    );
    let rec = record(vec![
        ("flag", vb(true)),
        ("ch", vc('X')),
        ("extra1", vs("ignored")),
        ("extra2", vu32(999)),
    ]);
    let rendered = ct.render(&rec);
    assert_eq!(rendered, "trueX");
    let parsed = ct.parse(&rendered).unwrap();
    assert_eq!(get(&parsed, "flag"), vb(true));
    assert_eq!(get(&parsed, "ch"), vc('X'));
    assert_eq!(get_str(&parsed, "extra1"), "");
    assert_eq!(get(&parsed, "extra2"), vu32(0));
}

#[test]
fn missing_field_only_first_field_in_template() {
    let ct = compile(
        vec![plain("first", "String"), plain("second", "String"), plain("third", "String")],
        cfg("{first}", true, true),
    );
    let rec = record(vec![("first", vs("one")), ("second", vs("two")), ("third", vs("three"))]);
    let rendered = ct.render(&rec);
    assert_eq!(rendered, "one");
    let parsed = ct.parse(&rendered).unwrap();
    assert_eq!(get_str(&parsed, "first"), "one");
    assert_eq!(get_str(&parsed, "second"), "");
    assert_eq!(get_str(&parsed, "third"), "");
}

#[test]
fn missing_field_only_last_field_in_template() {
    let ct = compile(
        vec![plain("first", "u32"), plain("second", "bool"), plain("last", "String")],
        cfg("result={last}", true, true),
    );
    let rec = record(vec![("first", vu32(100)), ("second", vb(true)), ("last", vs("final"))]);
    let rendered = ct.render(&rec);
    assert_eq!(rendered, "result=final");
    let parsed = ct.parse(&rendered).unwrap();
    assert_eq!(get(&parsed, "first"), vu32(0));
    assert_eq!(get(&parsed, "second"), vb(false));
    assert_eq!(get_str(&parsed, "last"), "final");
}

#[test]
fn missing_field_alternating_pattern() {
    let ct = compile(
        vec![plain("a", "String"), plain("b", "String"), plain("c", "String"), plain("d", "String")],
        cfg("{a}:{c}", true, true),
    );
    let rec = record(vec![("a", vs("A")), ("b", vs("B")), ("c", vs("C")), ("d", vs("D"))]);
    let rendered = ct.render(&rec);
    assert_eq!(rendered, "A:C");
    let parsed = ct.parse(&rendered).unwrap();
    assert_eq!(get_str(&parsed, "a"), "A");
    assert_eq!(get_str(&parsed, "b"), "");
    assert_eq!(get_str(&parsed, "c"), "C");
    assert_eq!(get_str(&parsed, "d"), "");
}
