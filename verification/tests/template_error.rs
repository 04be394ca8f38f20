use templatia::errors::TemplateError;
use templatia::Template;
use templatia::fields::{FieldDescriptor, TypeSig};
use templatia::scalar::ScalarValue;
use templatia::template::{CompiledTemplate, Config};
use templatia::value::{FieldValue, Record};

fn plain(name: &str, ty: &str) -> FieldDescriptor {
    FieldDescriptor { name: name.to_string(), ty: TypeSig::Plain(ty.to_string()) }
}

#[allow(dead_code)]
fn wrap1(name: &str, outer: &str, inner: &str) -> FieldDescriptor {
    FieldDescriptor {
        name: name.to_string(),
        ty: TypeSig::Generic1(outer.to_string(), inner.to_string()),
    }
}

fn cfg(template: &str, allow_missing: bool, empty_absent: bool) -> Config {
    Config {
        template: template.to_string(),
        allow_missing_placeholders: allow_missing,
        empty_string_means_absent: empty_absent,
    }
}

fn compile(fields: Vec<FieldDescriptor>, config: Config) -> CompiledTemplate {
    CompiledTemplate::compile(fields, config).expect("template should compile")
}

#[allow(dead_code)]
fn record(entries: Vec<(&str, FieldValue)>) -> Record {
    let mut r = Record::new();
    for (n, v) in entries {
        r.push(n.to_string(), v);
    }
    r
}

#[allow(dead_code)]
fn vs(x: &str) -> FieldValue {
    FieldValue::Primitive(ScalarValue::Str(x.to_string()))
}

#[allow(dead_code)]
fn get(rec: &Record, name: &str) -> FieldValue {
    rec.get(name).expect("field should be bound").clone()
}

#[allow(dead_code)]
fn get_str(rec: &Record, name: &str) -> String {
    match get(rec, name) {
        FieldValue::Primitive(ScalarValue::Str(s)) => s,
        other => panic!("expected string value, got {other:?}"),
    }
}

#[allow(dead_code)]
fn get_opt(rec: &Record, name: &str) -> Option<ScalarValue> {
    match get(rec, name) {
        FieldValue::Optional(o) => o,
        other => panic!("expected optional value, got {other:?}"),
    }
}

#[allow(dead_code)]
fn get_elems(rec: &Record, name: &str) -> Vec<ScalarValue> {
    match get(rec, name) {
        FieldValue::Sequence(v) => v,
        FieldValue::SetOf(v) => v,
        FieldValue::OrderedSetOf(v) => v,
        other => panic!("expected collection value, got {other:?}"),
    }
}


#[test]
fn template_error_parse_displays_message() {
    let e = TemplateError::Parse("bad input".to_string());
    assert_eq!(e.message(), "Parse error: bad input");
}

#[test]
fn template_error_inconsistent_values_includes_fields() {
    let e = TemplateError::InconsistentValues {
        placeholder: "name".to_string(),
        first_value: "a".to_string(),
        second_value: "b".to_string(),
    };
    let msg = e.message();
    assert!(msg.contains("name"));
    assert!(msg.contains("a"));
    assert!(msg.contains("b"));
}

#[test]
fn template_trait_can_be_implemented_minimally() {
    struct S;
    impl Template for S {
        type Error = TemplateError;
        fn render_string(&self) -> String {
            "x".into()
        }
        fn from_str(_: &str) -> Result<Self, Self::Error> {
            Ok(S)
        }
    }

    assert_eq!(S.render_string(), "x");
    let _ = S::from_str("").unwrap();
}
