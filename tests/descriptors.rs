use anon_targets::anon_target::{AnonTarget, AnonTargetKey, AttrEntry, RawAttrs, RuleSchema, RuleType};
use anon_targets::attrs::{AttrSpec, AttrType, AttrValue, RawItem, RawValue};
use anon_targets::deferred_key::{BaseDeferredKey, BxlKey};
use anon_targets::error::AttrError;
use anon_targets::label::{ConfiguredTargetLabel, TargetLabel};
use std::sync::Arc;

fn spec(name: &str, typ: AttrType, default: Option<AttrValue>) -> AttrSpec {
    AttrSpec { name: name.to_owned(), typ, default }
}

fn schema(attrs: Vec<AttrSpec>) -> RuleSchema {
    RuleSchema {
        rule_type: RuleType { path: "//rules:defs.bzl".to_owned(), name: "my_rule".to_owned() },
        attrs,
    }
}

fn label(s: &str) -> TargetLabel {
    anon_targets::label::parse_target_label(s).unwrap()
}

fn raw(pairs: Vec<(&str, RawValue)>) -> RawAttrs {
    pairs.into_iter().map(|(k, v)| (k.to_owned(), v)).collect()
}

fn s(x: &str) -> RawValue {
    RawValue::Str(x.to_owned())
}

fn value_extra_schema() -> RuleSchema {
    schema(vec![
        spec("value", AttrType::String, None),
        spec("extra", AttrType::String, Some(AttrValue::Str("d".to_owned()))),
    ])
}

fn entry_str(e: &AttrEntry) -> (String, String) {
    match &e.value {
        AttrValue::Str(v) => (e.name.clone(), v.clone()),
        other => panic!("{:?}", other),
    }
}

#[test]
fn default_fills_omitted_attribute() {
    let t = AnonTarget::new(&value_extra_schema(), &raw(vec![("value", s("x"))]), &"exec".to_owned()).unwrap();
    let attrs: Vec<(String, String)> = t.attrs().iter().map(entry_str).collect();
    assert_eq!(
        attrs,
        vec![("value".to_owned(), "x".to_owned()), ("extra".to_owned(), "d".to_owned())]
    );
    assert_eq!(t.exec_cfg(), "exec");
    assert_eq!(t.rule_type().name, "my_rule");
}

#[test]
fn supplied_value_overrides_default() {
    let t = AnonTarget::new(
        &value_extra_schema(),
        &raw(vec![("extra", s("e")), ("value", s("x"))]),
        &"exec".to_owned(),
    )
    .unwrap();
    let attrs: Vec<(String, String)> = t.attrs().iter().map(entry_str).collect();
    assert_eq!(
        attrs,
        vec![("value".to_owned(), "x".to_owned()), ("extra".to_owned(), "e".to_owned())]
    );
}

#[test]
fn missing_attribute_without_default() {
    match AnonTarget::new(&value_extra_schema(), &raw(vec![("extra", s("e"))]), &"exec".to_owned()) {
        Err(AttrError::MissingAttribute(a)) => assert_eq!(a, "value"),
        other => panic!("{:?}", other),
    }
}

#[test]
fn unnamed_target_gets_anon_label() {
    let t = AnonTarget::new(&value_extra_schema(), &raw(vec![("value", s("x"))]), &"exec".to_owned()).unwrap();
    assert_eq!(t.name().to_label_string(), "anon//:my_rule");
}

#[test]
fn named_target_keeps_its_label() {
    let t = AnonTarget::new(
        &value_extra_schema(),
        &raw(vec![("value", s("x")), ("name", s("cell//pkg:tgt"))]),
        &"exec".to_owned(),
    )
    .unwrap();
    assert_eq!(t.name().to_label_string(), "cell//pkg:tgt");
    let t = AnonTarget::new(
        &value_extra_schema(),
        &raw(vec![("name", RawValue::Label(label("//a:b"))), ("value", s("x"))]),
        &"exec".to_owned(),
    )
    .unwrap();
    assert_eq!(t.name().to_label_string(), "//a:b");
}

#[test]
fn bad_name_string_is_not_a_label() {
    match AnonTarget::new(&value_extra_schema(), &raw(vec![("value", s("x")), ("name", s("foo"))]), &"e".to_owned()) {
        Err(AttrError::NotTargetLabel(n)) => assert_eq!(n, "foo"),
        other => panic!("{:?}", other),
    }
}

#[test]
fn name_of_wrong_type() {
    match AnonTarget::new(&value_extra_schema(), &raw(vec![("name", RawValue::Int(3))]), &"e".to_owned()) {
        Err(AttrError::InvalidNameType(t)) => assert_eq!(t, "int"),
        other => panic!("{:?}", other),
    }
}

#[test]
fn unknown_and_internal_attributes() {
    match AnonTarget::new(&value_extra_schema(), &raw(vec![("value", s("x")), ("nope", s("y"))]), &"e".to_owned()) {
        Err(AttrError::UnknownAttribute(a)) => assert_eq!(a, "nope"),
        other => panic!("{:?}", other),
    }
    match AnonTarget::new(&value_extra_schema(), &raw(vec![("visibility", s("y")), ("value", s("x"))]), &"e".to_owned()) {
        Err(AttrError::InternalAttribute(a)) => assert_eq!(a, "visibility"),
        other => panic!("{:?}", other),
    }
}

#[test]
fn first_error_in_input_order_wins() {
    match AnonTarget::new(&value_extra_schema(), &raw(vec![("zzz", s("y")), ("visibility", s("v"))]), &"e".to_owned()) {
        Err(AttrError::UnknownAttribute(a)) => assert_eq!(a, "zzz"),
        other => panic!("{:?}", other),
    }
}

#[test]
fn coercion_errors() {
    let sch = schema(vec![
        spec("d", AttrType::Dep, None),
        spec("l", AttrType::Label, None),
        spec("n", AttrType::Int, None),
        spec("ds", AttrType::DepList, None),
        spec("ss", AttrType::StringList, None),
    ]);
    let dep = RawValue::Dependency(label("//x:y"));
    let good = |extra: Vec<(&str, RawValue)>| {
        let mut v = vec![
            ("d", dep.clone()),
            ("n", RawValue::Int(1)),
            ("ds", RawValue::List(vec![])),
            ("ss", RawValue::List(vec![])),
        ];
        v.extend(extra);
        raw(v)
    };
    match AnonTarget::new(&sch, &raw(vec![("d", s("//x:y"))]), &"e".to_owned()) {
        Err(AttrError::InvalidDep(a, t)) => assert_eq!((a.as_str(), t.as_str()), ("d", "string")),
        other => panic!("{:?}", other),
    }
    match AnonTarget::new(&sch, &good(vec![("l", s("//x:y"))]), &"e".to_owned()) {
        Err(AttrError::CantParseDuringCoerce(a, v)) => assert_eq!((a.as_str(), v.as_str()), ("l", "//x:y")),
        other => panic!("{:?}", other),
    }
    match AnonTarget::new(&sch, &raw(vec![("n", s("1"))]), &"e".to_owned()) {
        Err(AttrError::WrongType(a, t)) => assert_eq!((a.as_str(), t.as_str()), ("n", "string")),
        other => panic!("{:?}", other),
    }
    match AnonTarget::new(&sch, &raw(vec![("ds", RawValue::List(vec![RawItem::Int(2)]))]), &"e".to_owned()) {
        Err(AttrError::InvalidDep(a, t)) => assert_eq!((a.as_str(), t.as_str()), ("ds", "int")),
        other => panic!("{:?}", other),
    }
    match AnonTarget::new(&sch, &raw(vec![("ss", RawValue::List(vec![RawItem::Str("a".to_owned()), RawItem::Bool(true)]))]), &"e".to_owned()) {
        Err(AttrError::WrongType(a, t)) => assert_eq!((a.as_str(), t.as_str()), ("ss", "bool")),
        other => panic!("{:?}", other),
    }
}

#[test]
fn dependencies_in_attribute_order() {
    let sch = schema(vec![
        spec("first", AttrType::Dep, None),
        spec("many", AttrType::DepList, None),
        spec("flag", AttrType::Bool, Some(AttrValue::Bool(false))),
    ]);
    let input = raw(vec![
        (
            "many",
            RawValue::List(vec![
                RawItem::Dependency(label("//b:b")),
                RawItem::Dependency(label("//c:c")),
            ]),
        ),
        ("first", RawValue::Dependency(label("//a:a"))),
    ]);
    let t = AnonTarget::new(&sch, &input, &"e".to_owned()).unwrap();
    let deps: Vec<String> = t.deps().iter().map(|l| l.to_label_string()).collect();
    assert_eq!(deps, vec!["//a:a", "//b:b", "//c:c"]);
}

#[test]
fn descriptor_independent_of_input_order() {
    let sch = value_extra_schema();
    let a = AnonTargetKey::new(&sch, &raw(vec![("value", s("x")), ("extra", s("y"))]), &"e".to_owned()).unwrap();
    let b = AnonTargetKey::new(&sch, &raw(vec![("extra", s("y")), ("value", s("x"))]), &"e".to_owned()).unwrap();
    assert!(a == b);
    let c = AnonTargetKey::new(&sch, &raw(vec![("extra", s("z")), ("value", s("x"))]), &"e".to_owned()).unwrap();
    assert!(a != c);
    let d = AnonTargetKey::new(&sch, &raw(vec![("value", s("x")), ("extra", s("y"))]), &"other".to_owned()).unwrap();
    assert!(a != d);
}

#[test]
fn deferred_key_equality() {
    let sch = value_extra_schema();
    let t = AnonTarget::new(&sch, &raw(vec![("value", s("x"))]), &"e".to_owned()).unwrap();
    let a = BaseDeferredKey::AnonTarget(Arc::new(t.clone()));
    let b = BaseDeferredKey::AnonTarget(Arc::new(t));
    assert!(a == b);
    let c = BaseDeferredKey::TargetLabel(ConfiguredTargetLabel { target: label("//a:b"), cfg: "cfg".to_owned() });
    assert!(a != c);
    let x = BaseDeferredKey::BxlLabel(BxlKey { path: "f.bxl".to_owned(), name: "main".to_owned() });
    assert!(x == x.clone());
    assert!(x != c);
}
