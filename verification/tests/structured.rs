use typed_registry::registry::Context;
use typed_registry::slot::Registered;
use typed_registry::structured::{update_structured, Structured, StructuredValue};
use typed_registry::values::Stuff;

fn sample_stuff() -> Stuff {
    Stuff { foo: 42, bar: "hello".to_string() }
}

fn obj(fields: Vec<(&str, StructuredValue)>) -> StructuredValue {
    StructuredValue::Obj(
        fields.into_iter().map(|(name, value)| (name.to_string(), value)).collect(),
    )
}

#[test]
fn to_structured_has_the_expected_shape() {
    let sv = sample_stuff().to_structured();
    let expected = obj(vec![
        ("foo", StructuredValue::Num(42)),
        ("bar", StructuredValue::Str("hello".to_string())),
    ]);
    assert_eq!(sv, expected);
}

#[test]
fn from_structured_round_trips() {
    let s = sample_stuff();
    let back = Stuff::from_structured(&s.to_structured()).unwrap();
    assert_eq!(back, s);
}

#[test]
fn from_structured_rejects_wrong_shapes() {
    assert!(Stuff::from_structured(&StructuredValue::Null).is_none());
    assert!(Stuff::from_structured(&StructuredValue::Num(1)).is_none());
    assert!(Stuff::from_structured(&obj(vec![("foo", StructuredValue::Num(1))])).is_none());
    assert!(Stuff::from_structured(
        &obj(vec![
            ("foo", StructuredValue::Num(1)),
            ("baz", StructuredValue::Str("x".to_string())),
        ]),
    )
    .is_none());
    assert!(Stuff::from_structured(
        &obj(vec![
            ("foo", StructuredValue::Str("not a number".to_string())),
            ("bar", StructuredValue::Str("x".to_string())),
        ]),
    )
    .is_none());
}

#[test]
fn with_field_replaces_an_existing_field() {
    let sv = sample_stuff().to_structured();
    let set = sv.with_field("foo", StructuredValue::Num(1));
    let expected = obj(vec![
        ("foo", StructuredValue::Num(1)),
        ("bar", StructuredValue::Str("hello".to_string())),
    ]);
    assert_eq!(set, expected);
}

#[test]
fn with_field_appends_a_missing_field() {
    let sv = sample_stuff().to_structured();
    let set = sv.with_field("extra", StructuredValue::Bool(true));
    let expected = obj(vec![
        ("foo", StructuredValue::Num(42)),
        ("bar", StructuredValue::Str("hello".to_string())),
        ("extra", StructuredValue::Bool(true)),
    ]);
    assert_eq!(set, expected);
}

#[test]
fn with_field_leaves_other_values_alone() {
    let sv = StructuredValue::Num(3);
    let set = sv.with_field("foo", StructuredValue::Num(1));
    assert_eq!(set, StructuredValue::Num(3));
}

#[test]
fn with_field_touches_only_the_named_field_of_nested_values() {
    let sv = obj(vec![
        ("items", StructuredValue::Arr(vec![StructuredValue::Num(1), StructuredValue::Null])),
        ("flag", StructuredValue::Bool(false)),
    ]);
    let set = sv.with_field("flag", StructuredValue::Bool(true));
    let expected = obj(vec![
        ("items", StructuredValue::Arr(vec![StructuredValue::Num(1), StructuredValue::Null])),
        ("flag", StructuredValue::Bool(true)),
    ]);
    assert_eq!(set, expected);
}

#[test]
fn identity_update_leaves_the_value_unchanged() {
    let mut s = sample_stuff();
    update_structured(&mut s, |sv| sv).unwrap();
    assert_eq!(s, sample_stuff());
}

#[test]
fn update_setting_foo_keeps_the_rest() {
    let mut s = sample_stuff();
    update_structured(&mut s, |sv| sv.with_field("foo", StructuredValue::Num(1))).unwrap();
    assert_eq!(s.foo, 1);
    assert_eq!(s.bar, "hello");
}

#[test]
fn update_breaking_the_schema_fails_and_changes_nothing() {
    let mut s = sample_stuff();
    let r = update_structured(&mut s, |_| StructuredValue::Null);
    assert!(r.is_err());
    assert_eq!(s, sample_stuff());
}

#[test]
fn end_to_end_scenario() {
    let mut ctx = Context::default();
    ctx.push("stuff".to_string(), sample_stuff().wrap()).unwrap();

    ctx.write_with("stuff", |s: &Stuff| Stuff { foo: s.foo, bar: "persisted".to_string() })
        .unwrap();
    let got: &Stuff = ctx.read("stuff").unwrap();
    assert_eq!(got.foo, 42);
    assert_eq!(got.bar, "persisted");

    ctx.write_with("stuff", |s: &Stuff| {
        let mut updated = Stuff { foo: s.foo, bar: s.bar.clone() };
        update_structured(&mut updated, |sv| sv.with_field("foo", StructuredValue::Num(1)))
            .unwrap();
        updated
    })
    .unwrap();
    let got: &Stuff = ctx.read("stuff").unwrap();
    assert_eq!(got.foo, 1);
    assert_eq!(got.bar, "persisted");
}
