use typed_registry::registry::{AccessError, Context};
use typed_registry::slot::{Registered, TypeTag};
use typed_registry::values::{PlainStuff, Stuff};

fn sample_stuff() -> Stuff {
    Stuff { foo: 42, bar: "hello".to_string() }
}

#[test]
fn empty_registry_reads_nothing() {
    let ctx = Context::default();
    assert!(ctx.read::<Stuff>("stuff").is_none());
}

#[test]
fn push_then_read_back() {
    let mut ctx = Context::default();
    ctx.push("stuff".to_string(), sample_stuff().wrap()).unwrap();
    let got: &Stuff = ctx.read("stuff").unwrap();
    assert_eq!(got.foo, 42);
    assert_eq!(got.bar, "hello");
}

#[test]
fn duplicate_push_fails_and_preserves_first_value() {
    let mut ctx = Context::default();
    ctx.push("stuff".to_string(), sample_stuff().wrap()).unwrap();
    let second = Stuff { foo: 7, bar: "other".to_string() };
    let err = ctx.push("stuff".to_string(), second.wrap()).unwrap_err();
    assert_eq!(err.key, "stuff");
    let got: &Stuff = ctx.read("stuff").unwrap();
    assert_eq!(got.foo, 42);
    assert_eq!(got.bar, "hello");
}

#[test]
fn read_missing_key_is_empty() {
    let mut ctx = Context::default();
    ctx.push("stuff".to_string(), sample_stuff().wrap()).unwrap();
    assert!(ctx.read::<Stuff>("absent").is_none());
}

#[test]
fn read_wrong_type_is_empty_too() {
    let mut ctx = Context::default();
    ctx.push("stuff".to_string(), sample_stuff().wrap()).unwrap();
    assert!(ctx.read::<PlainStuff>("stuff").is_none());
}

#[test]
fn write_with_missing_key_is_not_found() {
    let mut ctx = Context::default();
    let err = ctx.write_with("absent", |s: &Stuff| Stuff { foo: s.foo, bar: s.bar.clone() });
    assert_eq!(err.unwrap_err(), AccessError::NotFound { key: "absent".to_string() });
}

#[test]
fn write_with_wrong_type_is_type_mismatch() {
    let mut ctx = Context::default();
    ctx.push("stuff".to_string(), sample_stuff().wrap()).unwrap();
    let err = ctx.write_with("stuff", |p: &PlainStuff| PlainStuff { baz: p.baz + 1 });
    assert_eq!(
        err.unwrap_err(),
        AccessError::TypeMismatch { key: "stuff".to_string(), expected: TypeTag::PlainStuffTag },
    );
    let got: &Stuff = ctx.read("stuff").unwrap();
    assert_eq!(got.foo, 42);
}

#[test]
fn write_with_persists_to_next_read() {
    let mut ctx = Context::default();
    ctx.push("stuff".to_string(), sample_stuff().wrap()).unwrap();
    ctx.write_with("stuff", |s: &Stuff| Stuff { foo: s.foo, bar: "persisted".to_string() })
        .unwrap();
    let got: &Stuff = ctx.read("stuff").unwrap();
    assert_eq!(got.foo, 42);
    assert_eq!(got.bar, "persisted");
}

#[test]
fn values_built_during_read_do_not_persist() {
    let mut ctx = Context::default();
    ctx.push("stuff".to_string(), sample_stuff().wrap()).unwrap();
    if let Some(stuff) = ctx.read::<Stuff>("stuff") {
        let _local = Stuff { foo: stuff.foo * 2, bar: stuff.bar.clone() };
    }
    let got: &Stuff = ctx.read("stuff").unwrap();
    assert_eq!(got.foo, 42);
    assert_eq!(got.bar, "hello");
}

#[test]
fn plain_values_can_be_stored_and_updated() {
    let mut ctx = Context::default();
    ctx.push("plain".to_string(), PlainStuff { baz: 42 }.wrap()).unwrap();
    ctx.write_with("plain", |p: &PlainStuff| PlainStuff { baz: p.baz - 28 }).unwrap();
    let got: &PlainStuff = ctx.read("plain").unwrap();
    assert_eq!(got.baz, 14);
}

#[test]
fn two_keys_are_independent() {
    let mut ctx = Context::default();
    ctx.push("stuff".to_string(), sample_stuff().wrap()).unwrap();
    ctx.push("plain".to_string(), PlainStuff { baz: 1 }.wrap()).unwrap();
    ctx.write_with("plain", |p: &PlainStuff| PlainStuff { baz: p.baz + 1 }).unwrap();
    let got: &Stuff = ctx.read("stuff").unwrap();
    assert_eq!(got.foo, 42);
    let plain: &PlainStuff = ctx.read("plain").unwrap();
    assert_eq!(plain.baz, 2);
}
