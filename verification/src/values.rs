//! The two concrete value types the registry demonstration stores: one with
//! the structured-data capability and one without it.

use vstd::prelude::*;

use crate::slot::{Registered, Slot, SlotView, TypeTag};
use crate::structured::{obj_set, StructData, Structured, StructuredValue};

verus! {

/// A value with a numeric field and a text field; it opts into the
/// structured-data capability.
#[derive(Debug, PartialEq, Eq)]
pub struct Stuff {
    pub foo: u64,
    pub bar: String,
}

/// Mathematical model of a `Stuff` value.
#[verifier::ext_equal]
pub struct StuffView {
    pub foo: u64,
    pub bar: Seq<char>,
}

impl View for Stuff {
    type V = StuffView;

    open spec fn view(&self) -> StuffView {
        StuffView { foo: self.foo, bar: self.bar@ }
    }
}

impl Registered for Stuff {
    open spec fn tag() -> TypeTag {
        TypeTag::StuffTag
    }

    open spec fn wrap_spec(v: StuffView) -> SlotView {
        SlotView::StuffVal(v)
    }

    proof fn lemma_wrap_tag(v: StuffView) {
    }

    proof fn lemma_wrap_injective(a: StuffView, b: StuffView) {
    }

    fn dyn_tag() -> (t: TypeTag) {
        TypeTag::StuffTag
    }

    fn wrap(self) -> (s: Slot) {
        Slot::StuffVal(self)
    }

    fn unwrap_ref(s: &Slot) -> (r: Option<&Self>) {
        match s {
            Slot::StuffVal(v) => Some(v),
            _ => None,
        }
    }
}

impl Structured for Stuff {
    open spec fn to_data(v: StuffView) -> StructData {
        StructData::Obj(
            seq![
                ("foo"@, StructData::Num(v.foo)),
                ("bar"@, StructData::Str(v.bar)),
            ],
        )
    }

    open spec fn from_data(d: StructData) -> Option<StuffView> {
        match d {
            StructData::Obj(fields) => {
                if fields.len() == 2 && fields[0].0 == "foo"@ && fields[0].1 is Num
                    && fields[1].0 == "bar"@ && fields[1].1 is Str {
                    Some(StuffView { foo: fields[0].1->Num_0, bar: fields[1].1->Str_0 })
                } else {
                    None
                }
            },
            _ => None,
        }
    }

    proof fn lemma_structured_round_trip(v: StuffView) {
        assert(Self::from_data(Self::to_data(v)) matches Some(w) && w =~= v);
    }

    fn to_structured(&self) -> (sv: StructuredValue) {
        let mut fields: Vec<(String, StructuredValue)> = Vec::new();
        fields.push(("foo".to_owned(), StructuredValue::Num(self.foo)));
        fields.push(("bar".to_owned(), StructuredValue::Str(self.bar.clone())));
        let sv = StructuredValue::Obj(fields);
        proof {
            reveal_with_fuel(crate::structured::struct_data_of, 2);
            assert(sv@->Obj_0 =~= Self::to_data(self@)->Obj_0);
        }
        sv
    }

    fn from_structured(sv: &StructuredValue) -> (r: Option<Self>) {
        match sv {
            StructuredValue::Obj(fields) => {
                proof {
                    reveal_with_fuel(crate::structured::struct_data_of, 2);
                }
                if fields.len() != 2 {
                    return None;
                }
                let foo_name: String = "foo".to_owned();
                let bar_name: String = "bar".to_owned();
                if !(fields[0].0 == foo_name) || !(fields[1].0 == bar_name) {
                    return None;
                }
                let foo: u64 = match &fields[0].1 {
                    StructuredValue::Num(n) => *n,
                    _ => {
                        return None;
                    },
                };
                let bar: String = match &fields[1].1 {
                    StructuredValue::Str(s) => s.clone(),
                    _ => {
                        return None;
                    },
                };
                Some(Stuff { foo, bar })
            },
            _ => None,
        }
    }
}

/// Law: a structured update that sets the field `foo` to `n` reads back as
/// the value it started from with `foo` set to `n` — every other field is
/// untouched.
pub proof fn lemma_set_foo_composes(v: StuffView, n: u64)
    ensures
        Stuff::from_data(obj_set(Stuff::to_data(v), "foo"@, StructData::Num(n))) == Some(
            StuffView { foo: n, bar: v.bar },
        ),
{
    let set = obj_set(Stuff::to_data(v), "foo"@, StructData::Num(n));
    assert(set->Obj_0 =~= seq![("foo"@, StructData::Num(n)), ("bar"@, StructData::Str(v.bar))]);
    assert(Stuff::from_data(set) matches Some(w) && w =~= StuffView { foo: n, bar: v.bar });
}

/// A value that stays outside the structured-data capability: it can be
/// stored, read and updated, but not projected into a structured value.
#[derive(Debug, PartialEq, Eq)]
pub struct PlainStuff {
    pub baz: u64,
}

/// Mathematical model of a `PlainStuff` value.
pub struct PlainStuffView {
    pub baz: u64,
}

impl View for PlainStuff {
    type V = PlainStuffView;

    open spec fn view(&self) -> PlainStuffView {
        PlainStuffView { baz: self.baz }
    }
}

impl Registered for PlainStuff {
    open spec fn tag() -> TypeTag {
        TypeTag::PlainStuffTag
    }

    open spec fn wrap_spec(v: PlainStuffView) -> SlotView {
        SlotView::PlainStuffVal(v)
    }

    proof fn lemma_wrap_tag(v: PlainStuffView) {
    }

    proof fn lemma_wrap_injective(a: PlainStuffView, b: PlainStuffView) {
    }

    fn dyn_tag() -> (t: TypeTag) {
        TypeTag::PlainStuffTag
    }

    fn wrap(self) -> (s: Slot) {
        Slot::PlainStuffVal(self)
    }

    fn unwrap_ref(s: &Slot) -> (r: Option<&Self>) {
        match s {
            Slot::PlainStuffVal(v) => Some(v),
            _ => None,
        }
    }
}

} // verus!
