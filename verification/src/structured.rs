//! A generic, self-describing tree of values: objects (ordered fields),
//! sequences, strings, numbers, booleans and null. Types that support the
//! structured-data capability project themselves into and out of this tree.

use vstd::prelude::*;

verus! {

/// Mathematical model of a structured value: the same tree, with strings as
/// character sequences and collections as `Seq`.
#[verifier::ext_equal]
pub enum StructData {
    Null,
    Bool(bool),
    Num(u64),
    Str(Seq<char>),
    Arr(Seq<StructData>),
    Obj(Seq<(Seq<char>, StructData)>),
}

/// A structured (JSON-like) value: a tree of primitives, sequences and
/// objects. Object fields keep their insertion order.
#[derive(Debug, PartialEq, Eq)]
pub enum StructuredValue {
    Null,
    Bool(bool),
    Num(u64),
    Str(String),
    Arr(Vec<StructuredValue>),
    Obj(Vec<(String, StructuredValue)>),
}

/// The model a structured value stands for.
pub open spec fn struct_data_of(sv: StructuredValue) -> StructData
    decreases sv,
{
    match sv {
        StructuredValue::Null => StructData::Null,
        StructuredValue::Bool(b) => StructData::Bool(b),
        StructuredValue::Num(n) => StructData::Num(n),
        StructuredValue::Str(s) => StructData::Str(s@),
        StructuredValue::Arr(items) => StructData::Arr(
            Seq::new(
                items@.len(),
                |i: int|
                    if 0 <= i < items@.len() {
                        struct_data_of(items[i])
                    } else {
                        arbitrary()
                    },
            ),
        ),
        StructuredValue::Obj(fields) => StructData::Obj(
            Seq::new(
                fields@.len(),
                |i: int|
                    if 0 <= i < fields@.len() {
                        (fields[i].0@, struct_data_of(fields[i].1))
                    } else {
                        arbitrary()
                    },
            ),
        ),
    }
}

impl View for StructuredValue {
    type V = StructData;

    open spec fn view(&self) -> StructData {
        struct_data_of(*self)
    }
}

/// `fields`, with `value` at the first field named `name` (the field
/// appended when none is so named).
pub open spec fn obj_set_fields(
    fields: Seq<(Seq<char>, StructData)>,
    name: Seq<char>,
    value: StructData,
) -> Seq<(Seq<char>, StructData)>
    decreases fields.len(),
{
    if fields.len() == 0 {
        seq![(name, value)]
    } else if fields[0].0 == name {
        seq![(name, value)] + fields.drop_first()
    } else {
        seq![fields[0]] + obj_set_fields(fields.drop_first(), name, value)
    }
}

/// `d`, with `value` at the field `name` when `d` is an object; any other
/// value is left as it is.
pub open spec fn obj_set(d: StructData, name: Seq<char>, value: StructData) -> StructData {
    match d {
        StructData::Obj(fields) => StructData::Obj(obj_set_fields(fields, name, value)),
        _ => d,
    }
}

/// Setting a field whose first occurrence is at `k` replaces that entry and
/// nothing else.
pub proof fn lemma_obj_set_fields_at(
    fields: Seq<(Seq<char>, StructData)>,
    name: Seq<char>,
    value: StructData,
    k: int,
)
    requires
        0 <= k < fields.len(),
        fields[k].0 == name,
        forall|j: int| 0 <= j < k ==> (#[trigger] fields[j].0) != name,
    ensures
        obj_set_fields(fields, name, value) =~= fields.update(k, (name, value)),
    decreases k,
{
    if k == 0 {
    } else {
        lemma_obj_set_fields_at(fields.drop_first(), name, value, k - 1);
    }
}

/// Setting a field no entry carries appends it.
pub proof fn lemma_obj_set_fields_absent(
    fields: Seq<(Seq<char>, StructData)>,
    name: Seq<char>,
    value: StructData,
)
    requires
        forall|j: int| 0 <= j < fields.len() ==> (#[trigger] fields[j].0) != name,
    ensures
        obj_set_fields(fields, name, value) =~= fields.push((name, value)),
    decreases fields.len(),
{
    if fields.len() > 0 {
        lemma_obj_set_fields_absent(fields.drop_first(), name, value);
    }
}

impl StructuredValue {
    /// This value, with `value` at the field `name`: on an object, the first
    /// field so named is replaced, or the field appended when none is; any
    /// other kind of value is handed back unchanged.
    pub fn with_field(self, name: &str, value: StructuredValue) -> (r: StructuredValue)
        ensures
            r@ == obj_set(self@, name@, value@),
    {
        match self {
            StructuredValue::Obj(mut fields) => {
                let ghost fields0 = fields@;
                let owned: String = name.to_owned();
                let n = fields.len();
                let mut i: usize = 0;
                #[verifier::loop_isolation(false)]
                while i < n
                    invariant
                        i <= n,
                        fields@ == fields0,
                        forall|j: int| 0 <= j < i ==> (#[trigger] fields@[j].0@) != name@,
                    decreases n - i,
                {
                    if fields[i].0 == owned {
                        let ghost dfields = self@->Obj_0;
                        proof {
                            lemma_obj_set_fields_at(dfields, name@, value@, i as int);
                        }
                        let entry = &mut fields[i];
                        entry.1 = value;
                        let r = StructuredValue::Obj(fields);
                        proof {
                            assert(r@->Obj_0 =~= dfields.update(i as int, (name@, value@)));
                        }
                        return r;
                    }
                    i += 1;
                }
                proof {
                    lemma_obj_set_fields_absent(self@->Obj_0, name@, value@);
                }
                fields.push((owned, value));
                let r = StructuredValue::Obj(fields);
                proof {
                    assert(r@->Obj_0 =~= self@->Obj_0.push((name@, value@)));
                }
                r
            },
            other => other,
        }
    }
}

/// Failure of `update_structured`: the transformed structured value no
/// longer fits the type's schema. The value under update is left unchanged;
/// the transform, not the data, is at fault.
#[derive(Debug, PartialEq, Eq)]
pub struct StructuredError;

/// The structured-data capability: a type that can be projected losslessly
/// into a structured value and recovered from one. Types without this
/// capability simply do not implement it, so structured access to them is a
/// compile-time error, never a runtime one.
pub trait Structured: Sized + View {
    /// The structured representation of a value of this type.
    spec fn to_data(v: Self::V) -> StructData;

    /// The value, if any, that a structured representation stands for.
    spec fn from_data(d: StructData) -> Option<Self::V>;

    /// Law: projecting a value and reading it back yields the value itself.
    proof fn lemma_structured_round_trip(v: Self::V)
        ensures
            Self::from_data(Self::to_data(v)) == Some(v),
    ;

    /// The structured representation of this value; total and panic-free.
    fn to_structured(&self) -> (sv: StructuredValue)
        ensures
            sv@ == Self::to_data(self@),
    ;

    /// The value a structured representation stands for; nothing when the
    /// shape does not fit this type's schema.
    fn from_structured(sv: &StructuredValue) -> (r: Option<Self>)
        ensures
            r is Some <==> Self::from_data(sv@) is Some,
            r matches Some(v) ==> Self::from_data(sv@) == Some(v@),
    ;
}

/// Convert `value` to its structured representation, apply `transform`, and
/// store the result back into `value`. When the transformed representation
/// no longer fits the type's schema this fails and leaves `value` unchanged:
/// the round-trip failure is surfaced as a recoverable result rather than a
/// crash, so that no input can make the operation panic.
pub fn update_structured<T: Structured, F: FnOnce(StructuredValue) -> StructuredValue>(
    value: &mut T,
    transform: F,
) -> (r: Result<(), StructuredError>)
    requires
        forall|sv: StructuredValue|
            sv@ == T::to_data(old(value)@) ==> #[trigger] call_requires(transform, (sv,)),
    ensures
        match r {
            Ok(()) => exists|sv0: StructuredValue, sv1: StructuredValue|
                {
                    &&& sv0@ == T::to_data(old(value)@)
                    &&& #[trigger] call_ensures(transform, (sv0,), sv1)
                    &&& T::from_data(sv1@) == Some(final(value)@)
                },
            Err(e) => {
                &&& *final(value) == *old(value)
                &&& exists|sv0: StructuredValue, sv1: StructuredValue|
                    {
                        &&& sv0@ == T::to_data(old(value)@)
                        &&& #[trigger] call_ensures(transform, (sv0,), sv1)
                        &&& T::from_data(sv1@) is None
                    }
            },
        },
{
    let sv0 = value.to_structured();
    let sv1 = transform(sv0);
    match T::from_structured(&sv1) {
        Some(new_value) => {
            *value = new_value;
            Ok(())
        },
        None => Err(StructuredError),
    }
}

/// Law: a transform that hands back exactly what it was given leaves the
/// updated value unchanged — reading the untouched representation back
/// yields the value the update started from.
pub proof fn lemma_identity_update_unchanged<T: Structured>(v0: T::V, v1: T::V)
    requires
        T::from_data(T::to_data(v0)) == Some(v1),
    ensures
        v1 == v0,
{
    T::lemma_structured_round_trip(v0);
}

} // verus!
