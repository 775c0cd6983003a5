//! Type-erased storage for the registry: a stored value sits in a `Slot`,
//! one variant per storable type, and the `Registered` trait gives each
//! storable type its runtime identity together with the wrap/unwrap
//! operations that the registry uses to validate typed access.

use vstd::prelude::*;

use crate::values::{PlainStuff, PlainStuffView, Stuff, StuffView};

verus! {

/// Runtime identity of a storable type, used to validate downcasts.
#[derive(Clone, Copy, Debug, PartialEq, Eq, Structural)]
pub enum TypeTag {
    StuffTag,
    PlainStuffTag,
}

/// A type-erased stored value: the uniform wrapper the registry owns.
#[derive(Debug)]
pub enum Slot {
    StuffVal(Stuff),
    PlainStuffVal(PlainStuff),
}

/// Mathematical model of a slot: the model of the value it holds.
pub enum SlotView {
    StuffVal(StuffView),
    PlainStuffVal(PlainStuffView),
}

impl SlotView {
    /// The identity of the type whose value this slot holds.
    pub open spec fn tag(self) -> TypeTag {
        match self {
            SlotView::StuffVal(_) => TypeTag::StuffTag,
            SlotView::PlainStuffVal(_) => TypeTag::PlainStuffTag,
        }
    }
}

impl View for Slot {
    type V = SlotView;

    open spec fn view(&self) -> SlotView {
        match self {
            Slot::StuffVal(v) => SlotView::StuffVal(v@),
            Slot::PlainStuffVal(v) => SlotView::PlainStuffVal(v@),
        }
    }
}

/// A type the registry can store. Wrapping erases the type; unwrapping
/// checks the runtime identity and recovers the value, so a mismatched
/// access is a handled failure rather than a wrong read.
pub trait Registered: Sized + View {
    /// The runtime identity of this type.
    spec fn tag() -> TypeTag;

    /// How a value of this type sits in a slot.
    spec fn wrap_spec(v: Self::V) -> SlotView;

    /// Wrapping marks the slot with this type's own identity.
    proof fn lemma_wrap_tag(v: Self::V)
        ensures
            Self::wrap_spec(v).tag() == Self::tag(),
    ;

    /// Wrapping loses nothing: distinct values sit in distinct slots.
    proof fn lemma_wrap_injective(a: Self::V, b: Self::V)
        ensures
            Self::wrap_spec(a) == Self::wrap_spec(b) ==> a == b,
    ;

    /// The runtime identity, as a value.
    fn dyn_tag() -> (t: TypeTag)
        ensures
            t == Self::tag(),
    ;

    /// Erase the type of this value.
    fn wrap(self) -> (s: Slot)
        ensures
            s@ == Self::wrap_spec(self@),
    ;

    /// Recover a borrowed view of the value, provided the slot holds this
    /// type; yields nothing on a type mismatch.
    fn unwrap_ref(s: &Slot) -> (r: Option<&Self>)
        ensures
            r is Some <==> s@.tag() == Self::tag(),
            r matches Some(v) ==> Self::wrap_spec(v@) == s@,
    ;
}

} // verus!
