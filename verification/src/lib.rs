//! An in-memory registry of heterogeneously typed values, keyed by strings,
//! with type-checked access and an optional structured-data projection for
//! types that opt into it.
//!
//! Values of differing types sit in the registry behind a uniform,
//! type-erased wrapper carrying their runtime identity; every typed access
//! validates that identity, so a mismatched read is a handled failure and
//! never a wrong value. Reads hand out borrowed, call-scoped views; the only
//! way a stored value changes is the explicit write operation.

pub mod registry;
pub mod slot;
pub mod structured;
pub mod values;
