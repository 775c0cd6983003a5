//! The registry: a keyed store of type-erased values with type-checked
//! access. Its model is a map from key (a character sequence) to the model
//! of the stored slot.

use vstd::prelude::*;

use crate::slot::{Registered, Slot, SlotView, TypeTag};

verus! {

/// Failure of `push`: the key was already present; the registry is unchanged.
#[derive(Debug, PartialEq, Eq)]
pub struct DuplicateKeyError {
    pub key: String,
}

/// Failure of `write_with`: either the key was absent, or the stored value
/// is not of the expected type. Both name the key; the mismatch also names
/// the expected type.
#[derive(Debug, PartialEq, Eq)]
pub enum AccessError {
    NotFound { key: String },
    TypeMismatch { key: String, expected: TypeTag },
}

/// Whether some entry of `es` carries the key `k`.
pub open spec fn has_key(es: Seq<(String, Slot)>, k: Seq<char>) -> bool {
    exists|i: int| 0 <= i < es.len() && es[i].0@ == k
}

/// The index of the entry of `es` carrying the key `k` (unique when the
/// keys of `es` are distinct).
pub open spec fn index_of_key(es: Seq<(String, Slot)>, k: Seq<char>) -> int {
    choose|i: int| 0 <= i < es.len() && es[i].0@ == k
}

/// Distinctness of the keys of `es`: the registry's internal invariant.
pub open spec fn distinct_keys(es: Seq<(String, Slot)>) -> bool {
    forall|i: int, j: int|
        0 <= i < j < es.len() ==> (#[trigger] es[i].0@) != (#[trigger] es[j].0@)
}

/// With distinct keys, an entry carrying `k` is the entry `index_of_key`
/// names.
proof fn lemma_index_of_key(es: Seq<(String, Slot)>, k: Seq<char>, i: int)
    requires
        distinct_keys(es),
        0 <= i < es.len(),
        es[i].0@ == k,
    ensures
        has_key(es, k),
        index_of_key(es, k) == i,
{
    assert(has_key(es, k));
    let j = index_of_key(es, k);
    assert(0 <= j < es.len() && es[j].0@ == k);
    if i < j {
        assert(es[i].0@ != es[j].0@);
    } else if j < i {
        assert(es[j].0@ != es[i].0@);
    }
}

/// The map an entry sequence stands for.
pub open spec fn map_of(es: Seq<(String, Slot)>) -> Map<Seq<char>, SlotView> {
    Map::new(|k: Seq<char>| has_key(es, k), |k: Seq<char>| es[index_of_key(es, k)].1@)
}

/// The registry: a mapping from unique string keys to owned, type-erased
/// values. Values enter through `push`, are observed through `read`, and
/// change only through `write_with`.
#[derive(Debug)]
pub struct Context {
    entries: Vec<(String, Slot)>,
}

impl View for Context {
    type V = Map<Seq<char>, SlotView>;

    closed spec fn view(&self) -> Map<Seq<char>, SlotView> {
        map_of(self.entries@)
    }
}

impl Context {
    /// The registry's internal invariant: keys are unique.
    pub closed spec fn wf(&self) -> bool {
        distinct_keys(self.entries@)
    }

    /// An empty registry.
    pub fn default() -> (r: Self)
        ensures
            r.wf(),
            r@ == Map::<Seq<char>, SlotView>::empty(),
    {
        let r = Context { entries: Vec::new() };
        proof {
            assert(r@ =~= Map::<Seq<char>, SlotView>::empty());
        }
        r
    }

    /// Where the entry carrying `key` sits, if anywhere.
    fn find(&self, key: &str) -> (r: Option<usize>)
        requires
            self.wf(),
        ensures
            match r {
                Some(i) => {
                    &&& i < self.entries@.len()
                    &&& self.entries@[i as int].0@ == key@
                    &&& self@.contains_key(key@)
                    &&& self@[key@] == self.entries@[i as int].1@
                },
                None => !self@.contains_key(key@),
            },
    {
        let owned: String = key.to_owned();
        let n = self.entries.len();
        let mut i: usize = 0;
        while i < n
            invariant
                self.wf(),
                owned@ == key@,
                n == self.entries@.len(),
                i <= n,
                forall|j: int| 0 <= j < i ==> (#[trigger] self.entries@[j].0@) != key@,
            decreases n - i,
        {
            if self.entries[i].0 == owned {
                proof {
                    lemma_index_of_key(self.entries@, key@, i as int);
                }
                return Some(i);
            }
            i += 1;
        }
        None
    }

    /// Store `value` under `key`. Fails, changing nothing, when the key is
    /// already present; otherwise the mapping gains exactly this entry.
    pub fn push(&mut self, key: String, value: Slot) -> (r: Result<(), DuplicateKeyError>)
        requires
            old(self).wf(),
        ensures
            final(self).wf(),
            match r {
                Ok(()) => {
                    &&& !old(self)@.contains_key(key@)
                    &&& final(self)@ == old(self)@.insert(key@, value@)
                },
                Err(e) => {
                    &&& old(self)@.contains_key(key@)
                    &&& *final(self) == *old(self)
                    &&& e.key@ == key@
                },
            },
    {
        match self.find(key.as_str()) {
            Some(_) => Err(DuplicateKeyError { key }),
            None => {
                proof {
                    let ghost es0 = self.entries@;
                    let ghost es1 = es0.push((key, value));
                    assert forall|k: Seq<char>| true implies {
                        &&& has_key(es1, k) == (has_key(es0, k) || k == key@)
                        &&& (has_key(es0, k) ==> map_of(es1)[k] == map_of(es0)[k])
                        &&& (k == key@ ==> has_key(es1, k) && map_of(es1)[k] == value@)
                    } by {
                        let n = es0.len() as int;
                        if k == key@ {
                            lemma_distinct_push(es0, key, value);
                            lemma_index_of_key(es1, k, n);
                        } else {
                            if has_key(es0, k) {
                                let i = choose|i: int| 0 <= i < es0.len() && es0[i].0@ == k;
                                lemma_distinct_push(es0, key, value);
                                lemma_index_of_key(es0, k, i);
                                lemma_index_of_key(es1, k, i);
                            } else {
                                if has_key(es1, k) {
                                    let i = choose|i: int|
                                        0 <= i < es1.len() && es1[i].0@ == k;
                                    assert(i == n);
                                }
                            }
                        }
                    }
                    lemma_distinct_push(self.entries@, key, value);
                }
                self.entries.push((key, value));
                proof {
                    assert(self@ =~= old(self)@.insert(key@, value@));
                }
                Ok(())
            },
        }
    }

    /// A borrowed view of the value at `key`, provided one is there and it
    /// is of type `T`. A missing key and a type mismatch both yield nothing,
    /// indistinguishably, by design.
    pub fn read<T: Registered>(&self, key: &str) -> (r: Option<&T>)
        requires
            self.wf(),
        ensures
            r is Some <==> (self@.contains_key(key@) && self@[key@].tag() == T::tag()),
            r matches Some(v) ==> T::wrap_spec(v@) == self@[key@],
    {
        match self.find(key) {
            None => None,
            Some(i) => T::unwrap_ref(&self.entries[i].1),
        }
    }

    /// Replace the value at `key` with what `update` makes of it. Fails with
    /// `NotFound` on a missing key and with `TypeMismatch` when the stored
    /// value is not a `T`, changing nothing in either case; otherwise the
    /// mapping carries the updated value, and this is the only way a stored
    /// value ever changes.
    pub fn write_with<T: Registered, F: FnOnce(&T) -> T>(
        &mut self,
        key: &str,
        update: F,
    ) -> (r: Result<(), AccessError>)
        requires
            old(self).wf(),
            forall|v: &T|
                old(self)@.contains_key(key@) && T::wrap_spec(v@) == old(self)@[key@]
                    ==> #[trigger] call_requires(update, (v,)),
        ensures
            final(self).wf(),
            match r {
                Ok(()) => {
                    &&& old(self)@.contains_key(key@)
                    &&& old(self)@[key@].tag() == T::tag()
                    &&& exists|v0: T, v1: T|
                        {
                            &&& T::wrap_spec(v0@) == old(self)@[key@]
                            &&& #[trigger] call_ensures(update, (&v0,), v1)
                            &&& final(self)@ == old(self)@.insert(key@, T::wrap_spec(v1@))
                        }
                },
                Err(e) => {
                    &&& *final(self) == *old(self)
                    &&& match e {
                        AccessError::NotFound { key: k } => {
                            &&& k@ == key@
                            &&& !old(self)@.contains_key(key@)
                        },
                        AccessError::TypeMismatch { key: k, expected } => {
                            &&& k@ == key@
                            &&& expected == T::tag()
                            &&& old(self)@.contains_key(key@)
                            &&& old(self)@[key@].tag() != T::tag()
                        },
                    }
                },
            },
    {
        match self.find(key) {
            None => Err(AccessError::NotFound { key: key.to_owned() }),
            Some(i) => {
                let updated: Option<T> = match T::unwrap_ref(&self.entries[i].1) {
                    None => None,
                    Some(v) => Some(update(v)),
                };
                match updated {
                    None => Err(
                        AccessError::TypeMismatch { key: key.to_owned(), expected: T::dyn_tag() },
                    ),
                    Some(v1) => {
                        let ghost es0 = self.entries@;
                        let new_slot = v1.wrap();
                        let entry = &mut self.entries[i];
                        entry.1 = new_slot;
                        proof {
                            lemma_update_view(es0, i as int, self.entries@[i as int]);
                            assert(self@ =~= old(self)@.insert(key@, T::wrap_spec(v1@)));
                        }
                        Ok(())
                    },
                }
            },
        }
    }
}

/// Law: after a rejected duplicate insert the registry is unchanged, so the
/// value stored first is still present under its type, and a typed read at
/// that key can only hand back that very value.
pub proof fn lemma_failed_insert_preserves<T: Registered>(
    m: Map<Seq<char>, SlotView>,
    k: Seq<char>,
    v: T::V,
)
    requires
        m.contains_key(k),
        m[k] == T::wrap_spec(v),
    ensures
        m[k].tag() == T::tag(),
        forall|w: T::V| T::wrap_spec(w) == m[k] ==> w == v,
{
    T::lemma_wrap_tag(v);
    assert forall|w: T::V| T::wrap_spec(w) == m[k] implies w == v by {
        T::lemma_wrap_injective(w, v);
    }
}

/// Law: a successful typed write persists — on the updated registry a typed
/// read at that key can only hand back the value just written — and every
/// other key still carries what it carried before.
pub proof fn lemma_write_persists<T: Registered>(
    m: Map<Seq<char>, SlotView>,
    k: Seq<char>,
    v1: T::V,
)
    ensures
        m.insert(k, T::wrap_spec(v1)).contains_key(k),
        m.insert(k, T::wrap_spec(v1))[k].tag() == T::tag(),
        forall|w: T::V| T::wrap_spec(w) == m.insert(k, T::wrap_spec(v1))[k] ==> w == v1,
        forall|k2: Seq<char>|
            k2 != k && m.contains_key(k2) ==> m.insert(k, T::wrap_spec(v1)).contains_key(k2)
                && m.insert(k, T::wrap_spec(v1))[k2] == m[k2],
{
    T::lemma_wrap_tag(v1);
    assert forall|w: T::V| T::wrap_spec(w) == m.insert(k, T::wrap_spec(v1))[k] implies w == v1 by {
        T::lemma_wrap_injective(w, v1);
    }
}

/// Pushing a fresh key keeps the keys distinct.
proof fn lemma_distinct_push(es: Seq<(String, Slot)>, key: String, value: Slot)
    requires
        distinct_keys(es),
        !has_key(es, key@),
    ensures
        distinct_keys(es.push((key, value))),
{
    let es1 = es.push((key, value));
    assert forall|i: int, j: int| 0 <= i < j < es1.len() implies es1[i].0@ != es1[j].0@ by {
        if j < es.len() {
            assert(es[i].0@ != es[j].0@);
        } else {
            assert(es1[j].0@ == key@);
            assert(!(es[i].0@ == key@));
        }
    }
}

/// Replacing an entry's value in place, key kept, leaves every key where it
/// was and changes the mapping at that key alone.
proof fn lemma_update_view(es: Seq<(String, Slot)>, i: int, e: (String, Slot))
    requires
        distinct_keys(es),
        0 <= i < es.len(),
        e.0@ == es[i].0@,
    ensures
        distinct_keys(es.update(i, e)),
        map_of(es.update(i, e)) == map_of(es).insert(es[i].0@, e.1@),
{
    let es1 = es.update(i, e);
    assert forall|p: int, q: int| 0 <= p < q < es1.len() implies es1[p].0@ != es1[q].0@ by {
        assert(es[p].0@ != es[q].0@);
    }
    assert forall|k: Seq<char>| true implies {
        &&& has_key(es1, k) == has_key(es, k)
        &&& (has_key(es, k) && k != es[i].0@ ==> map_of(es1)[k] == map_of(es)[k])
        &&& (k == es[i].0@ ==> map_of(es1)[k] == e.1@)
    } by {
        if k == es[i].0@ {
            lemma_index_of_key(es, k, i);
            lemma_index_of_key(es1, k, i);
        } else {
            if has_key(es, k) {
                let p = choose|p: int| 0 <= p < es.len() && es[p].0@ == k;
                lemma_index_of_key(es, k, p);
                lemma_index_of_key(es1, k, p);
            }
            if has_key(es1, k) {
                let p = choose|p: int| 0 <= p < es1.len() && es1[p].0@ == k;
                assert(p != i);
                lemma_index_of_key(es1, k, p);
                lemma_index_of_key(es, k, p);
            }
        }
    }
    assert(map_of(es1) =~= map_of(es).insert(es[i].0@, e.1@));
}

} // verus!
