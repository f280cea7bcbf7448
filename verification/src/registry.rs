use crate::text::str_eq;
use vstd::pervasive::VecAdditionalExecFns;
use vstd::prelude::*;

verus! {

/// Whether one of the entries has the key.
pub open spec fn spec_has_key<T>(entries: Seq<(Seq<char>, T)>, key: Seq<char>) -> bool {
    exists|i: int| 0 <= i < entries.len() && (#[trigger] entries[i]).0 == key
}

/// The place of an entry that has the key, where there is one.
pub open spec fn spec_key_index<T>(entries: Seq<(Seq<char>, T)>, key: Seq<char>) -> int {
    choose|i: int| 0 <= i < entries.len() && (#[trigger] entries[i]).0 == key
}

/// The value that the entries give to the key, if any.
pub open spec fn spec_lookup<T>(entries: Seq<(Seq<char>, T)>, key: Seq<char>) -> Option<T> {
    if spec_has_key(entries, key) {
        Some(entries[spec_key_index(entries, key)].1)
    } else {
        None
    }
}

/// True where no key occurs in two entries.
pub open spec fn spec_distinct_keys<T>(entries: Seq<(Seq<char>, T)>) -> bool {
    forall|i: int, j: int|
        0 <= i < j < entries.len() ==> (#[trigger] entries[i]).0 != (#[trigger] entries[j]).0
}

/// The entries after `key` is given `value`: the entry of the key holds the
/// new value where there is one, and a new entry comes last where not.
pub open spec fn spec_put<T>(entries: Seq<(Seq<char>, T)>, key: Seq<char>, value: T) -> Seq<
    (Seq<char>, T),
> {
    if spec_has_key(entries, key) {
        entries.update(spec_key_index(entries, key), (key, value))
    } else {
        entries.push((key, value))
    }
}

/// The entries without the one of `key`.
pub open spec fn spec_delete<T>(entries: Seq<(Seq<char>, T)>, key: Seq<char>) -> Seq<
    (Seq<char>, T),
> {
    if spec_has_key(entries, key) {
        entries.remove(spec_key_index(entries, key))
    } else {
        entries
    }
}

/// Among entries with distinct keys, a key is found where its entry is.
pub proof fn lemma_lookup_at<T>(entries: Seq<(Seq<char>, T)>, i: int)
    requires
        spec_distinct_keys(entries),
        0 <= i < entries.len(),
    ensures
        spec_has_key(entries, entries[i].0),
        spec_key_index(entries, entries[i].0) == i,
        spec_lookup(entries, entries[i].0) == Some(entries[i].1),
{
    let j = spec_key_index(entries, entries[i].0);
    assert(0 <= j < entries.len() && entries[j].0 == entries[i].0);
}

/// After a key is given a value, that key has the value and every other key
/// has what it had; the keys stay distinct.
pub proof fn lemma_put<T>(entries: Seq<(Seq<char>, T)>, key: Seq<char>, value: T, other: Seq<char>)
    requires
        spec_distinct_keys(entries),
    ensures
        spec_distinct_keys(spec_put(entries, key, value)),
        spec_lookup(spec_put(entries, key, value), key) == Some(value),
        other != key ==> spec_lookup(spec_put(entries, key, value), other) == spec_lookup(
            entries,
            other,
        ),
        spec_has_key(spec_put(entries, key, value), other) <==> other == key || spec_has_key(
            entries,
            other,
        ),
{
    let after = spec_put(entries, key, value);
    let at = if spec_has_key(entries, key) {
        spec_key_index(entries, key)
    } else {
        entries.len() as int
    };
    assert(after[at] == (key, value));
    assert(forall|i: int| 0 <= i < entries.len() && i != at ==> after[i] == entries[i]);
    assert(spec_distinct_keys(after));
    lemma_lookup_at(after, at);
    if other != key {
        if spec_has_key(entries, other) {
            let i = spec_key_index(entries, other);
            assert(after[i] == entries[i]);
            lemma_lookup_at(entries, i);
            lemma_lookup_at(after, i);
        } else {
            if spec_has_key(after, other) {
                let i = spec_key_index(after, other);
                assert(entries[i].0 == other);
            }
        }
    }
}

/// After the entry of a key is taken out, that key has no value and every
/// other key has what it had; the keys stay distinct.
pub proof fn lemma_delete<T>(entries: Seq<(Seq<char>, T)>, key: Seq<char>, other: Seq<char>)
    requires
        spec_distinct_keys(entries),
    ensures
        spec_distinct_keys(spec_delete(entries, key)),
        spec_lookup(spec_delete(entries, key), key) == None::<T>,
        other != key ==> spec_lookup(spec_delete(entries, key), other) == spec_lookup(
            entries,
            other,
        ),
{
    let after = spec_delete(entries, key);
    if spec_has_key(entries, key) {
        let at = spec_key_index(entries, key);
        assert(forall|i: int| 0 <= i < at ==> after[i] == entries[i]);
        assert(forall|i: int| at <= i < after.len() ==> after[i] == entries[i + 1]);
        assert(spec_distinct_keys(after));
        if spec_has_key(after, key) {
            let i = spec_key_index(after, key);
            if i < at {
                assert(entries[i].0 == key);
            } else {
                assert(entries[i + 1].0 == key);
            }
        }
        if other != key {
            if spec_has_key(entries, other) {
                let i = spec_key_index(entries, other);
                lemma_lookup_at(entries, i);
                if i < at {
                    assert(after[i] == entries[i]);
                    lemma_lookup_at(after, i);
                } else {
                    assert(after[i - 1] == entries[i]);
                    lemma_lookup_at(after, i - 1);
                }
            } else {
                if spec_has_key(after, other) {
                    let i = spec_key_index(after, other);
                    if i < at {
                        assert(entries[i].0 == other);
                    } else {
                        assert(entries[i + 1].0 == other);
                    }
                }
            }
        }
    }
}

/// Values under text keys, held in the order in which the keys came.
///
/// The view is the run of entries, each a key with the view of its value;
/// no key occurs in two of them.
pub struct Registry<V: View> {
    keys: Vec<String>,
    values: Vec<V>,
}

impl<V: View> View for Registry<V> {
    type V = Seq<(Seq<char>, V::V)>;

    closed spec fn view(&self) -> Seq<(Seq<char>, V::V)> {
        Seq::new(self.keys@.len(), |i: int| (self.keys@[i]@, self.values@[i]@))
    }
}

impl<V: View> Registry<V> {
    #[verifier::type_invariant]
    spec fn well_formed(&self) -> bool {
        &&& self.keys@.len() == self.values@.len()
        &&& forall|i: int, j: int|
            0 <= i < j < self.keys@.len() ==> (#[trigger] self.keys@[i])@ != (
            #[trigger] self.keys@[j])@
    }

    /// Takes the keys and the values out and leaves the registry empty.
    fn take_apart(&mut self) -> (r: (Vec<String>, Vec<V>))
        ensures
            r.0 == old(self).keys,
            r.1 == old(self).values,
            r.0@.len() == r.1@.len(),
            forall|i: int, j: int|
                0 <= i < j < r.0@.len() ==> (#[trigger] r.0@[i])@ != (#[trigger] r.0@[j])@,
    {
        proof {
            use_type_invariant(&*self);
        }
        let mut taken = Registry { keys: Vec::new(), values: Vec::new() };
        core::mem::swap(self, &mut taken);
        let Registry { keys, values } = taken;
        (keys, values)
    }

    /// A registry without entries.
    pub fn new() -> (r: Registry<V>)
        ensures
            r@ == Seq::<(Seq<char>, V::V)>::empty(),
    {
        let r = Registry { keys: Vec::new(), values: Vec::new() };
        assert(r@ =~= Seq::<(Seq<char>, V::V)>::empty());
        r
    }

    /// The count of the entries.
    pub fn len(&self) -> (n: usize)
        ensures
            n == self@.len(),
            spec_distinct_keys(self@),
    {
        proof {
            use_type_invariant(self);
        }
        self.keys.len()
    }

    /// The place of the entry of `key`, if there is one.
    pub fn find(&self, key: &str) -> (r: Option<usize>)
        ensures
            spec_distinct_keys(self@),
            r is Some <==> spec_has_key(self@, key@),
            r is Some ==> r->0 < self@.len() && self@[r->0 as int].0 == key@ && r->0
                == spec_key_index(self@, key@),
    {
        proof {
            use_type_invariant(self);
            assert(spec_distinct_keys(self@));
        }
        let mut i: usize = 0;
        while i < self.keys.len()
            invariant
                spec_distinct_keys(self@),
                i <= self.keys@.len(),
                self.keys@.len() == self@.len(),
                forall|j: int| 0 <= j < i ==> (#[trigger] self@[j]).0 != key@,
            decreases self.keys@.len() - i,
        {
            if str_eq(self.keys[i].as_str(), key) {
                proof {
                    assert(self@[i as int].0 == key@);
                    lemma_lookup_at(self@, i as int);
                }
                return Some(i);
            }
            i += 1;
        }
        None
    }

    /// The key of the entry at `i`.
    pub fn key_at(&self, i: usize) -> (key: &String)
        requires
            i < self@.len(),
        ensures
            key@ == self@[i as int].0,
    {
        &self.keys[i]
    }

    /// The value of the entry at `i`.
    pub fn value_at(&self, i: usize) -> (value: &V)
        requires
            i < self@.len(),
        ensures
            value@ == self@[i as int].1,
    {
        proof {
            use_type_invariant(self);
        }
        &self.values[i]
    }

    /// Adds an entry for a key that has none.
    pub fn push(&mut self, key: String, value: V)
        requires
            !spec_has_key(old(self)@, key@),
        ensures
            final(self)@ == old(self)@.push((key@, value@)),
            final(self)@ == spec_put(old(self)@, key@, value@),
            spec_distinct_keys(final(self)@),
    {
        proof {
            use_type_invariant(&*self);
            assert forall|i: int| 0 <= i < self.keys@.len() implies (#[trigger] self.keys@[i])@
                != key@ by {
                assert(self@[i].0 == self.keys@[i]@);
            }
        }
        let (mut keys, mut values) = self.take_apart();
        keys.push(key);
        values.push(value);
        *self = Registry { keys, values };
        assert(self@ =~= old(self)@.push((key@, value@)));
    }

    /// Gives the entry at `i` a new value.
    pub fn set_value_at(&mut self, i: usize, value: V)
        requires
            i < old(self)@.len(),
        ensures
            final(self)@ == old(self)@.update(i as int, (old(self)@[i as int].0, value@)),
            final(self)@ == spec_put(old(self)@, old(self)@[i as int].0, value@),
            spec_distinct_keys(final(self)@),
    {
        proof {
            use_type_invariant(&*self);
            lemma_lookup_at(self@, i as int);
        }
        let (keys, mut values) = self.take_apart();
        values.set(i, value);
        *self = Registry { keys, values };
        assert(self@ =~= old(self)@.update(i as int, (old(self)@[i as int].0, value@)));
    }

    /// Gives the entry at `i` a new value and hands back the one it had.
    pub fn swap_value_at(&mut self, i: usize, value: V) -> (r: V)
        requires
            i < old(self)@.len(),
        ensures
            r@ == old(self)@[i as int].1,
            final(self)@ == old(self)@.update(i as int, (old(self)@[i as int].0, value@)),
            spec_distinct_keys(final(self)@),
    {
        proof {
            use_type_invariant(&*self);
        }
        let (keys, mut values) = self.take_apart();
        let ghost given = value@;
        let mut held = value;
        values.set_and_swap(i, &mut held);
        *self = Registry { keys, values };
        assert(self@ =~= old(self)@.update(i as int, (old(self)@[i as int].0, given)));
        held
    }

    /// Takes out the entry at `i`.
    pub fn remove_at(&mut self, i: usize) -> (r: (String, V))
        requires
            i < old(self)@.len(),
        ensures
            r.0@ == old(self)@[i as int].0,
            r.1@ == old(self)@[i as int].1,
            final(self)@ == old(self)@.remove(i as int),
            final(self)@ == spec_delete(old(self)@, r.0@),
            spec_distinct_keys(final(self)@),
    {
        proof {
            use_type_invariant(&*self);
            lemma_lookup_at(self@, i as int);
        }
        let (mut keys, mut values) = self.take_apart();
        let key = keys.remove(i);
        let value = values.remove(i);
        *self = Registry { keys, values };
        assert(self@ =~= old(self)@.remove(i as int));
        (key, value)
    }

    /// Puts an entry for a key that has none before the entry at `i`.
    pub fn insert_at(&mut self, i: usize, key: String, value: V)
        requires
            i <= old(self)@.len(),
            !spec_has_key(old(self)@, key@),
        ensures
            final(self)@ == old(self)@.insert(i as int, (key@, value@)),
            spec_distinct_keys(final(self)@),
    {
        proof {
            use_type_invariant(&*self);
            assert forall|j: int| 0 <= j < self.keys@.len() implies (#[trigger] self.keys@[j])@
                != key@ by {
                assert(self@[j].0 == self.keys@[j]@);
            }
        }
        let (mut keys, mut values) = self.take_apart();
        keys.insert(i, key);
        values.insert(i, value);
        *self = Registry { keys, values };
        assert(self@ =~= old(self)@.insert(i as int, (key@, value@)));
    }
}

} // verus!
