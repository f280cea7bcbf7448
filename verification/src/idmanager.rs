use crate::sequence::lemma_remove_first_at;
use crate::sequence::lemma_remove_first_none;
use crate::sequence::spec_remove_first;
use vstd::prelude::*;
use vstd::set_lib::lemma_int_range;
use vstd::set_lib::lemma_len_subset;
use vstd::set_lib::set_int_range;

verus! {

/// The greatest packet identifier.
pub const MAX_PACKET_ID: usize = 65535;

/// The packet identifier that is tried after `id`: the next one up, and 1
/// after `limit`.
pub open spec fn spec_successor(id: u16, limit: u16) -> u16 {
    (id % limit + 1) as u16
}

/// The first packet identifier that is not in use, going from `candidate`
/// by successors, within `tries` steps.
pub open spec fn spec_next_free(used: Seq<u16>, candidate: u16, limit: u16, tries: nat) -> u16
    decreases tries,
{
    if tries == 0 || !used.contains(candidate) {
        candidate
    } else {
        spec_next_free(used, spec_successor(candidate, limit), limit, (tries - 1) as nat)
    }
}

/// The test that a packet identifier is `id`.
pub open spec fn spec_is_id(id: u16) -> spec_fn(u16) -> bool {
    |used: u16| used == id
}

/// The packet identifiers of a client as a mathematical value.
pub struct IDManagerView {
    /// The identifier from which the next search starts.
    pub next_id: u16,
    /// The identifiers that are in use, in the order in which they were
    /// taken.
    pub used_ids: Seq<u16>,
    /// The greatest identifier that is handed out.
    pub limit: u16,
}

impl IDManagerView {
    /// True of the values that an identifier manager can hold: no
    /// identifier is in use twice, and each one in use, like the one from
    /// which the next search starts, lies between 1 and the limit.
    pub open spec fn spec_well_formed(self) -> bool {
        &&& 1 <= self.next_id
        &&& self.limit >= 1 ==> self.next_id <= self.limit
        &&& forall|i: int, j: int|
            0 <= i < j < self.used_ids.len() ==> self.used_ids[i] != self.used_ids[j]
        &&& forall|i: int|
            0 <= i < self.used_ids.len() ==> 1 <= #[trigger] self.used_ids[i] <= self.limit
    }
}

/// Where fewer identifiers are in use than the limit allows, one between 1
/// and the limit is not in use.
pub proof fn lemma_free_id_exists(used: Seq<u16>, limit: u16)
    requires
        forall|i: int, j: int| 0 <= i < j < used.len() ==> used[i] != used[j],
        forall|i: int| 0 <= i < used.len() ==> 1 <= #[trigger] used[i] <= limit,
        used.len() < limit,
    ensures
        exists|free: u16| 1 <= free <= limit && !used.contains(free),
{
    if forall|free: u16| 1 <= free <= limit ==> used.contains(free) {
        let numbers = Seq::new(used.len(), |i: int| used[i] as int);
        assert(numbers.no_duplicates());
        numbers.unique_seq_to_set();
        let range = set_int_range(1, limit + 1);
        lemma_int_range(1, limit + 1);
        assert forall|n: int| range.contains(n) implies numbers.to_set().contains(n) by {
            let id = n as u16;
            assert(used.contains(id));
            let i = choose|i: int| 0 <= i < used.len() && used[i] == id;
            assert(numbers[i] == n);
            assert(numbers.contains(n));
        }
        assert(range.subset_of(numbers.to_set()));
        lemma_len_subset(range, numbers.to_set());
    }
}

/// The count of successor steps from `from` to `to`, both between 1 and
/// `limit`.
pub open spec fn spec_distance(from: u16, to: u16, limit: u16) -> int {
    if from <= to {
        to - from
    } else {
        to - from + limit
    }
}

/// Whether `id` is among the identifiers.
pub fn contains_id(ids: &Vec<u16>, id: u16) -> (r: bool)
    ensures
        r == ids@.contains(id),
{
    let mut i: usize = 0;
    while i < ids.len()
        invariant
            i <= ids.len(),
            forall|j: int| 0 <= j < i ==> ids@[j] != id,
        decreases ids.len() - i,
    {
        if ids[i] == id {
            return true;
        }
        i += 1;
    }
    false
}

/// The packet identifiers of a client: those in use, and from where to look
/// for the next free one.
pub struct IDManager {
    next_id: u16,
    used_ids: Vec<u16>,
    limit: u16,
}

impl View for IDManager {
    type V = IDManagerView;

    closed spec fn view(&self) -> IDManagerView {
        IDManagerView { next_id: self.next_id, used_ids: self.used_ids@, limit: self.limit }
    }
}

impl IDManager {
    #[verifier::type_invariant]
    spec fn well_formed(&self) -> bool {
        self@.spec_well_formed()
    }

    /// A manager that hands out the identifiers from 1 to `size`, and to
    /// `MAX_PACKET_ID` where `size` is greater. None is in use.
    pub fn new(size: usize) -> (r: IDManager)
        ensures
            r@.next_id == 1,
            r@.used_ids == Seq::<u16>::empty(),
            r@.limit == if size > MAX_PACKET_ID {
                MAX_PACKET_ID
            } else {
                size
            },
            r@.spec_well_formed(),
    {
        let limit: u16 = if size > MAX_PACKET_ID {
            MAX_PACKET_ID as u16
        } else {
            size as u16
        };
        IDManager { next_id: 1, used_ids: Vec::new(), limit }
    }

    /// Whether every identifier is in use.
    pub fn is_full(&self) -> (r: bool)
        ensures
            r == (self@.used_ids.len() >= self@.limit),
            self@.spec_well_formed(),
    {
        proof {
            use_type_invariant(self);
        }
        self.used_ids.len() >= self.limit as usize
    }

    /// Takes the first identifier that is not in use, going from the one
    /// that was taken last by successors.
    pub fn take_id(&mut self) -> (id: u16)
        requires
            old(self)@.used_ids.len() < old(self)@.limit,
        ensures
            id == spec_next_free(
                old(self)@.used_ids,
                old(self)@.next_id,
                old(self)@.limit,
                old(self)@.limit as nat,
            ),
            1 <= id <= old(self)@.limit,
            !old(self)@.used_ids.contains(id),
            final(self)@ == (IDManagerView {
                next_id: id,
                used_ids: old(self)@.used_ids.push(id),
                limit: old(self)@.limit,
            }),
            final(self)@.spec_well_formed(),
    {
        proof {
            use_type_invariant(&*self);
            lemma_free_id_exists(self.used_ids@, self.limit);
        }
        let limit = self.limit;
        let ghost free = choose|free: u16| 1 <= free <= limit && !self.used_ids@.contains(free);
        let ghost target = spec_next_free(self.used_ids@, self.next_id, limit, limit as nat);
        let mut candidate = self.next_id;
        let mut tries: u16 = limit;
        while contains_id(&self.used_ids, candidate)
            invariant
                *self == *old(self),
                limit == self.limit,
                limit >= 1,
                1 <= candidate <= limit,
                1 <= free <= limit,
                !self.used_ids@.contains(free),
                spec_distance(candidate, free, limit) < tries,
                target == spec_next_free(self.used_ids@, candidate, limit, tries as nat),
            decreases tries,
        {
            assert(candidate != free);
            assert(candidate % limit == if candidate == limit {
                0
            } else {
                candidate as int
            }) by {
                if candidate < limit {
                    vstd::arithmetic::div_mod::lemma_small_mod(candidate as nat, limit as nat);
                } else {
                    vstd::arithmetic::div_mod::lemma_mod_self_0(limit as int);
                }
            }
            candidate = candidate % limit + 1;
            tries = tries - 1;
        }
        let mut used_ids: Vec<u16> = Vec::new();
        let mut taken = IDManager { next_id: candidate, used_ids, limit };
        core::mem::swap(self, &mut taken);
        let IDManager { next_id: _, used_ids: mut ids, limit: _ } = taken;
        ids.push(candidate);
        proof {
            assert forall|i: int, j: int| 0 <= i < j < ids@.len() implies ids@[i] != ids@[j] by {
                if j == ids@.len() - 1 {
                    assert(old(self).used_ids@[i] == ids@[i]);
                    assert(old(self).used_ids@.contains(ids@[i]));
                } else {
                    assert(old(self).used_ids@[i] == ids@[i] && old(self).used_ids@[j] == ids@[j]);
                }
            }
            assert forall|i: int| 0 <= i < ids@.len() implies 1 <= #[trigger] ids@[i] <= limit by {
                if i < ids@.len() - 1 {
                    assert(old(self).used_ids@[i] == ids@[i]);
                }
            }
        }
        *self = IDManager { next_id: candidate, used_ids: ids, limit };
        candidate
    }

    /// Puts `id` out of use: its first occurrence among the identifiers in
    /// use leaves. Does nothing where it is not in use.
    pub fn free_id(&mut self, id: u16)
        ensures
            final(self)@ == (IDManagerView {
                next_id: old(self)@.next_id,
                used_ids: spec_remove_first(old(self)@.used_ids, spec_is_id(id)),
                limit: old(self)@.limit,
            }),
            !final(self)@.used_ids.contains(id),
            final(self)@.spec_well_formed(),
    {
        proof {
            use_type_invariant(&*self);
        }
        let ghost wanted = spec_is_id(id);
        let ghost before = self.used_ids@;
        let mut i: usize = 0;
        let mut hit: Option<usize> = None;
        while i < self.used_ids.len() && hit.is_none()
            invariant
                *self == *old(self),
                i <= self.used_ids.len(),
                before == self.used_ids@,
                wanted == spec_is_id(id),
                hit is None ==> forall|j: int| 0 <= j < i ==> !wanted(#[trigger] before[j]),
                hit is Some ==> hit->0 < before.len() && before[hit->0 as int] == id
                    && forall|j: int| 0 <= j < hit->0 ==> !wanted(#[trigger] before[j]),
            decreases self.used_ids.len() - i + (if hit is None { 1int } else { 0 }),
        {
            if self.used_ids[i] == id {
                hit = Some(i);
            } else {
                i += 1;
            }
        }
        match hit {
            Some(at) => {
                let next_id = self.next_id;
                let limit = self.limit;
                let mut taken = IDManager { next_id, used_ids: Vec::new(), limit };
                core::mem::swap(self, &mut taken);
                let IDManager { next_id: _, used_ids: mut ids, limit: _ } = taken;
                ids.remove(at);
                proof {
                    assert(wanted(before[at as int]));
                    lemma_remove_first_at(before, wanted, at as int);
                    assert forall|a: int, b: int| 0 <= a < b < ids@.len() implies ids@[a]
                        != ids@[b] by {
                        let x = if a < at { a } else { a + 1 };
                        let y = if b < at { b } else { b + 1 };
                        assert(ids@[a] == before[x] && ids@[b] == before[y]);
                    }
                    assert forall|a: int| 0 <= a < ids@.len() implies 1 <= #[trigger] ids@[a]
                        <= limit && ids@[a] != id by {
                        let x = if a < at { a } else { a + 1 };
                        assert(ids@[a] == before[x]);
                    }
                }
                *self = IDManager { next_id, used_ids: ids, limit };
            },
            None => {
                proof {
                    lemma_remove_first_none(before, wanted);
                }
            },
        }
    }
}

} // verus!
