//! Per-instance plugin state.
//!
//! The host addresses a plugin instance only through the opaque handle
//! returned when the instance is initialised, and promises to pass that
//! handle back unchanged on every later lifecycle call. [`InstanceTable`]
//! is the arena behind those handles: [`InstanceTable::install`] creates a
//! slot on the initial lifecycle call and hands its index out as the
//! handle, and [`InstanceTable::retire`] empties the slot on the terminal
//! call and hands the state back for destruction. Handles are never reused:
//! a retired slot stays empty and every installation takes a fresh index.

use vstd::prelude::*;

verus! {

/// True when `h` denotes a live instance of the table `s`.
pub open spec fn slot_live<T>(s: Seq<Option<T>>, h: int) -> bool {
    0 <= h < s.len() && s[h] is Some
}

/// How many instances of the table `s` are live.
pub open spec fn live_count<T>(s: Seq<Option<T>>) -> nat
    decreases s.len(),
{
    if s.len() == 0 {
        0
    } else {
        live_count(s.drop_last()) + if s.last() is Some {
            1nat
        } else {
            0nat
        }
    }
}

/// The arena of per-instance plugin state, viewed as the sequence of its
/// slots: a live slot holds the state of the instance whose handle is the
/// slot's index, an empty slot marks a retired instance.
pub struct InstanceTable<T> {
    slots: Vec<Option<T>>,
}

impl<T> View for InstanceTable<T> {
    type V = Seq<Option<T>>;

    closed spec fn view(&self) -> Seq<Option<T>> {
        self.slots@
    }
}

impl<T> InstanceTable<T> {
    /// A table with no instances.
    pub fn new() -> (t: Self)
        ensures
            t@ == Seq::<Option<T>>::empty(),
    {
        InstanceTable { slots: Vec::new() }
    }

    /// Install freshly constructed instance state and return its handle.
    /// The handle is fresh: no earlier installation returned it, and every
    /// other slot is left as it was.
    pub fn install(&mut self, state: T) -> (h: usize)
        ensures
            h as int == old(self)@.len(),
            final(self)@ == old(self)@.push(Some(state)),
            slot_live(final(self)@, h as int),
    {
        let h = self.slots.len();
        self.slots.push(Some(state));
        h
    }

    /// True when `h` denotes a live instance.
    pub fn is_live(&self, h: usize) -> (b: bool)
        ensures
            b == slot_live(self@, h as int),
    {
        h < self.slots.len() && self.slots[h].is_some()
    }

    /// The state of the live instance `h`.
    pub fn borrow(&self, h: usize) -> (state: &T)
        requires
            slot_live(self@, h as int),
        ensures
            Some(*state) == self@[h as int],
    {
        match &self.slots[h] {
            Some(state) => state,
            None => vstd::pervasive::unreached(),
        }
    }

    /// Retire the live instance `h` and hand its state back for
    /// destruction. The slot is emptied, never reused, and every other
    /// slot is left as it was.
    pub fn retire(&mut self, h: usize) -> (state: T)
        requires
            slot_live(old(self)@, h as int),
        ensures
            final(self)@ == old(self)@.update(h as int, None),
            Some(state) == old(self)@[h as int],
    {
        let slot = vstd::std_specs::vec::vec_index_mut(&mut self.slots, h);
        let mut taken: Option<T> = None;
        core::mem::swap(slot, &mut taken);
        match taken {
            Some(state) => state,
            None => vstd::pervasive::unreached(),
        }
    }

    /// How many instances are live.
    pub fn live_instances(&self) -> (n: usize)
        ensures
            n as nat == live_count(self@),
    {
        let mut n: usize = 0;
        let mut i: usize = 0;
        while i < self.slots.len()
            invariant
                i <= self.slots@.len(),
                n <= i,
                n as nat == live_count(self.slots@.subrange(0, i as int)),
            decreases self.slots@.len() - i,
        {
            proof {
                lemma_live_count_grow(self.slots@, i as int);
            }
            if self.slots[i].is_some() {
                n = n + 1;
            }
            i = i + 1;
        }
        proof {
            assert(self.slots@.subrange(0, self.slots@.len() as int) =~= self.slots@);
        }
        n
    }
}

proof fn lemma_live_count_grow<T>(s: Seq<Option<T>>, i: int)
    requires
        0 <= i < s.len(),
    ensures
        live_count(s.subrange(0, i + 1)) == live_count(s.subrange(0, i)) + if s[i] is Some {
            1nat
        } else {
            0nat
        },
{
    assert(s.subrange(0, i + 1).drop_last() =~= s.subrange(0, i));
    assert(s.subrange(0, i + 1).last() == s[i]);
}

/// Law: initialising an instance and then finalising it performs exactly
/// one matching construction and destruction. Installing state makes one
/// slot live; retiring the handle the installation returned empties that
/// slot again, restores the live count to what it was, and leaves every
/// previously existing slot untouched.
pub proof fn lemma_install_then_retire<T>(s: Seq<Option<T>>, state: T)
    ensures
        live_count(s.push(Some(state))) == live_count(s) + 1,
        live_count(s.push(Some(state)).update(s.len() as int, None)) == live_count(s),
        forall|j: int|
            0 <= j < s.len() ==> s.push(Some(state)).update(s.len() as int, None)[j] == s[j],
{
    assert(s.push(Some(state)).drop_last() =~= s);
    assert(s.push(Some(state)).update(s.len() as int, None) =~= s.push(None));
    assert(s.push(None::<T>).drop_last() =~= s);
}

} // verus!
