use vstd::prelude::*;

use crate::text::{decimal, owned, push_decimal};
use crate::threads::{first_free, lemma_first_free, lemma_first_free_is_first};

verus! {

/// A live session and the number of borrowers that hold it besides the registry.
pub struct Slot<S> {
    pub session: S,
    pub holders: usize,
}

/// Why the registry refused an operation.
#[derive(Debug, Clone, Copy, PartialEq, Eq, Structural)]
pub enum RegistryError {
    /// No session lives at this index.
    NoState(usize),
    /// The session at this index is still held elsewhere.
    InUse(usize),
}

pub open spec fn registry_error_text(e: RegistryError) -> Seq<char> {
    match e {
        RegistryError::NoState(i) => "No state at index "@ + decimal(i as nat),
        RegistryError::InUse(i) => "State at index "@ + decimal(i as nat) + " is still in use"@,
    }
}

impl RegistryError {
    pub fn message(&self) -> (r: String)
        ensures
            r@ == registry_error_text(*self),
    {
        match self {
            RegistryError::NoState(i) => {
                let mut s = owned("No state at index ");
                push_decimal(&mut s, *i as u64);
                s
            },
            RegistryError::InUse(i) => {
                let mut s = owned("State at index ");
                push_decimal(&mut s, *i as u64);
                s.append(" is still in use");
                s
            },
        }
    }
}

/// Whether a session lives in slot `index`.
pub open spec fn live_in<S>(slots: Seq<Option<Slot<S>>>, index: int) -> bool {
    0 <= index < slots.len() && slots[index] is Some
}

/// What looking up slot `index` gives.
pub open spec fn lookup_spec<S>(slots: Seq<Option<Slot<S>>>, index: usize) -> Result<S, RegistryError> {
    if live_in(slots, index as int) {
        Ok(slots[index as int]->Some_0.session)
    } else {
        Err(RegistryError::NoState(index))
    }
}

/// What releasing one borrower of slot `index` gives, and the slots after it.
pub open spec fn release_spec<S>(slots: Seq<Option<Slot<S>>>, index: usize) -> (Result<(), RegistryError>, Seq<Option<Slot<S>>>) {
    if !live_in(slots, index as int) || slots[index as int]->Some_0.holders == 0 {
        (Err(RegistryError::NoState(index)), slots)
    } else {
        let s = slots[index as int]->Some_0;
        (Ok(()), slots.update(index as int, Some(Slot { session: s.session, holders: (s.holders - 1) as usize })))
    }
}

/// What killing the session in slot `index` gives, and the slots after it.
pub open spec fn kill_spec<S>(slots: Seq<Option<Slot<S>>>, index: usize) -> (Result<S, RegistryError>, Seq<Option<Slot<S>>>) {
    if !live_in(slots, index as int) {
        (Err(RegistryError::NoState(index)), slots)
    } else if slots[index as int]->Some_0.holders > 0 {
        (Err(RegistryError::InUse(index)), slots)
    } else {
        (Ok(slots[index as int]->Some_0.session), slots.update(index as int, None))
    }
}

/// The table of sessions, addressed by slot index.
pub struct Registry<S> {
    pub slots: Vec<Option<Slot<S>>>,
}

impl<S> Registry<S> {
    pub fn new() -> (r: Registry<S>)
        ensures
            r.slots@.len() == 0,
    {
        Registry { slots: Vec::new() }
    }

    /// Whether a session lives at `index`.
    pub open spec fn live(&self, index: int) -> bool {
        live_in(self.slots@, index)
    }

    /// The slot the next session will take.
    pub fn next_index(&self) -> (r: usize)
        ensures
            r == first_free(self.slots@),
    {
        let mut i: usize = 0;
        while i < self.slots.len() && self.slots[i].is_some()
            invariant
                i <= self.slots@.len(),
                forall|j: int| 0 <= j < i ==> self.slots@[j] is Some,
            decreases self.slots@.len() - i,
        {
            i = i + 1;
        }
        proof {
            lemma_first_free_is_first(self.slots@, i as int);
        }
        i
    }

    /// Stores a new session in the lowest free slot, appending a slot where
    /// none is free, and returns that slot's index.
    pub fn new_state(&mut self, session: S) -> (r: usize)
        ensures
            r == first_free(old(self).slots@),
            r < old(self).slots@.len() ==> final(self).slots@ == old(self).slots@.update(
                r as int,
                Some(Slot { session, holders: 0 }),
            ),
            r == old(self).slots@.len() ==> final(self).slots@ == old(self).slots@.push(
                Some(Slot { session, holders: 0 }),
            ),
    {
        proof {
            lemma_first_free(self.slots@);
        }
        let mut i: usize = 0;
        while i < self.slots.len() && self.slots[i].is_some()
            invariant
                i <= self.slots@.len(),
                forall|j: int| 0 <= j < i ==> self.slots@[j] is Some,
            decreases self.slots@.len() - i,
        {
            i = i + 1;
        }
        proof {
            lemma_first_free_is_first(self.slots@, i as int);
        }
        if i < self.slots.len() {
            self.slots.set(i, Some(Slot { session, holders: 0 }));
        } else {
            self.slots.push(Some(Slot { session, holders: 0 }));
        }
        i
    }

    /// The session at `index`.
    pub fn get_state(&self, index: usize) -> (r: Result<&S, RegistryError>)
        ensures
            match r {
                Ok(v) => lookup_spec(self.slots@, index) == Ok::<S, RegistryError>(*v),
                Err(e) => lookup_spec(self.slots@, index) == Err::<S, RegistryError>(e),
            },
    {
        if index < self.slots.len() {
            match &self.slots[index] {
                Some(slot) => Ok(&slot.session),
                None => Err(RegistryError::NoState(index)),
            }
        } else {
            Err(RegistryError::NoState(index))
        }
    }

    /// Records one more borrower of the session at `index`.
    pub fn acquire(&mut self, index: usize) -> (r: Result<(), RegistryError>)
        ensures
            r is Ok <==> old(self).live(index as int) && old(self).slots@[index as int]->Some_0.holders
                < usize::MAX,
            r is Ok ==> final(self).slots@ == old(self).slots@.update(
                index as int,
                Some(Slot { holders: (old(self).slots@[index as int]->Some_0.holders + 1) as usize, ..old(self).slots@[index as int]->Some_0 }),
            ),
            r is Err ==> final(self).slots@ == old(self).slots@,
            !old(self).live(index as int) ==> r == Err::<(), RegistryError>(RegistryError::NoState(index)),
    {
        if index >= self.slots.len() || self.slots[index].is_none() {
            return Err(RegistryError::NoState(index));
        }
        let mut slot: Option<Slot<S>> = None;
        self.slots.set_and_swap(index, &mut slot);
        match slot {
            Some(s) => {
                if s.holders == usize::MAX {
                    self.slots.set(index, Some(s));
                    proof {
                        assert(self.slots@ =~= old(self).slots@);
                    }
                    Err(RegistryError::InUse(index))
                } else {
                    self.slots.set(index, Some(Slot { session: s.session, holders: s.holders + 1 }));
                    Ok(())
                }
            },
            None => Err(RegistryError::NoState(index)),
        }
    }

    /// Records that one borrower of the session at `index` let it go.
    pub fn release(&mut self, index: usize) -> (r: Result<(), RegistryError>)
        ensures
            (r, final(self).slots@) == release_spec(old(self).slots@, index),
    {
        if index >= self.slots.len() || self.slots[index].is_none() {
            return Err(RegistryError::NoState(index));
        }
        let mut slot: Option<Slot<S>> = None;
        self.slots.set_and_swap(index, &mut slot);
        match slot {
            Some(s) => {
                if s.holders == 0 {
                    self.slots.set(index, Some(s));
                    proof {
                        assert(self.slots@ =~= old(self).slots@);
                    }
                    Err(RegistryError::NoState(index))
                } else {
                    self.slots.set(index, Some(Slot { session: s.session, holders: s.holders - 1 }));
                    Ok(())
                }
            },
            None => Err(RegistryError::NoState(index)),
        }
    }

    /// Removes the session at `index` and hands it back for teardown; refused
    /// while any borrower holds it.
    pub fn kill_state(&mut self, index: usize) -> (r: Result<S, RegistryError>)
        ensures
            (r, final(self).slots@) == kill_spec(old(self).slots@, index),
    {
        if index >= self.slots.len() || self.slots[index].is_none() {
            return Err(RegistryError::NoState(index));
        }
        let mut slot: Option<Slot<S>> = None;
        self.slots.set_and_swap(index, &mut slot);
        match slot {
            Some(s) => {
                if s.holders > 0 {
                    self.slots.set(index, Some(s));
                    proof {
                        assert(self.slots@ =~= old(self).slots@);
                    }
                    Err(RegistryError::InUse(index))
                } else {
                    Ok(s.session)
                }
            },
            None => Err(RegistryError::NoState(index)),
        }
    }
}

/// Killing a session that one borrower still holds fails as in use and
/// leaves the slots as they were; once that borrower let it go, killing it
/// succeeds with the session, and looking up its index then fails.
pub proof fn lemma_kill_waits_for_holders<S>(slots: Seq<Option<Slot<S>>>, index: usize)
    requires
        live_in(slots, index as int),
        slots[index as int]->Some_0.holders == 1,
    ensures
        kill_spec(slots, index) == (Err::<S, RegistryError>(RegistryError::InUse(index)), slots),
        ({
            let (rel, after_release) = release_spec(slots, index);
            let (killed, after_kill) = kill_spec(after_release, index);
            &&& rel is Ok
            &&& killed == Ok::<S, RegistryError>(slots[index as int]->Some_0.session)
            &&& lookup_spec(after_kill, index) == Err::<S, RegistryError>(RegistryError::NoState(index))
        }),
{
}

} // verus!
