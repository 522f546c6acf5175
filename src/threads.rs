use vstd::prelude::*;

use std::collections::VecDeque;

use crate::text::{owned, push_decimal, decimal};

verus! {

/// A suspended script coroutine with the name it is listed under and the
/// identity of the function it was started from.
pub struct NamedThread<T> {
    pub name: String,
    pub thread: T,
    pub entry: u64,
}

/// Why the scheduler could not hand out a coroutine.
#[derive(Debug, Clone, Copy, PartialEq, Eq, Structural)]
pub enum ThreadError {
    /// The index lies past the end of the list.
    OutOfBounds,
    /// The yield slot at this index is empty.
    NoYieldedThread(usize),
    /// No coroutine sleeps.
    SleepQueueEmpty,
}

pub open spec fn thread_error_text(e: ThreadError) -> Seq<char> {
    match e {
        ThreadError::OutOfBounds => "Index out of bounds"@,
        ThreadError::NoYieldedThread(i) => "No yielded thread at index "@ + decimal(i as nat),
        ThreadError::SleepQueueEmpty => "Sleep queue is empty"@,
    }
}

impl ThreadError {
    /// The message that reports this error.
    pub fn message(&self) -> (r: String)
        ensures
            r@ == thread_error_text(*self),
    {
        match self {
            ThreadError::OutOfBounds => owned("Index out of bounds"),
            ThreadError::NoYieldedThread(i) => {
                let mut s = owned("No yielded thread at index ");
                push_decimal(&mut s, *i as u64);
                s
            },
            ThreadError::SleepQueueEmpty => owned("Sleep queue is empty"),
        }
    }
}

/// The lowest empty yield slot, or the length of the list where none is empty.
pub open spec fn first_free<A>(slots: Seq<Option<A>>) -> int
    decreases slots.len(),
{
    if slots.len() == 0 {
        0
    } else if first_free(slots.drop_last()) < slots.len() - 1 {
        first_free(slots.drop_last())
    } else if slots.last() is None {
        slots.len() - 1
    } else {
        slots.len() as int
    }
}

pub proof fn lemma_first_free<A>(slots: Seq<Option<A>>)
    ensures
        0 <= first_free(slots) <= slots.len(),
        first_free(slots) < slots.len() ==> slots[first_free(slots)] is None,
        forall|j: int| 0 <= j < first_free(slots) ==> slots[j] is Some,
    decreases slots.len(),
{
    if slots.len() > 0 {
        let s = slots.drop_last();
        lemma_first_free(s);
        assert forall|j: int| 0 <= j < first_free(slots) implies slots[j] is Some by {
            if j < slots.len() - 1 {
                assert(s[j] == slots[j]);
            }
        }
    }
}

/// The lowest empty slot is the first index whose slot is empty.
pub proof fn lemma_first_free_is_first<A>(slots: Seq<Option<A>>, i: int)
    requires
        0 <= i <= slots.len(),
        i < slots.len() ==> slots[i] is None,
        forall|j: int| 0 <= j < i ==> slots[j] is Some,
    ensures
        first_free(slots) == i,
    decreases slots.len(),
{
    lemma_first_free(slots);
    if slots.len() > 0 {
        let s = slots.drop_last();
        if i < slots.len() {
            lemma_first_free_is_first(s, if i < s.len() { i } else { s.len() as int });
        } else {
            lemma_first_free_is_first(s, s.len() as int);
        }
    }
}

/// What storing a suspended coroutine gives, and the slots and queue after it.
pub open spec fn push_spec<T>(
    ys: Seq<Option<NamedThread<T>>>,
    ss: Seq<NamedThread<T>>,
    t: NamedThread<T>,
    sleeping: bool,
) -> (Option<usize>, Seq<Option<NamedThread<T>>>, Seq<NamedThread<T>>) {
    if sleeping {
        (None, ys, ss.push(t))
    } else if first_free(ys) < ys.len() {
        (Some(first_free(ys) as usize), ys.update(first_free(ys), Some(t)), ss)
    } else {
        (Some(ys.len() as usize), ys.push(Some(t)), ss)
    }
}

/// What taking the coroutine out of yield slot `index` gives, and the slots after it.
pub open spec fn take_yield_spec<T>(ys: Seq<Option<NamedThread<T>>>, index: usize) -> (Result<
    NamedThread<T>,
    ThreadError,
>, Seq<Option<NamedThread<T>>>) {
    if index >= ys.len() || ys[index as int] is None {
        (Err(ThreadError::NoYieldedThread(index)), ys)
    } else {
        (Ok(ys[index as int]->Some_0), ys.update(index as int, None))
    }
}

/// What taking the front of the sleep queue gives, and the queue after it.
pub open spec fn pop_sleep_spec<T>(ss: Seq<NamedThread<T>>) -> (Result<NamedThread<T>, ThreadError>, Seq<NamedThread<T>>) {
    if ss.len() == 0 {
        (Err(ThreadError::SleepQueueEmpty), ss)
    } else {
        (Ok(ss[0]), ss.drop_first())
    }
}

/// Sleeping coroutines wake in the order they went to sleep.
pub proof fn lemma_sleep_fifo<T>(
    ys: Seq<Option<NamedThread<T>>>,
    a: NamedThread<T>,
    b: NamedThread<T>,
)
    ensures
        ({
            let (ra, ys1, ss1) = push_spec(ys, Seq::empty(), a, true);
            let (rb, ys2, ss2) = push_spec(ys1, ss1, b, true);
            let (first, ss3) = pop_sleep_spec(ss2);
            let (second, ss4) = pop_sleep_spec(ss3);
            &&& ra is None && rb is None
            &&& ys2 == ys
            &&& first == Ok::<NamedThread<T>, ThreadError>(a)
            &&& second == Ok::<NamedThread<T>, ThreadError>(b)
            &&& ss4.len() == 0
        }),
{
    let ss2 = Seq::<NamedThread<T>>::empty().push(a).push(b);
    assert(ss2.drop_first() =~= seq![b]);
}

/// Yields take slots 0 and 1; resuming slot 0 frees it, and the next yield
/// takes slot 0 again rather than a new slot 2.
pub proof fn lemma_yield_slot_reuse<T>(
    a: NamedThread<T>,
    b: NamedThread<T>,
    c: NamedThread<T>,
)
    ensures
        ({
            let ss = Seq::<NamedThread<T>>::empty();
            let (ra, ys1, ss1) = push_spec(Seq::empty(), ss, a, false);
            let (rb, ys2, ss2) = push_spec(ys1, ss1, b, false);
            let (taken, ys3) = take_yield_spec(ys2, 0);
            let (rc, ys4, ss4) = push_spec(ys3, ss2, c, false);
            &&& ra == Some(0usize)
            &&& rb == Some(1usize)
            &&& taken == Ok::<NamedThread<T>, ThreadError>(a)
            &&& rc == Some(0usize)
            &&& ys4.len() == 2
        }),
{
    let e = Seq::<Option<NamedThread<T>>>::empty();
    assert(first_free(e) == 0);
    let ys1 = e.push(Some(a));
    lemma_first_free_is_first(ys1, 1);
    let ys2 = ys1.push(Some(b));
    lemma_first_free_is_first(ys2, 2);
    let ys3 = ys2.update(0, None);
    lemma_first_free_is_first(ys3, 0);
}

/// The coroutines of one session that wait to be resumed: yielded ones by
/// slot index, sleeping ones in order of arrival.
pub struct Threads<T> {
    pub yields: Vec<Option<NamedThread<T>>>,
    pub sleeps: VecDeque<NamedThread<T>>,
}

/// One entry of a listing: an index and the coroutine's name.
pub struct ThreadEntry {
    pub index: usize,
    pub name: String,
}

/// The listing of the live coroutines of a session.
pub struct ThreadList {
    pub yields: Vec<ThreadEntry>,
    pub sleeps: Vec<ThreadEntry>,
}

/// The (index, name) pairs of the occupied slots among the first `n`.
pub open spec fn yield_listing<T>(slots: Seq<Option<NamedThread<T>>>, n: int) -> Seq<(int, Seq<char>)>
    decreases n,
{
    if n <= 0 {
        seq![]
    } else {
        match slots[n - 1] {
            Some(t) => yield_listing(slots, n - 1).push((n - 1, t.name@)),
            None => yield_listing(slots, n - 1),
        }
    }
}

pub open spec fn entries_view(v: Seq<ThreadEntry>) -> Seq<(int, Seq<char>)> {
    v.map_values(|e: ThreadEntry| (e.index as int, e.name@))
}

impl<T> Threads<T> {
    pub fn new() -> (r: Threads<T>)
        ensures
            r.yields@.len() == 0,
            r.sleeps@.len() == 0,
    {
        Threads { yields: Vec::new(), sleeps: VecDeque::new() }
    }

    /// Stores a coroutine that suspended: at the back of the sleep queue when
    /// it asked to sleep (no index), else in the lowest empty yield slot,
    /// appended where none is empty; returns that slot's index.
    pub fn push_yielded_thread(&mut self, thread: NamedThread<T>, sleeping: bool) -> (r: Option<
        usize,
    >)
        ensures
            (r, final(self).yields@, final(self).sleeps@) == push_spec(
                old(self).yields@,
                old(self).sleeps@,
                thread,
                sleeping,
            ),
    {
        if sleeping {
            self.sleeps.push_back(thread);
            return None;
        }
        let index = self.next_yield_index();
        if index < self.yields.len() {
            self.yields.set(index, Some(thread));
        } else {
            self.yields.push(Some(thread));
        }
        Some(index)
    }

    /// The index that the next yield will take.
    pub fn next_yield_index(&self) -> (r: usize)
        ensures
            r == first_free(self.yields@),
    {
        let mut i: usize = 0;
        while i < self.yields.len()
            invariant
                i <= self.yields@.len(),
                forall|j: int| 0 <= j < i ==> self.yields@[j] is Some,
            decreases self.yields@.len() - i,
        {
            if self.yields[i].is_none() {
                proof {
                    lemma_first_free_is_first(self.yields@, i as int);
                }
                return i;
            }
            i = i + 1;
        }
        proof {
            lemma_first_free_is_first(self.yields@, i as int);
        }
        i
    }

    /// Takes the coroutine out of yield slot `index`, leaving the slot empty.
    pub fn get_yielded_thread(&mut self, index: usize) -> (r: Result<NamedThread<T>, ThreadError>)
        ensures
            (r, final(self).yields@) == take_yield_spec(old(self).yields@, index),
            final(self).sleeps@ == old(self).sleeps@,
    {
        if index >= self.yields.len() || self.yields[index].is_none() {
            return Err(ThreadError::NoYieldedThread(index));
        }
        let mut slot: Option<NamedThread<T>> = None;
        self.yields.set_and_swap(index, &mut slot);
        match slot {
            Some(t) => Ok(t),
            None => Err(ThreadError::NoYieldedThread(index)),
        }
    }

    /// Takes the coroutine that has slept longest.
    pub fn pop_front_sleeping_thread(&mut self) -> (r: Result<NamedThread<T>, ThreadError>)
        ensures
            (r, final(self).sleeps@) == pop_sleep_spec(old(self).sleeps@),
            final(self).yields@ == old(self).yields@,
    {
        match self.sleeps.pop_front() {
            Some(t) => Ok(t),
            None => Err(ThreadError::SleepQueueEmpty),
        }
    }

    /// Takes the sleeping coroutine at position `index` of the queue.
    pub fn remove_sleeping_thread(&mut self, index: usize) -> (r: Result<NamedThread<T>, ThreadError>)
        ensures
            index >= old(self).sleeps@.len() ==> r == Err::<NamedThread<T>, ThreadError>(
                ThreadError::OutOfBounds,
            ) && final(self).yields@ == old(self).yields@ && final(self).sleeps@ == old(self).sleeps@,
            index < old(self).sleeps@.len() ==> r == Ok::<NamedThread<T>, ThreadError>(
                old(self).sleeps@[index as int],
            ) && final(self).sleeps@ == old(self).sleeps@.remove(index as int)
                && final(self).yields@ == old(self).yields@,
    {
        match self.sleeps.remove(index) {
            Some(t) => Ok(t),
            None => Err(ThreadError::OutOfBounds),
        }
    }

    /// Lists the (index, name) pairs of the yielded coroutines, by slot, and
    /// of the sleeping ones, by position in the queue.
    pub fn list_threads(&self) -> (r: ThreadList)
        ensures
            entries_view(r.yields@) == yield_listing(self.yields@, self.yields@.len() as int),
            entries_view(r.sleeps@) == Seq::new(
                self.sleeps@.len(),
                |i: int| (i, self.sleeps@[i].name@),
            ),
    {
        let mut yields: Vec<ThreadEntry> = Vec::new();
        let mut i: usize = 0;
        while i < self.yields.len()
            invariant
                i <= self.yields@.len(),
                entries_view(yields@) == yield_listing(self.yields@, i as int),
            decreases self.yields@.len() - i,
        {
            match &self.yields[i] {
                Some(t) => {
                    let e = ThreadEntry { index: i, name: t.name.clone() };
                    yields.push(e);
                    assert(entries_view(yields@) =~= yield_listing(self.yields@, i + 1));
                },
                None => {},
            }
            i = i + 1;
        }
        let mut sleeps: Vec<ThreadEntry> = Vec::new();
        let mut k: usize = 0;
        while k < self.sleeps.len()
            invariant
                k <= self.sleeps@.len(),
                sleeps@.len() == k,
                forall|j: int|
                    0 <= j < k ==> sleeps@[j].index == j && sleeps@[j].name@
                        == self.sleeps@[j].name@,
            decreases self.sleeps@.len() - k,
        {
            let name = self.sleeps[k].name.clone();
            sleeps.push(ThreadEntry { index: k, name });
            k = k + 1;
        }
        assert(entries_view(sleeps@) =~= Seq::new(
            self.sleeps@.len(),
            |i: int| (i, self.sleeps@[i].name@),
        ));
        ThreadList { yields, sleeps }
    }

    /// The entry functions of every coroutine that waits, sleeping first.
    pub fn entries(&self) -> (r: Vec<u64>)
        ensures
            r@ == self.sleeps@.map_values(|t: NamedThread<T>| t.entry) + live_entries(
                self.yields@,
                self.yields@.len() as int,
            ),
    {
        let mut r: Vec<u64> = Vec::new();
        let mut k: usize = 0;
        while k < self.sleeps.len()
            invariant
                k <= self.sleeps@.len(),
                r@ =~= self.sleeps@.subrange(0, k as int).map_values(|t: NamedThread<T>| t.entry),
            decreases self.sleeps@.len() - k,
        {
            r.push(self.sleeps[k].entry);
            k = k + 1;
        }
        assert(self.sleeps@.subrange(0, k as int) =~= self.sleeps@);
        let ghost s = r@;
        let mut i: usize = 0;
        while i < self.yields.len()
            invariant
                i <= self.yields@.len(),
                r@ =~= s + live_entries(self.yields@, i as int),
            decreases self.yields@.len() - i,
        {
            match &self.yields[i] {
                Some(t) => {
                    r.push(t.entry);
                },
                None => {},
            }
            i = i + 1;
        }
        r
    }
}

/// The entry functions of the occupied slots among the first `n`.
pub open spec fn live_entries<T>(slots: Seq<Option<NamedThread<T>>>, n: int) -> Seq<u64>
    decreases n,
{
    if n <= 0 {
        seq![]
    } else {
        match slots[n - 1] {
            Some(t) => live_entries(slots, n - 1).push(t.entry),
            None => live_entries(slots, n - 1),
        }
    }
}

} // verus!
