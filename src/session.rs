use vstd::prelude::*;

use std::collections::HashSet;

use crate::exec_limit::{may_continue, ExecLimit};
use crate::text::{decimal, owned, push_decimal};
use crate::threads::{live_entries, push_spec, NamedThread, ThreadError, Threads};
use crate::userdata::UserdataCache;
use crate::usr::UsrStack;

verus! {

/// How a run of a coroutine ended.
#[derive(Debug, Clone, PartialEq, Eq)]
pub enum RunStatus {
    /// The coroutine returned.
    Finished,
    /// The coroutine yielded and waits in this slot.
    Yield(usize),
    /// The coroutine asked to sleep and waits in the sleep queue.
    Sleep,
    /// The coroutine raised this error and was dropped.
    Error(String),
}

pub open spec fn status_name(s: RunStatus) -> Seq<char> {
    match s {
        RunStatus::Finished => "finished"@,
        RunStatus::Yield(_) => "yield"@,
        RunStatus::Sleep => "sleep"@,
        RunStatus::Error(_) => "error"@,
    }
}

impl RunStatus {
    /// The status word a run reports to the host.
    pub fn status_text(&self) -> (r: &'static str)
        ensures
            r@ == status_name(*self),
    {
        match self {
            RunStatus::Finished => "finished",
            RunStatus::Yield(_) => "yield",
            RunStatus::Sleep => "sleep",
            RunStatus::Error(_) => "error",
        }
    }
}

/// The status of a run: an error drops the coroutine; one that returned is
/// finished; one that suspended sleeps if it asked to, else takes a slot.
pub open spec fn run_status<T>(
    result: Result<(), String>,
    resumable: bool,
    slept: bool,
    yields: Seq<Option<NamedThread<T>>>,
    t: NamedThread<T>,
) -> RunStatus {
    match result {
        Err(m) => RunStatus::Error(m),
        Ok(()) => if !resumable {
            RunStatus::Finished
        } else {
            match push_spec(yields, Seq::empty(), t, slept).0 {
                Some(i) => RunStatus::Yield(i),
                None => RunStatus::Sleep,
            }
        },
    }
}

/// One embedded interpreter's state on the host side: its waiting
/// coroutines, its execution limiter, the caller-context values, the main
/// chunks loaded in it, the traceback producers of the runs in progress,
/// the cached wrappers of host objects, and the flag the sleep primitive sets.
pub struct Session<T, F, W> {
    pub isolated: bool,
    pub threads: Threads<T>,
    pub limiter: ExecLimit,
    pub usr: UsrStack,
    pub main_chunks: HashSet<u64>,
    pub tracebacks: Vec<F>,
    pub userdata: UserdataCache<W>,
    pub sleep_flag: bool,
}

impl<T, F, W> Session<T, F, W> {
    pub open spec fn wf(&self) -> bool {
        self.limiter.wf()
    }

    /// The run context is the same in both: limiter, caller context,
    /// traceback producers and isolation.
    pub open spec fn same_context(&self, other: &Self) -> bool {
        &&& self.limiter == other.limiter
        &&& self.usr.usr == other.usr.usr
        &&& self.usr.stack@ == other.usr.stack@
        &&& self.tracebacks@ == other.tracebacks@
        &&& self.isolated == other.isolated
    }

    pub fn new(isolated: bool) -> (r: Session<T, F, W>)
        ensures
            r.wf(),
            r.isolated == isolated,
            r.threads.yields@.len() == 0,
            r.threads.sleeps@.len() == 0,
            r.limiter.call_depth == 0,
            r.main_chunks@ == Set::<u64>::empty(),
            r.tracebacks@.len() == 0,
            !r.sleep_flag,
    {
        Session {
            isolated,
            threads: Threads::new(),
            limiter: ExecLimit::new(),
            usr: UsrStack::new(),
            main_chunks: HashSet::new(),
            tracebacks: Vec::new(),
            userdata: UserdataCache::new(),
            sleep_flag: false,
        }
    }

    /// Whether the session was made as a sandbox.
    pub fn is_isolated(&self) -> (r: bool)
        ensures
            r == self.isolated,
    {
        self.isolated
    }

    /// The sleep primitive's part: records that the running coroutine asked
    /// to sleep; the interpreter then suspends it.
    pub fn sleep(&mut self)
        ensures
            final(self).sleep_flag,
            final(self).threads == old(self).threads,
            final(self).same_context(&*old(self)),
            final(self).main_chunks@ == old(self).main_chunks@,
    {
        self.sleep_flag = true;
    }

    /// Reads and clears the sleep flag.
    pub fn take_sleep_flag(&mut self) -> (r: bool)
        ensures
            r == old(self).sleep_flag,
            !final(self).sleep_flag,
            final(self).same_context(&*old(self)),
            final(self).threads.yields@ == old(self).threads.yields@,
            final(self).threads.sleeps@ == old(self).threads.sleeps@,
            final(self).main_chunks@ == old(self).main_chunks@,
    {
        let r = self.sleep_flag;
        self.sleep_flag = false;
        r
    }

    /// Records a main chunk that was loaded.
    pub fn insert_main_chunk(&mut self, f: u64)
        ensures
            final(self).main_chunks@ == old(self).main_chunks@.insert(f),
    {
        self.main_chunks.insert(f);
    }

    /// Whether a function is a loaded main chunk.
    pub fn is_main_chunk(&self, f: u64) -> (r: bool)
        ensures
            r == self.main_chunks@.contains(f),
    {
        self.main_chunks.contains(&f)
    }

    /// Forgets a main chunk.
    pub fn remove_main_chunk(&mut self, f: u64)
        ensures
            final(self).main_chunks@ == old(self).main_chunks@.remove(f),
    {
        self.main_chunks.remove(&f);
    }

    /// Starts a run: binds its traceback producer, saves the caller context,
    /// and enters the limiter at time `now`.
    pub fn begin_run(&mut self, traceback: F, now: u64)
        requires
            old(self).wf(),
            old(self).limiter.call_depth < usize::MAX,
        ensures
            final(self).wf(),
            final(self).tracebacks@ == old(self).tracebacks@.push(traceback),
            final(self).usr.stack@ == old(self).usr.stack@.push(old(self).usr.usr),
            final(self).usr.usr is None,
            final(self).limiter.call_depth == old(self).limiter.call_depth + 1,
            old(self).limiter.call_depth == 0 ==> final(self).limiter.start == Some(now),
            final(self).limiter.limit == old(self).limiter.limit,
            final(self).threads.yields@ == old(self).threads.yields@,
            final(self).threads.sleeps@ == old(self).threads.sleeps@,
            final(self).main_chunks@ == old(self).main_chunks@,
            final(self).sleep_flag == old(self).sleep_flag,
    {
        self.tracebacks.push(traceback);
        self.usr.push_usr();
        self.limiter.increment_call_depth(now);
    }

    /// Ends a run of `thread`: leaves the limiter, restores the caller
    /// context, unbinds the traceback producer, forgets the main chunk of a
    /// coroutine that cannot resume, consumes the sleep flag, and stores a
    /// suspended coroutine by the kind of its suspension.
    pub fn end_run(&mut self, thread: NamedThread<T>, result: Result<(), String>, resumable: bool) -> (r: RunStatus)
        requires
            old(self).wf(),
            old(self).limiter.call_depth > 0,
        ensures
            final(self).wf(),
            r == run_status(result, resumable, old(self).sleep_flag, old(self).threads.yields@, thread),
            !final(self).sleep_flag,
            final(self).limiter.call_depth == old(self).limiter.call_depth - 1,
            final(self).limiter.limit == old(self).limiter.limit,
            old(self).limiter.call_depth == 1 ==> final(self).limiter.start is None,
            final(self).usr.usr == old(self).usr.usr,
            old(self).usr.stack@.len() > 0 ==> final(self).usr.stack@ == old(self).usr.stack@.drop_last(),
            old(self).tracebacks@.len() > 0 ==> final(self).tracebacks@ == old(self).tracebacks@.drop_last(),
            final(self).main_chunks@ == if resumable {
                old(self).main_chunks@
            } else {
                old(self).main_chunks@.remove(thread.entry)
            },
            match result {
                Ok(()) if resumable => (final(self).threads.yields@, final(self).threads.sleeps@)
                    == (push_spec(old(self).threads.yields@, old(self).threads.sleeps@, thread, old(self).sleep_flag).1,
                        push_spec(old(self).threads.yields@, old(self).threads.sleeps@, thread, old(self).sleep_flag).2),
                _ => final(self).threads.yields@ == old(self).threads.yields@
                    && final(self).threads.sleeps@ == old(self).threads.sleeps@,
            },
    {
        self.limiter.decrement_call_depth();
        self.usr.pop_usr();
        let _ = self.tracebacks.pop();
        let slept = self.sleep_flag;
        self.sleep_flag = false;
        if !resumable {
            self.main_chunks.remove(&thread.entry);
        }
        match result {
            Err(m) => RunStatus::Error(m),
            Ok(()) => {
                if !resumable {
                    RunStatus::Finished
                } else {
                    match self.threads.push_yielded_thread(thread, slept) {
                        Some(i) => RunStatus::Yield(i),
                        None => RunStatus::Sleep,
                    }
                }
            },
        }
    }

    /// Takes the coroutine that slept longest, to run it next.
    pub fn awaken(&mut self) -> (r: Result<NamedThread<T>, ThreadError>)
        ensures
            old(self).threads.sleeps@.len() == 0 ==> r == Err::<NamedThread<T>, ThreadError>(ThreadError::SleepQueueEmpty),
            old(self).threads.sleeps@.len() == 0 ==> final(self).threads.sleeps@ == old(self).threads.sleeps@,
            old(self).threads.sleeps@.len() > 0 ==> r == Ok::<NamedThread<T>, ThreadError>(old(self).threads.sleeps@[0])
                && final(self).threads.sleeps@ == old(self).threads.sleeps@.drop_first(),
            final(self).threads.yields@ == old(self).threads.yields@,
            final(self).same_context(&*old(self)),
            final(self).sleep_flag == old(self).sleep_flag,
            final(self).main_chunks@ == old(self).main_chunks@,
    {
        self.threads.pop_front_sleeping_thread()
    }

    /// Takes the coroutine in yield slot `index`, to run it next.
    pub fn resume(&mut self, index: usize) -> (r: Result<NamedThread<T>, ThreadError>)
        ensures
            index >= old(self).threads.yields@.len() || old(self).threads.yields@[index as int] is None ==> r
                == Err::<NamedThread<T>, ThreadError>(ThreadError::NoYieldedThread(index)),
            index < old(self).threads.yields@.len() && old(self).threads.yields@[index as int] is Some ==> r
                == Ok::<NamedThread<T>, ThreadError>(old(self).threads.yields@[index as int]->Some_0)
                && final(self).threads.yields@ == old(self).threads.yields@.update(index as int, None),
            r is Err ==> final(self).threads.yields@ == old(self).threads.yields@,
            final(self).threads.sleeps@ == old(self).threads.sleeps@,
            final(self).same_context(&*old(self)),
            final(self).sleep_flag == old(self).sleep_flag,
            final(self).main_chunks@ == old(self).main_chunks@,
    {
        self.threads.get_yielded_thread(index)
    }

    /// Drops the coroutine in yield slot `index` without running it, and
    /// forgets its main chunk.
    pub fn kill_yielded_thread(&mut self, index: usize) -> (r: Result<(), ThreadError>)
        ensures
            r is Ok <==> index < old(self).threads.yields@.len() && old(self).threads.yields@[index as int] is Some,
            r is Err ==> r == Err::<(), ThreadError>(ThreadError::NoYieldedThread(index)),
            final(self).same_context(&*old(self)),
            final(self).sleep_flag == old(self).sleep_flag,
            r is Ok ==> final(self).threads.yields@ == old(self).threads.yields@.update(index as int, None)
                && final(self).main_chunks@ == old(self).main_chunks@.remove(
                old(self).threads.yields@[index as int]->Some_0.entry),
            r is Err ==> final(self).threads.yields@ == old(self).threads.yields@
                && final(self).main_chunks@ == old(self).main_chunks@,
            final(self).threads.sleeps@ == old(self).threads.sleeps@,
    {
        match self.threads.get_yielded_thread(index) {
            Ok(t) => {
                self.main_chunks.remove(&t.entry);
                Ok(())
            },
            Err(e) => Err(e),
        }
    }

    /// Drops the sleeping coroutine at position `index` of the queue without
    /// running it, and forgets its main chunk.
    pub fn kill_sleeping_thread(&mut self, index: usize) -> (r: Result<(), ThreadError>)
        ensures
            r is Ok <==> index < old(self).threads.sleeps@.len(),
            r is Err ==> r == Err::<(), ThreadError>(ThreadError::OutOfBounds),
            final(self).same_context(&*old(self)),
            final(self).sleep_flag == old(self).sleep_flag,
            r is Ok ==> final(self).threads.sleeps@ == old(self).threads.sleeps@.remove(index as int)
                && final(self).main_chunks@ == old(self).main_chunks@.remove(
                old(self).threads.sleeps@[index as int].entry),
            r is Err ==> final(self).threads.sleeps@ == old(self).threads.sleeps@
                && final(self).main_chunks@ == old(self).main_chunks@,
            final(self).threads.yields@ == old(self).threads.yields@,
    {
        match self.threads.remove_sleeping_thread(index) {
            Ok(t) => {
                self.main_chunks.remove(&t.entry);
                Ok(())
            },
            Err(e) => Err(e),
        }
    }

    /// Forgets the main chunks of every coroutine that still waits, before
    /// the session is torn down.
    pub fn nuke_main_chunks(&mut self)
        ensures
            forall|f: u64| #[trigger] final(self).main_chunks@.contains(f) ==> old(self).main_chunks@.contains(f),
            forall|i: int| 0 <= i < old(self).threads.sleeps@.len() ==> !final(self).main_chunks@.contains(
                #[trigger] old(self).threads.sleeps@[i].entry),
            forall|i: int| 0 <= i < old(self).threads.yields@.len() && #[trigger] old(self).threads.yields@[i] is Some
                ==> !final(self).main_chunks@.contains(old(self).threads.yields@[i]->Some_0.entry),
            final(self).threads == old(self).threads,
    {
        let entries = self.threads.entries();
        let mut i: usize = 0;
        while i < entries.len()
            invariant
                i <= entries@.len(),
                forall|f: u64| #[trigger] self.main_chunks@.contains(f) ==> old(self).main_chunks@.contains(f),
                forall|j: int| 0 <= j < i ==> !self.main_chunks@.contains(#[trigger] entries@[j]),
                self.threads == old(self).threads,
            decreases entries@.len() - i,
        {
            self.main_chunks.remove(&entries[i]);
            i = i + 1;
        }
        proof {
            let ss = old(self).threads.sleeps@;
            let ys = old(self).threads.yields@;
            assert forall|i: int| 0 <= i < ss.len() implies !self.main_chunks@.contains(#[trigger] ss[i].entry) by {
                assert(entries@[i] == ss[i].entry);
            }
            assert forall|i: int| 0 <= i < ys.len() && #[trigger] ys[i] is Some implies !self.main_chunks@.contains(ys[i]->Some_0.entry) by {
                lemma_live_entries_contains(ys, ys.len() as int, i);
                let k = choose|k: int| 0 <= k < live_entries(ys, ys.len() as int).len()
                    && #[trigger] live_entries(ys, ys.len() as int)[k] == ys[i]->Some_0.entry;
                assert(entries@[ss.len() + k] == ys[i]->Some_0.entry);
            }
        }
    }

    /// Which bound traceback producer serves depth `depth`, counted from the
    /// innermost run: none for 0 or past the runs in progress.
    pub fn traceback_index(&self, depth: usize) -> (r: Option<usize>)
        ensures
            depth == 0 || depth > self.tracebacks@.len() ==> r is None,
            !(depth == 0 || depth > self.tracebacks@.len()) ==> r == Some((self.tracebacks@.len() - depth) as usize),
    {
        if depth == 0 || depth > self.tracebacks.len() {
            None
        } else {
            Some(self.tracebacks.len() - depth)
        }
    }
}

proof fn lemma_live_entries_contains<T>(ys: Seq<Option<NamedThread<T>>>, n: int, i: int)
    requires
        0 <= i < n <= ys.len(),
        ys[i] is Some,
    ensures
        exists|k: int| 0 <= k < live_entries(ys, n).len() && #[trigger] live_entries(ys, n)[k]
            == ys[i]->Some_0.entry,
    decreases n,
{
    if i < n - 1 {
        lemma_live_entries_contains(ys, n - 1, i);
        let k = choose|k: int| 0 <= k < live_entries(ys, n - 1).len() && #[trigger] live_entries(ys, n - 1)[k]
            == ys[i]->Some_0.entry;
        if ys[n - 1] is Some {
            assert(live_entries(ys, n) == live_entries(ys, n - 1).push(ys[n - 1]->Some_0.entry));
        } else {
            assert(live_entries(ys, n) == live_entries(ys, n - 1));
        }
        assert(live_entries(ys, n)[k] == ys[i]->Some_0.entry);
    } else {
        let l = live_entries(ys, n);
        assert(l[l.len() - 1] == ys[i]->Some_0.entry);
    }
}

/// Why a function path could not be walked.
pub open spec fn path_error_text(index: nat, last: bool, got: Seq<char>) -> Seq<char> {
    "invalid function path element at index "@ + decimal(index) + ": expected "@ + if last {
        "function"@
    } else {
        "table"@
    } + ", got "@ + got
}

/// Checks element `index` (from 1) of a function path of `len` elements:
/// every element but the last must be a table and the last a function.
pub fn check_path_element(index: usize, len: usize, is_table: bool, is_function: bool, got: &str) -> (r: Result<(), String>)
    requires
        1 <= index <= len,
    ensures
        r is Ok <==> (index < len && is_table) || (index == len && is_function),
        r is Err ==> r->Err_0@ == path_error_text(index as nat, index == len, got@),
{
    if index < len && is_table {
        return Ok(());
    }
    if index == len && is_function {
        return Ok(());
    }
    let mut m = owned("invalid function path element at index ");
    push_decimal(&mut m, index as u64);
    m.append(": expected ");
    if index == len {
        m.append("function");
    } else {
        m.append("table");
    }
    m.append(", got ");
    m.append(got);
    Err(m)
}

/// A script that asks to sleep while still within its budget is never
/// stopped by the limiter and ends its run sleeping, without an error.
pub proof fn lemma_sleep_within_budget<T>(
    l: ExecLimit,
    budget: u64,
    start: u64,
    now: u64,
    yields: Seq<Option<NamedThread<T>>>,
    t: NamedThread<T>,
)
    requires
        l.limit == Some(budget),
        l.start == Some(start),
        !l.privileged,
        start <= now,
        now - start <= budget,
    ensures
        may_continue(l, now),
        run_status(Ok(()), true, true, yields, t) == RunStatus::Sleep,
{
}

} // verus!
