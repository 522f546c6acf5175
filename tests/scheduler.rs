use dreamluau::exec_limit::{ExecLimit, LimitError};
use dreamluau::registry::{Registry, RegistryError};
use dreamluau::session::{check_path_element, RunStatus, Session};
use dreamluau::threads::{NamedThread, ThreadError, Threads};
use dreamluau::userdata::UserdataCache;
use dreamluau::usr::UsrStack;
use dreamluau::value::HostValue;

fn named(name: &str, entry: u64) -> NamedThread<u32> {
    NamedThread { name: name.to_string(), thread: entry as u32, entry }
}

type TestSession = Session<u32, u8, u64>;

#[test]
fn sleepers_wake_in_arrival_order() {
    let mut s: TestSession = Session::new(false);
    for (name, entry) in [("a", 1u64), ("b", 2u64)] {
        s.begin_run(0, 0);
        s.sleep();
        assert_eq!(s.end_run(named(name, entry), Ok(()), true), RunStatus::Sleep);
    }
    assert_eq!(s.awaken().unwrap().name, "a");
    assert_eq!(s.awaken().unwrap().name, "b");
    assert_eq!(s.awaken().err(), Some(ThreadError::SleepQueueEmpty));
    assert_eq!(ThreadError::SleepQueueEmpty.message(), "Sleep queue is empty");
}

#[test]
fn freed_yield_slot_is_reused() {
    let mut s: TestSession = Session::new(false);
    s.begin_run(0, 0);
    assert_eq!(s.end_run(named("a", 1), Ok(()), true), RunStatus::Yield(0));
    s.begin_run(0, 0);
    assert_eq!(s.end_run(named("b", 2), Ok(()), true), RunStatus::Yield(1));
    let a = s.resume(0).unwrap();
    assert_eq!(a.name, "a");
    assert_eq!(s.threads.next_yield_index(), 0);
    s.begin_run(0, 0);
    assert_eq!(s.end_run(a, Ok(()), true), RunStatus::Yield(0));
    assert_eq!(s.threads.yields.len(), 2);
}

#[test]
fn status_words() {
    assert_eq!(RunStatus::Finished.status_text(), "finished");
    assert_eq!(RunStatus::Yield(3).status_text(), "yield");
    assert_eq!(RunStatus::Sleep.status_text(), "sleep");
    assert_eq!(RunStatus::Error("x".to_string()).status_text(), "error");
}

#[test]
fn resume_errors_by_index() {
    let mut s: TestSession = Session::new(false);
    assert_eq!(s.resume(0).err(), Some(ThreadError::NoYieldedThread(0)));
    assert_eq!(s.resume(7).err(), Some(ThreadError::NoYieldedThread(7)));
    s.begin_run(0, 0);
    s.end_run(named("a", 1), Ok(()), true);
    s.resume(0).unwrap();
    assert_eq!(s.resume(0).err(), Some(ThreadError::NoYieldedThread(0)));
    assert_eq!(ThreadError::NoYieldedThread(0).message(), "No yielded thread at index 0");
    assert_eq!(ThreadError::OutOfBounds.message(), "Index out of bounds");
}

#[test]
fn finished_and_failed_runs_release_main_chunks() {
    let mut s: TestSession = Session::new(false);
    s.insert_main_chunk(7);
    s.insert_main_chunk(8);
    s.begin_run(0, 0);
    assert_eq!(s.end_run(named("input", 7), Ok(()), false), RunStatus::Finished);
    assert!(!s.is_main_chunk(7));
    s.begin_run(0, 0);
    assert_eq!(
        s.end_run(named("input", 8), Err("boom".to_string()), false),
        RunStatus::Error("boom".to_string())
    );
    assert!(!s.is_main_chunk(8));
    assert_eq!(s.limiter.call_depth, 0);
    assert!(s.limiter.start.is_none());
}

#[test]
fn killing_threads_releases_their_chunks() {
    let mut s: TestSession = Session::new(false);
    s.insert_main_chunk(1);
    s.insert_main_chunk(2);
    s.begin_run(0, 0);
    s.end_run(named("a", 1), Ok(()), true);
    s.begin_run(0, 0);
    s.sleep();
    s.end_run(named("b", 2), Ok(()), true);
    assert!(s.kill_yielded_thread(0).is_ok());
    assert!(!s.is_main_chunk(1));
    assert!(s.kill_sleeping_thread(0).is_ok());
    assert!(!s.is_main_chunk(2));
    assert_eq!(s.kill_sleeping_thread(0).err(), Some(ThreadError::OutOfBounds));
}

#[test]
fn listing_shows_live_threads() {
    let mut t: Threads<u32> = Threads::new();
    t.push_yielded_thread(named("a", 1), false);
    t.push_yielded_thread(named("b", 2), false);
    t.push_yielded_thread(named("c", 3), true);
    t.get_yielded_thread(0).unwrap();
    let l = t.list_threads();
    assert_eq!(l.yields.len(), 1);
    assert_eq!((l.yields[0].index, l.yields[0].name.as_str()), (1, "b"));
    assert_eq!((l.sleeps[0].index, l.sleeps[0].name.as_str()), (0, "c"));
}

#[test]
fn nuking_main_chunks_forgets_waiting_entries() {
    let mut s: TestSession = Session::new(true);
    assert!(s.is_isolated());
    s.insert_main_chunk(1);
    s.insert_main_chunk(9);
    s.begin_run(0, 0);
    s.end_run(named("a", 1), Ok(()), true);
    s.nuke_main_chunks();
    assert!(!s.is_main_chunk(1));
    assert!(s.is_main_chunk(9));
}

#[test]
fn sleep_flag_is_taken_once() {
    let mut s: TestSession = Session::new(false);
    assert!(!s.take_sleep_flag());
    s.sleep();
    assert!(s.take_sleep_flag());
    assert!(!s.take_sleep_flag());
    s.insert_main_chunk(4);
    s.remove_main_chunk(4);
    assert!(!s.is_main_chunk(4));
}

#[test]
fn traceback_depths() {
    let mut s: TestSession = Session::new(false);
    assert_eq!(s.traceback_index(1), None);
    s.begin_run(10, 0);
    s.begin_run(20, 0);
    assert_eq!(s.traceback_index(0), None);
    assert_eq!(s.traceback_index(1), Some(1));
    assert_eq!(s.traceback_index(2), Some(0));
    assert_eq!(s.traceback_index(3), None);
}

#[test]
fn budget_of_fifty_millis() {
    let mut l = ExecLimit::new();
    assert_eq!(l.get_execution_limit(), Some(100_000_000));
    l.set_execution_limit_millis(50);
    l.increment_call_depth(1_000);
    assert!(l.limiting_interrupt(1_000 + 49_000_000).is_ok());
    assert!(l.limiting_interrupt(1_000 + 50_000_000).is_ok());
    assert_eq!(l.limiting_interrupt(1_000 + 50_000_001), Err(LimitError::LimitReached));
    assert_eq!(
        LimitError::LimitReached.message(),
        "execution limit reached - call sleep or coroutine.yield before this point"
    );
    assert_eq!(l.get_execution_time(1_000 + 60_000_000), Some(60));
    l.set_privileged_execution(true);
    assert!(l.limiting_interrupt(1_000 + 90_000_000).is_ok());
    l.set_privileged_execution(false);
    l.decrement_call_depth();
    assert!(l.limiting_interrupt(1_000 + 90_000_000).is_ok());
    assert_eq!(l.get_execution_time(5), None);
}

#[test]
fn sleeping_before_the_budget_is_no_error() {
    let mut s: TestSession = Session::new(false);
    s.limiter.set_execution_limit_millis(50);
    s.begin_run(0, 0);
    assert!(s.limiter.limiting_interrupt(10_000_000).is_ok());
    s.sleep();
    assert_eq!(s.end_run(named("a", 1), Ok(()), true), RunStatus::Sleep);
}

#[test]
fn nested_runs_keep_the_outer_start() {
    let mut l = ExecLimit::new();
    l.increment_call_depth(5);
    l.increment_call_depth(9);
    assert_eq!(l.start, Some(5));
    l.decrement_call_depth();
    assert_eq!(l.start, Some(5));
    l.decrement_call_depth();
    assert_eq!(l.start, None);
    l.clear_execution_limit();
    assert_eq!(l.get_execution_limit(), None);
}

#[test]
fn killing_a_held_session_fails_until_released() {
    let mut r: Registry<u8> = Registry::new();
    let i = r.new_state(1);
    assert_eq!(i, 0);
    r.acquire(i).unwrap();
    assert_eq!(r.kill_state(i).err(), Some(RegistryError::InUse(0)));
    assert_eq!(*r.get_state(i).unwrap(), 1);
    assert_eq!(
        RegistryError::InUse(0).message(),
        "State at index 0 is still in use"
    );
    r.release(i).unwrap();
    assert_eq!(r.kill_state(i).ok(), Some(1));
    assert_eq!(r.get_state(i).err(), Some(RegistryError::NoState(0)));
    assert_eq!(RegistryError::NoState(0).message(), "No state at index 0");
}

#[test]
fn sessions_take_the_lowest_free_slot() {
    let mut r: Registry<u8> = Registry::new();
    assert_eq!(r.new_state(1), 0);
    assert_eq!(r.new_state(2), 1);
    assert_eq!(r.new_state(3), 2);
    r.kill_state(1).unwrap();
    assert_eq!(r.new_state(4), 1);
    assert_eq!(r.new_state(5), 3);
    assert_eq!(r.kill_state(9).err(), Some(RegistryError::NoState(9)));
}

#[test]
fn one_handle_per_host_object() {
    let mut c: UserdataCache<u64> = UserdataCache::new();
    let a = HostValue { tag: 0x21, data: 17 };
    let same = HostValue { tag: 0x21, data: 17 };
    assert!(c.get(&a).is_none());
    c.insert(&a, 1000);
    assert_eq!(c.get(&same), Some(&1000));
    assert_eq!(c.drop_cached_userdata(&same), Some(1000));
    assert!(c.get(&a).is_none());
    c.insert(&a, 1001);
    assert_eq!(c.get(&same), Some(&1001));
}

#[test]
fn usr_seen_by_nested_runs() {
    let mut u = UsrStack::new();
    let mob = HostValue { tag: 0x03, data: 4 };
    u.set_usr(mob);
    u.push_usr();
    assert_eq!(u.peek_usr(), Some(mob));
    u.push_usr();
    assert_eq!(u.peek_usr(), Some(mob));
    u.pop_usr();
    u.pop_usr();
    assert_eq!(u.peek_usr(), None);
}

#[test]
fn function_path_errors() {
    assert!(check_path_element(1, 2, true, false, "table").is_ok());
    assert!(check_path_element(2, 2, false, true, "function").is_ok());
    assert_eq!(
        check_path_element(1, 2, false, false, "nil").unwrap_err(),
        "invalid function path element at index 1: expected table, got nil"
    );
    assert_eq!(
        check_path_element(3, 3, true, false, "table").unwrap_err(),
        "invalid function path element at index 3: expected function, got table"
    );
}
