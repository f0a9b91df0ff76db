use wasi_threads::ids::{WasiProcessId, WasiThreadId};
use wasi_threads::plane::WasiControlPlane;
use wasi_threads::process::{JoinError, WasiProcess};
use wasi_threads::stack::ThreadStack;
use wasi_threads::thread::{Subscribe, WasiThread};

const SIGINT: u8 = 1;
const SIGTERM: u8 = 14;

fn fresh_thread() -> WasiThread {
    WasiThread::new(WasiProcessId(1), WasiThreadId(0), false, None)
}

#[test]
fn thread_id_raw_and_inc() {
    let mut seed = WasiThreadId::default();
    assert_eq!(seed.raw(), 0);
    let first = seed.inc();
    let second = seed.inc();
    assert_eq!(first, WasiThreadId(0));
    assert_eq!(second, WasiThreadId(1));
    assert_eq!(seed.raw(), 2);
}

#[test]
fn ids_convert_through_signed_values() {
    assert_eq!(WasiThreadId::from_i32(-1).raw(), u32::MAX);
    assert_eq!(WasiThreadId(u32::MAX).to_i32(), -1);
    assert_eq!(WasiProcessId::from_i32(7).raw(), 7);
    assert_eq!(WasiProcessId(u32::MAX).to_i32(), -1);
    assert_eq!(WasiProcessId::from(9u32), WasiProcessId(9));
    assert_eq!(WasiThreadId::from(4u32).raw(), 4);
}

#[test]
fn main_thread_exit_propagates_to_process() {
    let mut p = WasiProcess::new(WasiProcessId(3), WasiProcessId(0));
    let t0 = p.new_thread();
    assert!(p.get_thread(t0.id()).unwrap().is_main());
    assert_eq!(p.try_join(), None);
    p.terminate_thread(t0.id(), 7);
    assert_eq!(p.try_join(), Some(7));
    assert_eq!(p.get_thread(t0.id()).unwrap().try_join(), Some(7));
}

#[test]
fn handle_drop_terminates_with_zero() {
    let mut p = WasiProcess::new(WasiProcessId(3), WasiProcessId(0));
    let t0 = p.new_thread();
    assert_eq!(p.active_threads(), 1);
    p.drop_handle(t0);
    assert_eq!(p.try_join(), Some(0));
    assert_eq!(p.active_threads(), 0);
}

#[test]
fn last_handle_removes_thread() {
    let mut p = WasiProcess::new(WasiProcessId(3), WasiProcessId(0));
    let _t0 = p.new_thread();
    let t1 = p.new_thread();
    let t1b = p.clone_handle(&t1);
    let tid = t1.id();
    p.drop_handle(t1);
    assert!(p.get_thread(tid).is_some());
    assert_eq!(p.active_threads(), 2);
    p.drop_handle(t1b);
    assert!(p.get_thread(tid).is_none());
    assert_eq!(p.active_threads(), 1);
    assert_eq!(p.threads.len(), 1);
    assert_eq!(p.try_join(), None);
}

#[test]
fn only_first_thread_is_main() {
    let mut p = WasiProcess::new(WasiProcessId(3), WasiProcessId(0));
    let t0 = p.new_thread();
    let t1 = p.new_thread();
    let t2 = p.new_thread();
    assert_eq!(t0.id(), WasiThreadId(0));
    assert_eq!(t2.id(), WasiThreadId(2));
    assert!(p.get_thread(t0.id()).unwrap().is_main());
    assert!(!p.get_thread(t1.id()).unwrap().is_main());
    assert!(!p.get_thread(t2.id()).unwrap().is_main());
    assert_eq!(p.get_thread(t1.id()).unwrap().pid(), WasiProcessId(3));
    assert_eq!(p.active_threads() as usize, p.threads.len());
}

#[test]
fn terminate_sets_every_latch_once() {
    let mut p = WasiProcess::new(WasiProcessId(3), WasiProcessId(0));
    let t0 = p.new_thread();
    let t1 = p.new_thread();
    p.terminate(3);
    assert_eq!(p.get_thread(t0.id()).unwrap().try_join(), Some(3));
    assert_eq!(p.get_thread(t1.id()).unwrap().try_join(), Some(3));
    assert_eq!(p.try_join(), Some(3));
    p.terminate(5);
    assert_eq!(p.get_thread(t0.id()).unwrap().try_join(), Some(3));
    assert_eq!(p.get_thread(t1.id()).unwrap().try_join(), Some(3));
    assert_eq!(p.try_join(), Some(3));
}

#[test]
fn duplicate_signal_is_suppressed() {
    let mut t = fresh_thread();
    t.signal(SIGTERM);
    t.signal(SIGTERM);
    assert_eq!(t.pop_signals_or_subscribe(), Ok(vec![SIGTERM]));
}

#[test]
fn empty_drain_asks_to_subscribe() {
    let mut t = fresh_thread();
    assert_eq!(t.pop_signals_or_subscribe(), Err(Subscribe));
    t.signal(SIGINT);
    assert_eq!(t.pop_signals_or_subscribe(), Ok(vec![SIGINT]));
    assert_eq!(t.pop_signals_or_subscribe(), Err(Subscribe));
}

#[test]
fn signals_keep_arrival_order() {
    let mut t = fresh_thread();
    t.signal(SIGTERM);
    t.signal(SIGINT);
    t.signal(SIGTERM);
    assert_eq!(t.pop_signals_or_subscribe(), Ok(vec![SIGTERM, SIGINT]));
}

#[test]
fn signal_to_unknown_thread_is_lost() {
    let mut p = WasiProcess::new(WasiProcessId(3), WasiProcessId(0));
    let t0 = p.new_thread();
    p.signal_thread(WasiThreadId(42), SIGINT);
    p.signal_thread(t0.id(), SIGTERM);
    assert_eq!(p.get_thread(t0.id()).unwrap().signals, vec![SIGTERM]);
}

#[test]
fn snapshot_reuse_across_divergent_stacks() {
    let mut t = fresh_thread();
    t.add_snapshot(&[0xAA; 64], &[0xAA; 64], 1, &[1], &[2]);
    t.add_snapshot(&[0xBB; 64], &[0xBB; 64], 2, &[3], &[4]);
    assert_eq!(t.get_snapshot(1), None);
    assert_eq!(t.get_snapshot(2), Some((vec![0xBB; 64], vec![3], vec![4])));
}

#[test]
fn snapshot_chain_extension() {
    let a = [0xA1u8; 32];
    let mut mem = a.to_vec();
    mem.extend_from_slice(&[0xB2; 32]);
    let mut memc = a.to_vec();
    memc.extend_from_slice(&[0xC3; 32]);
    let mut t = fresh_thread();
    t.add_snapshot(&a, &a, 1, &[10], &[11]);
    t.add_snapshot(&mem, &memc, 2, &[20], &[21]);
    assert_eq!(t.get_snapshot(1), Some((a.to_vec(), vec![10], vec![11])));
    assert_eq!(t.get_snapshot(2), Some((memc.clone(), vec![20], vec![21])));
    assert_eq!(t.stack.segments.len(), 2);
}

#[test]
fn snapshot_same_prefix_shares_segment() {
    let mut s = ThreadStack::new();
    s.add_snapshot(&[5, 6, 7], &[8, 9, 10], 1, &[1], &[1]);
    s.add_snapshot(&[5, 6, 7], &[8, 9, 10], 2, &[2], &[2]);
    assert_eq!(s.segments.len(), 1);
    assert_eq!(s.get_snapshot(1), Some((vec![8, 9, 10], vec![1], vec![1])));
    assert_eq!(s.get_snapshot(2), Some((vec![8, 9, 10], vec![2], vec![2])));
    assert_eq!(s.get_snapshot(3), None);
}

#[test]
fn snapshot_shorter_stack_invalidates() {
    let mut s = ThreadStack::new();
    s.add_snapshot(&[1, 2, 3, 4], &[1, 2, 3, 4], 1, &[1], &[1]);
    s.add_snapshot(&[1, 2], &[1, 2], 2, &[2], &[2]);
    assert_eq!(s.get_snapshot(1), None);
    assert_eq!(s.get_snapshot(2), Some((vec![1, 2], vec![2], vec![2])));
}

#[test]
fn copy_stack_takes_other_chain() {
    let mut a = fresh_thread();
    a.add_snapshot(&[1, 2], &[3, 4], 9, &[5], &[6]);
    let mut b = fresh_thread();
    b.copy_stack_from(&a);
    assert_eq!(b.get_snapshot(9), Some((vec![3, 4], vec![5], vec![6])));
}

#[test]
fn reserve_pid_never_repeats() {
    let mut plane = WasiControlPlane::new();
    let a = plane.reserve_pid().unwrap();
    let b = plane.reserve_pid().unwrap();
    assert_ne!(a, b);
    let c = plane.new_process().unwrap();
    assert_ne!(c, a);
    assert_ne!(c, b);
    assert_eq!(plane.get_process(c).unwrap().pid(), c);
    assert_eq!(plane.get_process(c).unwrap().ppid(), WasiProcessId(0));
    assert!(plane.get_process(a).is_none());
}

#[test]
fn reserve_pid_skips_live_ids() {
    let mut plane = WasiControlPlane::new();
    let p = plane.new_process().unwrap();
    assert_eq!(p, WasiProcessId(0));
    plane.process_seed = 0;
    let q = plane.reserve_pid().unwrap();
    assert_eq!(q, WasiProcessId(1));
}

fn plane_with_child() -> (WasiControlPlane, WasiProcessId, WasiProcessId) {
    let mut plane = WasiControlPlane::new();
    let p = plane.new_process().unwrap();
    let c = plane.new_process().unwrap();
    let mut parent = plane.take_process(p).unwrap();
    parent.new_thread();
    parent.add_child(c);
    plane.restore_process(parent);
    let mut child = plane.take_process(c).unwrap();
    child.new_thread();
    plane.restore_process(child);
    (plane, p, c)
}

#[test]
fn signal_routes_to_children_while_waiting() {
    let (mut plane, p, c) = plane_with_child();
    let mut parent = plane.take_process(p).unwrap();
    parent.begin_wait();
    plane.restore_process(parent);
    plane.signal_process(p, SIGINT);
    assert_eq!(plane.get_process(c).unwrap().threads[0].signals, vec![SIGINT]);
    assert!(plane.get_process(p).unwrap().threads[0].signals.is_empty());
}

#[test]
fn signal_stays_with_process_when_nobody_waits() {
    let (mut plane, p, c) = plane_with_child();
    plane.signal_process(p, SIGINT);
    plane.signal_process(p, SIGINT);
    assert_eq!(plane.get_process(p).unwrap().threads[0].signals, vec![SIGINT]);
    assert!(plane.get_process(c).unwrap().threads[0].signals.is_empty());
}

#[test]
fn wait_counter_goes_back_down() {
    let (mut plane, p, _c) = plane_with_child();
    let mut parent = plane.take_process(p).unwrap();
    parent.begin_wait();
    parent.end_wait();
    plane.restore_process(parent);
    plane.signal_process(p, SIGTERM);
    assert_eq!(plane.get_process(p).unwrap().threads[0].signals, vec![SIGTERM]);
}

#[test]
fn unknown_signal_code_is_dropped() {
    let (mut plane, p, _c) = plane_with_child();
    plane.signal_process_code(p, 200);
    assert!(plane.get_process(p).unwrap().threads[0].signals.is_empty());
    plane.signal_process_code(p, 2);
    assert_eq!(plane.get_process(p).unwrap().threads[0].signals, vec![2]);
}

#[test]
fn join_any_child_returns_exited_child() {
    let mut plane = WasiControlPlane::new();
    let p = plane.new_process().unwrap();
    let c1 = plane.new_process().unwrap();
    let c2 = plane.new_process().unwrap();
    let mut parent = plane.take_process(p).unwrap();
    parent.add_child(c1);
    parent.add_child(c2);
    plane.restore_process(parent);
    for c in [c1, c2] {
        let mut child = plane.take_process(c).unwrap();
        child.new_thread();
        plane.restore_process(child);
    }
    assert_eq!(plane.join_any_child(p), Ok(None));
    let mut child = plane.take_process(c2).unwrap();
    child.terminate(9);
    plane.restore_process(child);
    assert_eq!(plane.join_any_child(p), Ok(Some((c2, 9))));
    assert_eq!(plane.get_process(p).unwrap().children, vec![c1]);
}

#[test]
fn join_any_child_without_children_fails() {
    let mut plane = WasiControlPlane::new();
    let p = plane.new_process().unwrap();
    assert_eq!(plane.join_any_child(p), Err(JoinError::NoChildren));
}

#[test]
fn join_children_waits_for_all() {
    let (mut plane, p, c) = plane_with_child();
    assert_eq!(plane.join_children(p), None);
    let mut child = plane.take_process(c).unwrap();
    child.terminate(4);
    plane.restore_process(child);
    assert_eq!(plane.join_children(p), Some(Some(4)));
    assert!(plane.get_process(p).unwrap().children.is_empty());
    assert_eq!(plane.join_children(p), Some(None));
}

#[test]
fn signal_interval_set_and_cleared() {
    let mut p = WasiProcess::new(WasiProcessId(3), WasiProcessId(0));
    p.signal_interval(SIGTERM, Some(1_000_000), true, 55);
    let iv = p.signal_intervals.get(&SIGTERM).unwrap();
    assert_eq!(iv.interval, 1_000_000);
    assert!(iv.repeat);
    assert_eq!(iv.last_signal, 55);
    p.signal_interval(SIGTERM, None, false, 60);
    assert!(p.signal_intervals.get(&SIGTERM).is_none());
}
