use std::collections::HashMap;
use crate::ids::{WasiProcessId, WasiThreadId};
use crate::stack::{add_at, ThreadStack};
use crate::thread::{latched, with_signal, Subscribe, WasiThread};
use vstd::prelude::*;

verus! {

broadcast use vstd::std_specs::hash::group_hash_axioms;

/// A signal raised on a process at a fixed period.
pub struct WasiSignalInterval {
    /// Signal that is raised.
    pub signal: u8,
    /// Time between two raises, in nanoseconds.
    pub interval: u128,
    /// Whether the signal is raised more than once.
    pub repeat: bool,
    /// Monotonic time of the last raise, in nanoseconds.
    pub last_signal: u128,
}

/// A participation token for one thread of a process. The thread leaves its
/// process when the last token for it is released (`WasiProcess::drop_handle`).
pub struct WasiThreadHandle {
    pub pid: WasiProcessId,
    pub id: WasiThreadId,
}

impl WasiThreadHandle {
    /// The thread this handle stands for.
    pub fn id(&self) -> (r: WasiThreadId)
        ensures
            r == self.id,
    {
        self.id
    }
}

/// A guest process: its threads, children, exit latch and signal bookkeeping.
pub struct WasiProcess {
    pub pid: WasiProcessId,
    pub ppid: WasiProcessId,
    /// The registered threads, each identifier once.
    pub threads: Vec<WasiThread>,
    /// `handles[j]` is the number of live handles of `threads[j]`.
    pub handles: Vec<u32>,
    pub thread_count: u32,
    pub thread_seed: WasiThreadId,
    pub signal_intervals: HashMap<u8, WasiSignalInterval>,
    /// The exit latch of the process, shared with its main thread.
    pub finished: Option<u32>,
    pub children: Vec<WasiProcessId>,
    /// Number of callers suspended waiting on this process or its children.
    pub waiting: u32,
}

/// A thread that has just been created.
pub open spec fn is_new_thread(
    t: WasiThread,
    pid: WasiProcessId,
    id: WasiThreadId,
    is_main: bool,
    finished: Option<u32>,
) -> bool {
    &&& t.wf()
    &&& t.pid == pid
    &&& t.id == id
    &&& t.is_main == is_main
    &&& t.finished == finished
    &&& t.signals@.len() == 0
    &&& t.stack@ == ThreadStack::new_view()
}

/// `t` is `o` after `terminate(code)`.
pub open spec fn terminated(o: WasiThread, t: WasiThread, code: u32) -> bool {
    &&& t.finished == latched(o.finished, code)
    &&& t.signals == o.signals
    &&& t.stack == o.stack
    &&& t.pid == o.pid
    &&& t.id == o.id
    &&& t.is_main == o.is_main
}

/// `t` is `o` after `signal(sig)`.
pub open spec fn signalled(o: WasiThread, t: WasiThread, sig: u8) -> bool {
    &&& t.signals@ == with_signal(o.signals@, sig)
    &&& t.finished == o.finished
    &&& t.stack == o.stack
    &&& t.pid == o.pid
    &&& t.id == o.id
    &&& t.is_main == o.is_main
}

/// The latch after writing `code` to it.
pub fn latched_exec(o: Option<u32>, code: u32) -> (r: Option<u32>)
    ensures
        r == latched(o, code),
{
    match o {
        Some(c) => Some(c),
        None => Some(code),
    }
}

/// `n` is `o` after the handle `h` was released.
pub open spec fn handle_dropped(o: WasiProcess, n: WasiProcess, h: WasiThreadHandle) -> bool {
    &&& {
        let j = o.index_of(h.id);
        if o.handles@[j] > 1 {
            &&& n.threads == o.threads
            &&& n.handles@ == o.handles@.update(j, (o.handles@[j] - 1) as u32)
            &&& n.thread_count == o.thread_count
            &&& n.finished == o.finished
        } else {
            &&& !n.has_thread(h.id)
            &&& n.threads@ == o.threads@.remove(j)
            &&& n.handles@ == o.handles@.remove(j)
            &&& n.thread_count == o.thread_count - 1
            &&& n.finished == if o.threads@[j].is_main {
                latched(o.finished, 0)
            } else {
                o.finished
            }
        }
    }
    &&& n.thread_seed == o.thread_seed
    &&& n.pid == o.pid
    &&& n.ppid == o.ppid
    &&& n.children == o.children
    &&& n.waiting == o.waiting
    &&& n.signal_intervals@ == o.signal_intervals@
}

/// `n` is `o` after `new_thread` returned `h`.
pub open spec fn thread_added(o: WasiProcess, n: WasiProcess, h: WasiThreadHandle) -> bool {
    &&& h.pid == o.pid
    &&& h.id == o.thread_seed
    &&& n.thread_seed.0 == o.thread_seed.0 + 1
    &&& n.thread_count == o.thread_count + 1
    &&& n.threads@.len() == o.threads@.len() + 1
    &&& n.threads@.take(o.threads@.len() as int) == o.threads@
    &&& is_new_thread(
        n.threads@.last(),
        o.pid,
        o.thread_seed,
        o.thread_count == 0,
        if o.thread_count == 0 {
            o.finished
        } else {
            None
        },
    )
    &&& n.handles@ == o.handles@.push(1)
    &&& n.finished == o.finished
    &&& n.pid == o.pid
    &&& n.ppid == o.ppid
    &&& n.children == o.children
    &&& n.waiting == o.waiting
    &&& n.signal_intervals@ == o.signal_intervals@
}

/// `n` is `o` after `terminate(code)`.
pub open spec fn all_terminated(o: WasiProcess, n: WasiProcess, code: u32) -> bool {
    &&& n.threads@.len() == o.threads@.len()
    &&& forall|j: int|
        0 <= j < o.threads@.len() ==> terminated(#[trigger] o.threads@[j], n.threads@[j], code)
    &&& n.finished == if o.has_main() {
        latched(o.finished, code)
    } else {
        o.finished
    }
    &&& n.same_bookkeeping(o)
}

/// A thread whose only handle is released right after it was created is no
/// longer registered, and the thread count is back where it was.
pub proof fn lemma_new_then_drop(initial: WasiProcess, middle: WasiProcess, last: WasiProcess, h: WasiThreadHandle)
    requires
        initial.wf(),
        middle.wf(),
        thread_added(initial, middle, h),
        handle_dropped(middle, last, h),
    ensures
        !last.has_thread(h.id),
        last.thread_count == middle.thread_count - 1,
        last.thread_count == initial.thread_count,
{
    let j = initial.threads@.len() as int;
    assert(middle.threads@[j] == middle.threads@.last());
    middle.lemma_index_of(j);
    assert(middle.handles@[j] == 1);
}

/// After a process is terminated every thread has an exit code, and a second
/// termination, with any code, changes no latch.
pub proof fn lemma_terminate_twice(
    initial: WasiProcess,
    middle: WasiProcess,
    last: WasiProcess,
    c1: u32,
    c2: u32,
)
    requires
        initial.wf(),
        all_terminated(initial, middle, c1),
        all_terminated(middle, last, c2),
    ensures
        forall|j: int| 0 <= j < middle.threads@.len() ==> (#[trigger] middle.threads@[j]).finished is Some,
        last.threads@.len() == middle.threads@.len(),
        forall|j: int|
            0 <= j < last.threads@.len() ==> (#[trigger] last.threads@[j]).finished
                == middle.threads@[j].finished,
        last.finished == middle.finished,
{
    assert forall|j: int| 0 <= j < middle.threads@.len() implies (#[trigger] middle.threads@[j]).finished is Some by {
        assert(terminated(initial.threads@[j], middle.threads@[j], c1));
    }
    assert forall|j: int| 0 <= j < last.threads@.len() implies (#[trigger] last.threads@[j]).finished
        == middle.threads@[j].finished by {
        assert(terminated(middle.threads@[j], last.threads@[j], c2));
    }
    if middle.has_main() {
        let k = choose|k: int| 0 <= k < middle.threads@.len() && middle.threads@[k].is_main;
        assert(terminated(initial.threads@[k], middle.threads@[k], c1));
        assert(initial.has_main());
    }
    if initial.has_main() {
        let k = choose|k: int| 0 <= k < initial.threads@.len() && initial.threads@[k].is_main;
        assert(terminated(initial.threads@[k], middle.threads@[k], c1));
        assert(middle.has_main());
    }
}

/// Error of a wait on any child when the process has none.
#[derive(Debug, Clone, Copy, PartialEq, Eq, Structural)]
pub enum JoinError {
    NoChildren,
}

impl WasiProcess {
    /// The thread table is consistent: one entry per identifier, a handle
    /// count for each, a count that matches, fresh identifiers still ahead of
    /// the seed, at most one main thread, and the main thread sharing the
    /// process's exit latch.
    pub open spec fn wf(&self) -> bool {
        &&& self.threads@.len() == self.handles@.len()
        &&& self.thread_count == self.threads@.len()
        &&& forall|j: int|
            0 <= j < self.threads@.len() ==> {
                &&& (#[trigger] self.threads@[j]).wf()
                &&& self.threads@[j].pid == self.pid
                &&& self.threads@[j].id.0 < self.thread_seed.0
                &&& self.handles@[j] >= 1
                &&& self.threads@[j].is_main ==> self.threads@[j].finished == self.finished
            }
        &&& forall|j: int, k: int|
            0 <= j < self.threads@.len() && 0 <= k < self.threads@.len() && j != k ==> {
                &&& (#[trigger] self.threads@[j]).id != (#[trigger] self.threads@[k]).id
                &&& !(self.threads@[j].is_main && self.threads@[k].is_main)
            }
    }

    /// The process has a thread with identifier `tid`.
    pub open spec fn has_thread(&self, tid: WasiThreadId) -> bool {
        exists|j: int| 0 <= j < self.threads@.len() && self.threads@[j].id == tid
    }

    /// A process with no threads, no children and an unset exit latch.
    pub fn new(pid: WasiProcessId, ppid: WasiProcessId) -> (r: WasiProcess)
        ensures
            r.wf(),
            r.pid == pid,
            r.ppid == ppid,
            r.threads@.len() == 0,
            r.thread_seed.0 == 0,
            r.signal_intervals@.is_empty(),
            r.finished is None,
            r.children@.len() == 0,
            r.waiting == 0,
    {
        WasiProcess {
            pid,
            ppid,
            threads: Vec::new(),
            handles: Vec::new(),
            thread_count: 0,
            thread_seed: WasiThreadId(0),
            signal_intervals: HashMap::new(),
            finished: None,
            children: Vec::new(),
            waiting: 0,
        }
    }

    /// The process identifier.
    pub fn pid(&self) -> (r: WasiProcessId)
        ensures
            r == self.pid,
    {
        self.pid
    }

    /// The parent's process identifier.
    pub fn ppid(&self) -> (r: WasiProcessId)
        ensures
            r == self.ppid,
    {
        self.ppid
    }

    /// The number of registered threads.
    pub fn active_threads(&self) -> (r: u32)
        ensures
            r == self.thread_count,
    {
        self.thread_count
    }

    /// The exit code of the process, once its main thread has exited.
    pub fn try_join(&self) -> (r: Option<u32>)
        ensures
            r == self.finished,
    {
        self.finished
    }

    /// The index of the thread with identifier `tid`, if any.
    fn find_thread(&self, tid: WasiThreadId) -> (r: Option<usize>)
        ensures
            match r {
                Some(j) => j < self.threads@.len() && self.threads@[j as int].id == tid,
                None => !self.has_thread(tid),
            },
    {
        let mut j: usize = 0;
        while j < self.threads.len()
            invariant
                j <= self.threads@.len(),
                forall|k: int| 0 <= k < j ==> self.threads@[k].id != tid,
            decreases self.threads.len() - j,
        {
            if self.threads[j].id == tid {
                return Some(j);
            }
            j = j + 1;
        }
        None
    }

    /// The thread with identifier `tid`, if it is registered.
    pub fn get_thread(&self, tid: WasiThreadId) -> (r: Option<&WasiThread>)
        ensures
            match r {
                Some(t) => exists|j: int|
                    0 <= j < self.threads@.len() && self.threads@[j] == *t && t.id == tid,
                None => !self.has_thread(tid),
            },
    {
        match self.find_thread(tid) {
            Some(j) => Some(&self.threads[j]),
            None => None,
        }
    }

    /// Registers a new thread under the next identifier of the seed and returns
    /// its first handle. The thread is the main thread when no other thread is
    /// registered; a main thread carries the process's exit latch.
    pub fn new_thread(&mut self) -> (r: WasiThreadHandle)
        requires
            old(self).wf(),
            old(self).thread_seed.0 < u32::MAX,
            old(self).thread_count < u32::MAX,
        ensures
            final(self).wf(),
            thread_added(*old(self), *final(self), r),
    {
        let id = self.thread_seed.inc();
        let is_main = self.thread_count == 0;
        let finished = if is_main {
            self.finished
        } else {
            None
        };
        let ctrl = WasiThread::new(self.pid, id, is_main, finished);
        let ghost before = self.threads@;
        self.threads.push(ctrl);
        self.handles.push(1);
        self.thread_count = self.thread_count + 1;
        assert(self.threads@.take(before.len() as int) =~= before);
        assert forall|j: int, k: int|
            0 <= j < self.threads@.len() && 0 <= k < self.threads@.len() && j != k implies {
            &&& (#[trigger] self.threads@[j]).id != (#[trigger] self.threads@[k]).id
            &&& !(self.threads@[j].is_main && self.threads@[k].is_main)
        } by {
            if j < before.len() && k < before.len() {
                assert(self.threads@[j] == before[j]);
                assert(self.threads@[k] == before[k]);
            } else if j < before.len() {
                assert(self.threads@[j] == before[j]);
            } else {
                assert(self.threads@[k] == before[k]);
            }
        }
        WasiThreadHandle { pid: self.pid, id }
    }

    /// Some registered thread is the main thread.
    pub open spec fn has_main(&self) -> bool {
        exists|j: int| 0 <= j < self.threads@.len() && self.threads@[j].is_main
    }

    /// The position of the thread with identifier `tid` in the table.
    pub open spec fn index_of(&self, tid: WasiThreadId) -> int {
        choose|j: int| 0 <= j < self.threads@.len() && self.threads@[j].id == tid
    }

    proof fn lemma_index_of(&self, j: int)
        requires
            self.wf(),
            0 <= j < self.threads@.len(),
        ensures
            self.index_of(self.threads@[j].id) == j,
    {
        let k = self.index_of(self.threads@[j].id);
        assert(0 <= k < self.threads@.len() && self.threads@[k].id == self.threads@[j].id);
        if k != j {
            assert(self.threads@[k].id != self.threads@[j].id);
        }
    }

    /// Everything but the thread table and the exit latch is as in `o`.
    pub open spec fn same_bookkeeping(&self, o: WasiProcess) -> bool {
        &&& self.handles == o.handles
        &&& self.thread_count == o.thread_count
        &&& self.thread_seed == o.thread_seed
        &&& self.pid == o.pid
        &&& self.ppid == o.ppid
        &&& self.children == o.children
        &&& self.waiting == o.waiting
        &&& self.signal_intervals@ == o.signal_intervals@
    }

    proof fn lemma_wf_after_update(o: WasiProcess, n: WasiProcess)
        requires
            o.wf(),
            n.same_bookkeeping(o),
            n.threads@.len() == o.threads@.len(),
            forall|k: int|
                0 <= k < n.threads@.len() ==> {
                    &&& (#[trigger] n.threads@[k]).id == o.threads@[k].id
                    &&& n.threads@[k].is_main == o.threads@[k].is_main
                    &&& n.threads@[k].pid == o.threads@[k].pid
                    &&& n.threads@[k].wf()
                    &&& n.threads@[k].is_main ==> n.threads@[k].finished == n.finished
                },
        ensures
            n.wf(),
    {
        assert forall|a: int, b: int|
            0 <= a < n.threads@.len() && 0 <= b < n.threads@.len() && a != b implies {
            &&& (#[trigger] n.threads@[a]).id != (#[trigger] n.threads@[b]).id
            &&& !(n.threads@[a].is_main && n.threads@[b].is_main)
        } by {
            assert(o.threads@[a].id != o.threads@[b].id);
        }
        assert forall|k: int| 0 <= k < n.threads@.len() implies {
            &&& (#[trigger] n.threads@[k]).wf()
            &&& n.threads@[k].pid == n.pid
            &&& n.threads@[k].id.0 < n.thread_seed.0
            &&& n.handles@[k] >= 1
            &&& n.threads@[k].is_main ==> n.threads@[k].finished == n.finished
        } by {
            assert(o.threads@[k].id.0 < o.thread_seed.0);
        }
    }

    /// Marks the thread `tid` as exited with `exit_code`, unless it has exited
    /// already; for the main thread the process's latch is written with it.
    /// An unknown `tid` changes nothing.
    pub fn terminate_thread(&mut self, tid: WasiThreadId, exit_code: u32)
        requires
            old(self).wf(),
        ensures
            final(self).wf(),
            final(self).same_bookkeeping(*old(self)),
            final(self).threads@.len() == old(self).threads@.len(),
            forall|j: int|
                0 <= j < old(self).threads@.len() ==> if old(self).threads@[j].id == tid {
                    terminated(#[trigger] old(self).threads@[j], final(self).threads@[j], exit_code)
                } else {
                    final(self).threads@[j] == old(self).threads@[j]
                },
            final(self).finished == if old(self).has_thread(tid) && old(self).threads@[old(
                self,
            ).index_of(tid)].is_main {
                latched(old(self).finished, exit_code)
            } else {
                old(self).finished
            },
    {
        match self.find_thread(tid) {
            Some(j) => {
                proof {
                    self.lemma_index_of(j as int);
                }
                let mut t = self.threads.remove(j);
                let main = t.is_main;
                t.terminate(exit_code);
                self.threads.insert(j, t);
                if main {
                    self.finished = latched_exec(self.finished, exit_code);
                }
                proof {
                    assert forall|k: int| 0 <= k < old(self).threads@.len() && k != j implies old(
                        self,
                    ).threads@[k].id != tid by {}
                    Self::lemma_wf_after_update(*old(self), *self);
                }
            },
            None => {},
        }
    }

    /// Delivers `signal` to the thread `tid`; a signal for an unknown thread is lost.
    pub fn signal_thread(&mut self, tid: WasiThreadId, signal: u8)
        requires
            old(self).wf(),
        ensures
            final(self).wf(),
            final(self).same_bookkeeping(*old(self)),
            final(self).finished == old(self).finished,
            final(self).threads@.len() == old(self).threads@.len(),
            forall|j: int|
                0 <= j < old(self).threads@.len() ==> if old(self).threads@[j].id == tid {
                    signalled(#[trigger] old(self).threads@[j], final(self).threads@[j], signal)
                } else {
                    final(self).threads@[j] == old(self).threads@[j]
                },
    {
        match self.find_thread(tid) {
            Some(j) => {
                let mut t = self.threads.remove(j);
                t.signal(signal);
                self.threads.insert(j, t);
                proof {
                    assert forall|k: int| 0 <= k < old(self).threads@.len() && k != j implies old(
                        self,
                    ).threads@[k].id != tid by {}
                    Self::lemma_wf_after_update(*old(self), *self);
                }
            },
            None => {},
        }
    }

    /// Drains the pending signals of thread `tid` (see
    /// `WasiThread::pop_signals_or_subscribe`); `None` for an unknown thread.
    pub fn pop_thread_signals(&mut self, tid: WasiThreadId) -> (r: Option<Result<Vec<u8>, Subscribe>>)
        requires
            old(self).wf(),
        ensures
            final(self).wf(),
            final(self).same_bookkeeping(*old(self)),
            final(self).finished == old(self).finished,
            final(self).threads@.len() == old(self).threads@.len(),
            r is None <==> !old(self).has_thread(tid),
            forall|j: int|
                0 <= j < old(self).threads@.len() ==> if old(self).threads@[j].id == tid {
                    let o = #[trigger] old(self).threads@[j];
                    let n = final(self).threads@[j];
                    &&& n.finished == o.finished && n.stack == o.stack && n.pid == o.pid
                    &&& n.id == o.id && n.is_main == o.is_main
                    &&& o.signals@.len() == 0 ==> r is Some && r->Some_0 is Err
                        && n.signals@ == o.signals@
                    &&& o.signals@.len() > 0 ==> r is Some && r->Some_0 is Ok
                        && r->Some_0->Ok_0@ == o.signals@ && n.signals@.len() == 0
                } else {
                    final(self).threads@[j] == old(self).threads@[j]
                },
    {
        match self.find_thread(tid) {
            Some(j) => {
                let mut t = self.threads.remove(j);
                let r = t.pop_signals_or_subscribe();
                self.threads.insert(j, t);
                proof {
                    assert forall|k: int| 0 <= k < old(self).threads@.len() && k != j implies old(
                        self,
                    ).threads@[k].id != tid by {}
                    Self::lemma_wf_after_update(*old(self), *self);
                }
                Some(r)
            },
            None => None,
        }
    }

    /// Stores a stack snapshot in thread `tid` (see `ThreadStack::add_snapshot`);
    /// an unknown thread changes nothing.
    pub fn add_thread_snapshot(
        &mut self,
        tid: WasiThreadId,
        memory_stack: &[u8],
        memory_stack_corrected: &[u8],
        hash: u128,
        rewind_stack: &[u8],
        store_data: &[u8],
    )
        requires
            old(self).wf(),
        ensures
            final(self).wf(),
            final(self).same_bookkeeping(*old(self)),
            final(self).finished == old(self).finished,
            final(self).threads@.len() == old(self).threads@.len(),
            forall|j: int|
                0 <= j < old(self).threads@.len() ==> if old(self).threads@[j].id == tid {
                    let o = #[trigger] old(self).threads@[j];
                    let n = final(self).threads@[j];
                    &&& n.finished == o.finished && n.signals == o.signals && n.pid == o.pid
                    &&& n.id == o.id && n.is_main == o.is_main
                    &&& n.stack@ == add_at(
                        o.stack@,
                        0,
                        memory_stack@,
                        memory_stack_corrected@,
                        hash,
                        (rewind_stack@, store_data@),
                    )
                } else {
                    final(self).threads@[j] == old(self).threads@[j]
                },
    {
        match self.find_thread(tid) {
            Some(j) => {
                let mut t = self.threads.remove(j);
                t.add_snapshot(memory_stack, memory_stack_corrected, hash, rewind_stack, store_data);
                self.threads.insert(j, t);
                proof {
                    assert forall|k: int| 0 <= k < old(self).threads@.len() && k != j implies old(
                        self,
                    ).threads@[k].id != tid by {}
                    Self::lemma_wf_after_update(*old(self), *self);
                }
            },
            None => {},
        }
    }

    /// Delivers `signal` to every registered thread of this process.
    pub fn signal_threads(&mut self, signal: u8)
        requires
            old(self).wf(),
        ensures
            final(self).wf(),
            final(self).same_bookkeeping(*old(self)),
            final(self).finished == old(self).finished,
            final(self).threads@.len() == old(self).threads@.len(),
            forall|j: int|
                0 <= j < old(self).threads@.len() ==> signalled(
                    #[trigger] old(self).threads@[j],
                    final(self).threads@[j],
                    signal,
                ),
    {
        let mut j: usize = 0;
        while j < self.threads.len()
            invariant
                old(self).wf(),
                self.same_bookkeeping(*old(self)),
                self.finished == old(self).finished,
                self.threads@.len() == old(self).threads@.len(),
                j <= self.threads@.len(),
                forall|k: int|
                    0 <= k < j ==> signalled(
                        #[trigger] old(self).threads@[k],
                        self.threads@[k],
                        signal,
                    ),
                forall|k: int|
                    j <= k < self.threads@.len() ==> self.threads@[k] == old(self).threads@[k],
            decreases self.threads.len() - j,
        {
            let mut t = self.threads.remove(j);
            t.signal(signal);
            self.threads.insert(j, t);
            j = j + 1;
        }
        proof {
            assert forall|k: int| 0 <= k < self.threads@.len() implies {
                &&& (#[trigger] self.threads@[k]).id == old(self).threads@[k].id
                &&& self.threads@[k].is_main == old(self).threads@[k].is_main
                &&& self.threads@[k].pid == old(self).threads@[k].pid
                &&& self.threads@[k].wf()
                &&& self.threads@[k].is_main ==> self.threads@[k].finished == self.finished
            } by {
                assert(signalled(old(self).threads@[k], self.threads@[k], signal));
                assert(old(self).threads@[k].wf());
            }
            Self::lemma_wf_after_update(*old(self), *self);
        }
    }

    /// Decides where a process-wide signal goes. While some caller waits on
    /// this process's children the signal is meant for them, and their
    /// identifiers are returned with this process left as it was; otherwise
    /// every thread of this process gets it and nothing is returned.
    pub fn signal_process(&mut self, signal: u8) -> (r: Vec<WasiProcessId>)
        requires
            old(self).wf(),
        ensures
            final(self).wf(),
            old(self).waiting > 0 ==> r@ == old(self).children@ && *final(self) == *old(self),
            old(self).waiting == 0 ==> r@.len() == 0 && {
                &&& final(self).same_bookkeeping(*old(self))
                &&& final(self).finished == old(self).finished
                &&& final(self).threads@.len() == old(self).threads@.len()
                &&& forall|j: int|
                    0 <= j < old(self).threads@.len() ==> signalled(
                        #[trigger] old(self).threads@[j],
                        final(self).threads@[j],
                        signal,
                    )
            },
    {
        if self.waiting > 0 {
            let r = self.children.clone();
            assert(r@ =~= self.children@);
            return r;
        }
        self.signal_threads(signal);
        Vec::new()
    }

    /// Another handle for the thread of `h`.
    pub fn clone_handle(&mut self, h: &WasiThreadHandle) -> (r: WasiThreadHandle)
        requires
            old(self).wf(),
            old(self).has_thread(h.id),
            old(self).handles@[old(self).index_of(h.id)] < u32::MAX,
        ensures
            final(self).wf(),
            r.pid == h.pid && r.id == h.id,
            final(self).threads == old(self).threads,
            final(self).handles@ == old(self).handles@.update(
                old(self).index_of(h.id),
                (old(self).handles@[old(self).index_of(h.id)] + 1) as u32,
            ),
            final(self).finished == old(self).finished,
            final(self).thread_count == old(self).thread_count,
            final(self).thread_seed == old(self).thread_seed,
            final(self).pid == old(self).pid,
            final(self).ppid == old(self).ppid,
            final(self).children == old(self).children,
            final(self).waiting == old(self).waiting,
            final(self).signal_intervals@ == old(self).signal_intervals@,
    {
        let j = self.find_thread(h.id).unwrap();
        proof {
            self.lemma_index_of(j as int);
        }
        let n = self.handles[j];
        self.handles.set(j, n + 1);
        WasiThreadHandle { pid: h.pid, id: h.id }
    }

    /// Releases a handle. Releasing the last handle of a thread removes the
    /// thread from the table, marks it as exited with code 0 unless it has
    /// exited already (for the main thread: the process's latch), and lowers
    /// the thread count by one.
    pub fn drop_handle(&mut self, h: WasiThreadHandle)
        requires
            old(self).wf(),
            old(self).has_thread(h.id),
        ensures
            final(self).wf(),
            handle_dropped(*old(self), *final(self), h),
    {
        let j = self.find_thread(h.id).unwrap();
        proof {
            self.lemma_index_of(j as int);
        }
        let n = self.handles[j];
        if n > 1 {
            self.handles.set(j, n - 1);
            return;
        }
        let mut t = self.threads.remove(j);
        self.handles.remove(j);
        t.terminate(0);
        if t.is_main {
            self.finished = latched_exec(self.finished, 0);
        }
        self.thread_count = self.thread_count - 1;
        proof {
            let o = old(self).threads@;
            assert(self.threads@ =~= o.remove(j as int));
            assert forall|k: int| 0 <= k < self.threads@.len() implies self.threads@[k].id
                != h.id by {
                if k < j {
                    assert(self.threads@[k] == o[k]);
                    assert(o[k].id != o[j as int].id);
                } else {
                    assert(self.threads@[k] == o[k + 1]);
                    assert(o[k + 1].id != o[j as int].id);
                }
            }
            assert forall|k: int| 0 <= k < self.threads@.len() implies {
                &&& (#[trigger] self.threads@[k]).wf()
                &&& self.threads@[k].pid == self.pid
                &&& self.threads@[k].id.0 < self.thread_seed.0
                &&& self.handles@[k] >= 1
                &&& self.threads@[k].is_main ==> self.threads@[k].finished == self.finished
            } by {
                let m = if k < j { k } else { k + 1 };
                assert(self.threads@[k] == o[m]);
                assert(self.handles@[k] == old(self).handles@[m]);
                if o[m].is_main {
                    assert(!o[j as int].is_main);
                }
            }
            assert forall|a: int, b: int|
                0 <= a < self.threads@.len() && 0 <= b < self.threads@.len() && a != b implies {
                &&& (#[trigger] self.threads@[a]).id != (#[trigger] self.threads@[b]).id
                &&& !(self.threads@[a].is_main && self.threads@[b].is_main)
            } by {
                let ma = if a < j { a } else { a + 1 };
                let mb = if b < j { b } else { b + 1 };
                assert(self.threads@[a] == o[ma]);
                assert(self.threads@[b] == o[mb]);
            }
        }
    }

    /// Sets up, or with no interval takes down, the periodic raise of `signal`.
    /// `now` is the monotonic time in nanoseconds.
    pub fn signal_interval(&mut self, signal: u8, interval: Option<u128>, repeat: bool, now: u128)
        requires
            old(self).wf(),
        ensures
            final(self).wf(),
            match interval {
                None => final(self).signal_intervals@ == old(self).signal_intervals@.remove(signal),
                Some(i) => final(self).signal_intervals@ == old(self).signal_intervals@.insert(
                    signal,
                    (WasiSignalInterval { signal, interval: i, repeat, last_signal: now }),
                ),
            },
            final(self).threads == old(self).threads,
            final(self).handles == old(self).handles,
            final(self).finished == old(self).finished,
            final(self).thread_count == old(self).thread_count,
            final(self).thread_seed == old(self).thread_seed,
            final(self).pid == old(self).pid,
            final(self).ppid == old(self).ppid,
            final(self).children == old(self).children,
            final(self).waiting == old(self).waiting,
    {
        match interval {
            None => {
                self.signal_intervals.remove(&signal);
            },
            Some(i) => {
                self.signal_intervals.insert(
                    signal,
                    WasiSignalInterval { signal, interval: i, repeat, last_signal: now },
                );
            },
        }
    }

    /// Records the process `child` as a child of this one.
    pub fn add_child(&mut self, child: WasiProcessId)
        requires
            old(self).wf(),
        ensures
            final(self).wf(),
            final(self).children@ == old(self).children@.push(child),
            final(self).same_bookkeeping_but_children(*old(self)),
    {
        self.children.push(child);
    }

    /// A caller starts to wait on this process or its children.
    pub fn begin_wait(&mut self)
        requires
            old(self).wf(),
            old(self).waiting < u32::MAX,
        ensures
            final(self).wf(),
            final(self).waiting == old(self).waiting + 1,
            final(self).same_bookkeeping_but_waiting(*old(self)),
    {
        self.waiting = self.waiting + 1;
    }

    /// A caller that waited on this process or its children stops waiting.
    pub fn end_wait(&mut self)
        requires
            old(self).wf(),
            old(self).waiting > 0,
        ensures
            final(self).wf(),
            final(self).waiting == old(self).waiting - 1,
            final(self).same_bookkeeping_but_waiting(*old(self)),
    {
        self.waiting = self.waiting - 1;
    }

    /// All but the children list is as in `o`.
    pub open spec fn same_bookkeeping_but_children(&self, o: WasiProcess) -> bool {
        &&& self.threads == o.threads
        &&& self.handles == o.handles
        &&& self.finished == o.finished
        &&& self.thread_count == o.thread_count
        &&& self.thread_seed == o.thread_seed
        &&& self.pid == o.pid
        &&& self.ppid == o.ppid
        &&& self.waiting == o.waiting
        &&& self.signal_intervals@ == o.signal_intervals@
    }

    /// All but the wait counter is as in `o`.
    pub open spec fn same_bookkeeping_but_waiting(&self, o: WasiProcess) -> bool {
        &&& self.threads == o.threads
        &&& self.handles == o.handles
        &&& self.finished == o.finished
        &&& self.thread_count == o.thread_count
        &&& self.thread_seed == o.thread_seed
        &&& self.pid == o.pid
        &&& self.ppid == o.ppid
        &&& self.children == o.children
        &&& self.signal_intervals@ == o.signal_intervals@
    }

    /// Marks every registered thread as exited with `exit_code`, where it has
    /// not exited yet. The process's latch follows its main thread's.
    pub fn terminate(&mut self, exit_code: u32)
        requires
            old(self).wf(),
        ensures
            final(self).wf(),
            all_terminated(*old(self), *final(self), exit_code),
    {
        let ghost old_threads = self.threads@;
        let ghost old_finished = self.finished;
        let mut j: usize = 0;
        while j < self.threads.len()
            invariant
                self.threads@.len() == old_threads.len(),
                j <= old_threads.len(),
                old_threads == old(self).threads@,
                old_finished == old(self).finished,
                old(self).wf(),
                self.handles == old(self).handles,
                self.thread_count == old(self).thread_count,
                self.thread_seed == old(self).thread_seed,
                self.pid == old(self).pid,
                self.ppid == old(self).ppid,
                self.children == old(self).children,
                self.waiting == old(self).waiting,
                self.signal_intervals == old(self).signal_intervals,
                forall|k: int|
                    0 <= k < j ==> terminated(
                        #[trigger] old_threads[k],
                        self.threads@[k],
                        exit_code,
                    ),
                forall|k: int| j <= k < old_threads.len() ==> self.threads@[k] == old_threads[k],
                self.finished == if exists|k: int| 0 <= k < j && old_threads[k].is_main {
                    latched(old_finished, exit_code)
                } else {
                    old_finished
                },
            decreases old_threads.len() - j,
        {
            let mut t = self.threads.remove(j);
            let main = t.is_main;
            t.terminate(exit_code);
            self.threads.insert(j, t);
            if main {
                self.finished = latched_exec(self.finished, exit_code);
            }
            proof {
                if main {
                    assert(old_threads[j as int].is_main);
                }
                if exists|k: int| 0 <= k < j + 1 && old_threads[k].is_main {
                    let k = choose|k: int| 0 <= k < j + 1 && old_threads[k].is_main;
                    if k < j {
                        assert(terminated(old_threads[k], self.threads@[k], exit_code));
                    }
                }
            }
            j = j + 1;
        }
        proof {
            if old(self).has_main() {
                let k = choose|k: int| 0 <= k < old_threads.len() && old_threads[k].is_main;
                assert(0 <= k < old_threads.len() && old_threads[k].is_main);
            }
            assert forall|k: int| 0 <= k < self.threads@.len() implies {
                &&& (#[trigger] self.threads@[k]).wf()
                &&& self.threads@[k].pid == self.pid
                &&& self.threads@[k].id.0 < self.thread_seed.0
                &&& self.handles@[k] >= 1
                &&& self.threads@[k].is_main ==> self.threads@[k].finished == self.finished
            } by {
                assert(terminated(old_threads[k], self.threads@[k], exit_code));
                assert(old_threads[k].wf());
                if self.threads@[k].is_main {
                    assert(old_threads[k].finished == old_finished);
                }
            }
            assert forall|a: int, b: int|
                0 <= a < self.threads@.len() && 0 <= b < self.threads@.len() && a != b implies {
                &&& (#[trigger] self.threads@[a]).id != (#[trigger] self.threads@[b]).id
                &&& !(self.threads@[a].is_main && self.threads@[b].is_main)
            } by {
                assert(terminated(old_threads[a], self.threads@[a], exit_code));
                assert(terminated(old_threads[b], self.threads@[b], exit_code));
            }
        }
    }
}

} // verus!
