use crate::ids::{WasiProcessId, WasiThreadId};
use crate::stack::{lookup, add_at, ThreadStack};
use vstd::prelude::*;

verus! {

/// What an exit latch holds after `code` is written to it: the first code written stays.
pub open spec fn latched(o: Option<u32>, code: u32) -> Option<u32> {
    if o is Some {
        o
    } else {
        Some(code)
    }
}

/// The pending set after `sig` arrives: a signal already pending is not queued twice.
pub open spec fn with_signal(q: Seq<u8>, sig: u8) -> Seq<u8> {
    if q.contains(sig) {
        q
    } else {
        q.push(sig)
    }
}

/// Writing an exit code to a latch twice keeps the first code.
pub proof fn lemma_latch_write_once(o: Option<u32>, c1: u32, c2: u32)
    ensures
        latched(o, c1) is Some,
        latched(latched(o, c1), c2) == latched(o, c1),
{
}

/// Raising the same signal twice on an empty queue leaves it pending once.
pub proof fn lemma_signal_twice(sig: u8)
    ensures
        with_signal(with_signal(Seq::empty(), sig), sig) == seq![sig],
{
    assert(Seq::<u8>::empty().push(sig) =~= seq![sig]);
    assert(seq![sig][0] == sig);
    assert(seq![sig].contains(sig));
}

/// A signal raised on a queue that was just found empty is the whole of the next drain.
pub proof fn lemma_signal_after_empty_drain(q: Seq<u8>, sig: u8)
    requires
        q.len() == 0,
    ensures
        with_signal(q, sig) == seq![sig],
{
    assert(q =~= Seq::<u8>::empty());
    assert(Seq::<u8>::empty().push(sig) =~= seq![sig]);
}

/// Returned by a drain that found no signal: the caller subscribes to the
/// thread's wake channel before it lets go of the queue.
#[derive(Debug, Clone, Copy, PartialEq, Eq, Structural)]
pub struct Subscribe;

/// A guest thread: its identity, exit latch, pending signals and stack chain.
pub struct WasiThread {
    pub is_main: bool,
    pub pid: WasiProcessId,
    pub id: WasiThreadId,
    pub finished: Option<u32>,
    pub signals: Vec<u8>,
    pub stack: ThreadStack,
}

impl WasiThread {
    pub open spec fn wf(&self) -> bool {
        self.stack.wf()
    }

    /// A thread that has not exited, with no pending signal and an empty stack chain.
    /// `finished` is the latch it starts from (a main thread carries its process's latch).
    pub fn new(pid: WasiProcessId, id: WasiThreadId, is_main: bool, finished: Option<u32>) -> (r:
        WasiThread)
        ensures
            r.wf(),
            r.pid == pid,
            r.id == id,
            r.is_main == is_main,
            r.finished == finished,
            r.signals@.len() == 0,
            r.stack@ == ThreadStack::new_view(),
    {
        WasiThread { is_main, pid, id, finished, signals: Vec::new(), stack: ThreadStack::new() }
    }

    /// The process this thread belongs to.
    pub fn pid(&self) -> (r: WasiProcessId)
        ensures
            r == self.pid,
    {
        self.pid
    }

    /// The thread's identifier.
    pub fn tid(&self) -> (r: WasiThreadId)
        ensures
            r == self.id,
    {
        self.id
    }

    /// Whether this is its process's main thread.
    pub fn is_main(&self) -> (r: bool)
        ensures
            r == self.is_main,
    {
        self.is_main
    }

    /// Marks the thread as exited with `exit_code`, unless it has exited already.
    pub fn terminate(&mut self, exit_code: u32)
        ensures
            final(self).finished == latched(old(self).finished, exit_code),
            final(self).signals == old(self).signals,
            final(self).stack == old(self).stack,
            final(self).pid == old(self).pid,
            final(self).id == old(self).id,
            final(self).is_main == old(self).is_main,
    {
        if self.finished.is_none() {
            self.finished = Some(exit_code);
        }
    }

    /// The exit code, if the thread has exited.
    pub fn try_join(&self) -> (r: Option<u32>)
        ensures
            r == self.finished,
    {
        self.finished
    }

    /// Queues a signal for the thread, unless it is pending already.
    pub fn signal(&mut self, signal: u8)
        ensures
            final(self).signals@ == with_signal(old(self).signals@, signal),
            final(self).finished == old(self).finished,
            final(self).stack == old(self).stack,
            final(self).pid == old(self).pid,
            final(self).id == old(self).id,
            final(self).is_main == old(self).is_main,
    {
        let mut found = false;
        let mut i: usize = 0;
        while i < self.signals.len()
            invariant
                found <==> exists|j: int| 0 <= j < i && self.signals@[j] == signal,
                i <= self.signals@.len(),
            decreases self.signals.len() - i,
        {
            if self.signals[i] == signal {
                found = true;
            }
            i = i + 1;
        }
        if !found {
            self.signals.push(signal);
        }
    }

    /// Takes every pending signal. Where none is pending the queue is left as
    /// it is and the caller is told to subscribe for the next arrival.
    pub fn pop_signals_or_subscribe(&mut self) -> (r: Result<Vec<u8>, Subscribe>)
        ensures
            old(self).signals@.len() == 0 ==> r is Err && final(self).signals@ == old(
                self,
            ).signals@,
            old(self).signals@.len() > 0 ==> r is Ok && r->Ok_0@ == old(self).signals@
                && final(self).signals@.len() == 0,
            final(self).finished == old(self).finished,
            final(self).stack == old(self).stack,
            final(self).pid == old(self).pid,
            final(self).id == old(self).id,
            final(self).is_main == old(self).is_main,
    {
        if self.signals.len() == 0 {
            return Err(Subscribe);
        }
        let mut ret: Vec<u8> = Vec::new();
        std::mem::swap(&mut ret, &mut self.signals);
        Ok(ret)
    }

    /// Stores a stack snapshot (see `ThreadStack::add_snapshot`).
    pub fn add_snapshot(
        &mut self,
        memory_stack: &[u8],
        memory_stack_corrected: &[u8],
        hash: u128,
        rewind_stack: &[u8],
        store_data: &[u8],
    )
        requires
            old(self).wf(),
        ensures
            final(self).wf(),
            final(self).stack@ == add_at(
                old(self).stack@,
                0,
                memory_stack@,
                memory_stack_corrected@,
                hash,
                (rewind_stack@, store_data@),
            ),
            final(self).finished == old(self).finished,
            final(self).signals == old(self).signals,
            final(self).pid == old(self).pid,
            final(self).id == old(self).id,
            final(self).is_main == old(self).is_main,
    {
        self.stack.add_snapshot(memory_stack, memory_stack_corrected, hash, rewind_stack, store_data);
    }

    /// Looks a stored snapshot up by hash (see `ThreadStack::get_snapshot`).
    pub fn get_snapshot(&self, hash: u128) -> (r: Option<(Vec<u8>, Vec<u8>, Vec<u8>)>)
        requires
            self.wf(),
        ensures
            match r {
                Some(t) => lookup(self.stack@, hash) == Some((t.0@, t.1@, t.2@)),
                None => lookup(self.stack@, hash) is None,
            },
    {
        self.stack.get_snapshot(hash)
    }

    /// Replaces this thread's stack chain with a copy of `other`'s.
    pub fn copy_stack_from(&mut self, other: &WasiThread)
        requires
            other.wf(),
        ensures
            final(self).wf(),
            final(self).stack@ == other.stack@,
            final(self).finished == old(self).finished,
            final(self).signals == old(self).signals,
            final(self).pid == old(self).pid,
            final(self).id == old(self).id,
            final(self).is_main == old(self).is_main,
    {
        self.stack = other.stack.duplicate();
    }
}

} // verus!
