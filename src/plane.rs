use std::collections::{HashMap, HashSet};
use crate::ids::WasiProcessId;
use crate::process::{signalled, JoinError, WasiProcess};
use crate::thread::with_signal;
use vstd::prelude::*;

verus! {

broadcast use vstd::std_specs::hash::group_hash_axioms;

/// Number of signal kinds. A signal travels as its position in the WASI
/// signal enumeration (hang-up first, bad system call last), so valid codes run
/// from 0 to `SIGNAL_KINDS - 1`.
pub const SIGNAL_KINDS: u8 = 30;

/// Number of distinct process identifiers.
pub const PID_SPACE: u64 = 0x1_0000_0000;

/// The identifier `t` steps after `start`, wrapping around.
pub open spec fn candidate(start: u32, t: int) -> u32 {
    ((start + t) % (PID_SPACE as int)) as u32
}

/// `n` is `o` after `signal` went to each of its threads.
pub open spec fn signalled_process(o: WasiProcess, n: WasiProcess, sig: u8) -> bool {
    &&& n.same_bookkeeping(o)
    &&& n.finished == o.finished
    &&& n.threads@.len() == o.threads@.len()
    &&& forall|j: int|
        0 <= j < o.threads@.len() ==> signalled(#[trigger] o.threads@[j], n.threads@[j], sig)
}

/// A process-wide signal sent to `from` reaches the threads of `to`: a
/// process that nobody waits on takes it itself, one that is waited on hands
/// it to each of its children, for at most `depth` steps.
pub open spec fn routes_to(m: Map<u32, WasiProcess>, from: u32, to: u32, depth: nat) -> bool
    decreases depth,
{
    if depth == 0 || !m.contains_key(from) {
        false
    } else if m[from].waiting == 0 {
        to == from
    } else {
        exists|i: int|
            0 <= i < m[from].children@.len() && routes_to(
                m,
                (#[trigger] m[from].children@[i]).0,
                to,
                (depth - 1) as nat,
            )
    }
}

/// The two registries hold the same identifiers, and each process the same
/// wait counter and children.
pub open spec fn same_routing(m1: Map<u32, WasiProcess>, m2: Map<u32, WasiProcess>) -> bool {
    &&& m1.dom() == m2.dom()
    &&& forall|k: u32|
        #[trigger] m1.contains_key(k) ==> m1[k].waiting == m2[k].waiting && m1[k].children
            == m2[k].children
}

proof fn lemma_same_routing(
    m1: Map<u32, WasiProcess>,
    m2: Map<u32, WasiProcess>,
    from: u32,
    to: u32,
    depth: nat,
)
    requires
        same_routing(m1, m2),
    ensures
        routes_to(m1, from, to, depth) == routes_to(m2, from, to, depth),
    decreases depth,
{
    if depth > 0 && m1.contains_key(from) {
        assert(m2.contains_key(from));
        if m1[from].waiting != 0 {
            assert forall|i: int| 0 <= i < m1[from].children@.len() implies routes_to(
                m1,
                (#[trigger] m1[from].children@[i]).0,
                to,
                (depth - 1) as nat,
            ) == routes_to(m2, m2[from].children@[i].0, to, (depth - 1) as nat) by {
                lemma_same_routing(m1, m2, m1[from].children@[i].0, to, (depth - 1) as nat);
            }
        }
    } else if depth > 0 {
        assert(!m2.contains_key(from));
    }
}

proof fn lemma_signalled_again(a: WasiProcess, b: WasiProcess, c: WasiProcess, sig: u8)
    requires
        signalled_process(a, b, sig),
        signalled_process(b, c, sig),
    ensures
        signalled_process(a, c, sig),
{
    assert forall|j: int| 0 <= j < a.threads@.len() implies signalled(
        #[trigger] a.threads@[j],
        c.threads@[j],
        sig,
    ) by {
        assert(signalled(a.threads@[j], b.threads@[j], sig));
        assert(signalled(b.threads@[j], c.threads@[j], sig));
        let q = a.threads@[j].signals@;
        if !q.contains(sig) {
            assert(q.push(sig)[q.len() as int] == sig);
        }
    }
}

/// `s` with every occurrence of `c` taken out, in order.
pub open spec fn without(s: Seq<WasiProcessId>, c: WasiProcessId) -> Seq<WasiProcessId>
    decreases s.len(),
{
    if s.len() == 0 {
        s
    } else if s.last() == c {
        without(s.drop_last(), c)
    } else {
        without(s.drop_last(), c).push(s.last())
    }
}

/// The process `c` is live in `m` and has exited.
pub open spec fn has_exited(m: Map<u32, WasiProcess>, c: WasiProcessId) -> bool {
    m.contains_key(c.0) && m[c.0].finished is Some
}

/// The first exit code among the live children in `s`, in order.
pub open spec fn first_exit(m: Map<u32, WasiProcess>, s: Seq<WasiProcessId>) -> Option<u32>
    decreases s.len(),
{
    if s.len() == 0 {
        None
    } else if m.contains_key(s[0].0) && m[s[0].0].finished is Some {
        m[s[0].0].finished
    } else {
        first_exit(m, s.skip(1))
    }
}

/// `s` with every occurrence of `c` taken out.
fn remove_all(s: &Vec<WasiProcessId>, c: WasiProcessId) -> (r: Vec<WasiProcessId>)
    ensures
        r@ == without(s@, c),
{
    let mut out: Vec<WasiProcessId> = Vec::new();
    let mut i: usize = 0;
    while i < s.len()
        invariant
            i <= s@.len(),
            out@ == without(s@.take(i as int), c),
        decreases s.len() - i,
    {
        assert(s@.take(i + 1).drop_last() =~= s@.take(i as int));
        if s[i] != c {
            out.push(s[i]);
        }
        i = i + 1;
    }
    assert(s@.take(i as int) =~= s@);
    out
}

/// The registry of processes and the allocator of their identifiers.
pub struct WasiControlPlane {
    /// The live processes, keyed by their identifier.
    pub processes: HashMap<u32, WasiProcess>,
    /// The next identifier to try.
    pub process_seed: u32,
    /// Identifiers handed out but not yet registered.
    pub reserved: HashSet<u32>,
}

impl WasiControlPlane {
    /// Each live process is registered under its own identifier and is well formed.
    pub open spec fn wf(&self) -> bool {
        forall|k: u32|
            #[trigger] self.processes@.contains_key(k) ==> self.processes@[k].pid.0 == k
                && self.processes@[k].wf()
    }

    /// The identifier `id` is live or reserved.
    pub open spec fn taken(&self, id: u32) -> bool {
        self.processes@.contains_key(id) || self.reserved@.contains(id)
    }

    /// An empty control plane.
    pub fn new() -> (r: WasiControlPlane)
        ensures
            r.wf(),
            r.processes@.is_empty(),
            r.reserved@.is_empty(),
            r.process_seed == 0,
    {
        WasiControlPlane { processes: HashMap::new(), process_seed: 0, reserved: HashSet::new() }
    }

    /// Reserves an identifier that is neither live nor reserved, trying the
    /// seed's values in turn. `None` when every identifier is taken.
    pub fn reserve_pid(&mut self) -> (r: Option<WasiProcessId>)
        requires
            old(self).wf(),
        ensures
            final(self).wf(),
            final(self).processes@ == old(self).processes@,
            match r {
                Some(pid) => {
                    &&& !old(self).taken(pid.0)
                    &&& final(self).reserved@ == old(self).reserved@.insert(pid.0)
                },
                None => {
                    &&& forall|id: u32| old(self).taken(id)
                    &&& final(self).reserved@ == old(self).reserved@
                },
            },
    {
        let ghost start = self.process_seed;
        let mut tries: u64 = 0;
        while tries < PID_SPACE
            invariant
                tries <= PID_SPACE,
                self.process_seed == candidate(start, tries as int),
                self.processes@ == old(self).processes@,
                self.reserved@ == old(self).reserved@,
                self.wf(),
                forall|t: int| 0 <= t < tries ==> #[trigger] old(self).taken(candidate(start, t)),
            decreases PID_SPACE - tries,
        {
            let pid = self.process_seed;
            self.process_seed = if pid == u32::MAX {
                0
            } else {
                pid + 1
            };
            assert(self.process_seed == candidate(start, tries + 1));
            if !self.reserved.contains(&pid) {
                self.reserved.insert(pid);
                if !self.processes.contains_key(&pid) {
                    return Some(WasiProcessId(pid));
                }
                self.reserved.remove(&pid);
                assert(self.reserved@ =~= old(self).reserved@);
            }
            tries = tries + 1;
        }
        assert forall|id: u32| old(self).taken(id) by {
            let t = (id - start) % (PID_SPACE as int);
            assert(candidate(start, t) == id);
        }
        None
    }

    /// Creates a process with no threads under a fresh identifier and
    /// parent 0 and registers it. `None` when every identifier is taken.
    pub fn new_process(&mut self) -> (r: Option<WasiProcessId>)
        requires
            old(self).wf(),
        ensures
            final(self).wf(),
            final(self).reserved@ == old(self).reserved@,
            match r {
                Some(pid) => {
                    &&& !old(self).taken(pid.0)
                    &&& final(self).processes@.remove(pid.0) == old(self).processes@
                    &&& final(self).processes@.contains_key(pid.0)
                    &&& final(self).processes@[pid.0].pid == pid
                    &&& final(self).processes@[pid.0].ppid.0 == 0
                    &&& final(self).processes@[pid.0].threads@.len() == 0
                    &&& final(self).processes@[pid.0].thread_seed.0 == 0
                    &&& final(self).processes@[pid.0].finished is None
                    &&& final(self).processes@[pid.0].children@.len() == 0
                    &&& final(self).processes@[pid.0].waiting == 0
                    &&& final(self).processes@[pid.0].signal_intervals@.is_empty()
                },
                None => {
                    &&& forall|id: u32| old(self).taken(id)
                    &&& final(self).processes@ == old(self).processes@
                },
            },
    {
        match self.reserve_pid() {
            None => None,
            Some(pid) => {
                let p = WasiProcess::new(pid, WasiProcessId(0));
                self.processes.insert(pid.0, p);
                self.reserved.remove(&pid.0);
                assert(self.processes@.remove(pid.0) =~= old(self).processes@);
                assert(self.reserved@ =~= old(self).reserved@);
                Some(pid)
            },
        }
    }

    /// The live process `pid`, if any.
    pub fn get_process(&self, pid: WasiProcessId) -> (r: Option<&WasiProcess>)
        ensures
            match r {
                Some(p) => self.processes@.contains_key(pid.0) && self.processes@[pid.0] == *p,
                None => !self.processes@.contains_key(pid.0),
            },
    {
        self.processes.get(&pid.0)
    }

    /// Sends a process-wide signal to `pid`. While some caller waits on a
    /// process, the signal goes on to each of its children instead. A chain of
    /// waiting processes is followed no further than the number of live processes.
    pub fn signal_process(&mut self, pid: WasiProcessId, signal: u8)
        requires
            old(self).wf(),
        ensures
            final(self).wf(),
            final(self).processes@.dom() == old(self).processes@.dom(),
            final(self).reserved@ == old(self).reserved@,
            final(self).process_seed == old(self).process_seed,
            forall|q: u32|
                #[trigger] old(self).processes@.contains_key(q) ==> if routes_to(
                    old(self).processes@,
                    pid.0,
                    q,
                    old(self).processes@.len(),
                ) {
                    signalled_process(old(self).processes@[q], final(self).processes@[q], signal)
                } else {
                    final(self).processes@[q] == old(self).processes@[q]
                },
    {
        let depth = self.processes.len();
        self.route_signal(pid, signal, depth);
    }

    /// Sends the signal encoded as `code` to the process `pid` as
    /// `signal_process` does; a code that names no signal is dropped.
    pub fn signal_process_code(&mut self, pid: WasiProcessId, code: u8)
        requires
            old(self).wf(),
        ensures
            final(self).wf(),
            final(self).processes@.dom() == old(self).processes@.dom(),
            final(self).reserved@ == old(self).reserved@,
            final(self).process_seed == old(self).process_seed,
            code >= SIGNAL_KINDS ==> final(self).processes@ == old(self).processes@,
            forall|q: u32|
                #[trigger] old(self).processes@.contains_key(q) ==> if code < SIGNAL_KINDS
                    && routes_to(old(self).processes@, pid.0, q, old(self).processes@.len()) {
                    signalled_process(old(self).processes@[q], final(self).processes@[q], code)
                } else {
                    final(self).processes@[q] == old(self).processes@[q]
                },
    {
        if code < SIGNAL_KINDS {
            self.signal_process(pid, code);
        }
    }

    fn route_signal(&mut self, pid: WasiProcessId, signal: u8, depth: usize)
        requires
            old(self).wf(),
        ensures
            final(self).wf(),
            final(self).processes@.dom() == old(self).processes@.dom(),
            final(self).reserved@ == old(self).reserved@,
            final(self).process_seed == old(self).process_seed,
            forall|q: u32|
                #[trigger] old(self).processes@.contains_key(q) ==> if routes_to(
                    old(self).processes@,
                    pid.0,
                    q,
                    depth as nat,
                ) {
                    signalled_process(old(self).processes@[q], final(self).processes@[q], signal)
                } else {
                    final(self).processes@[q] == old(self).processes@[q]
                },
        decreases depth,
    {
        let ghost m0 = self.processes@;
        if depth == 0 {
            return;
        }
        let mut p = match self.processes.remove(&pid.0) {
            None => {
                assert(self.processes@ =~= m0);
                return;
            },
            Some(p) => p,
        };
        let children = p.signal_process(signal);
        self.processes.insert(pid.0, p);
        if children.len() == 0 {
            assert(self.processes@ =~= m0.insert(pid.0, p));
            assert forall|q: u32| #[trigger] m0.contains_key(q) implies if routes_to(
                m0,
                pid.0,
                q,
                depth as nat,
            ) {
                signalled_process(m0[q], self.processes@[q], signal)
            } else {
                self.processes@[q] == m0[q]
            } by {
                if m0[pid.0].waiting > 0 {
                    assert(m0[pid.0].children@.len() == 0);
                }
                if q == pid.0 && m0[pid.0].waiting == 0 {
                    assert(routes_to(m0, pid.0, q, depth as nat));
                }
            }
            return;
        }
        assert(self.processes@ =~= m0);
        let mut i: usize = 0;
        while i < children.len()
            invariant
                m0 == old(self).processes@,
                m0.contains_key(pid.0),
                m0[pid.0].waiting > 0,
                children@ == m0[pid.0].children@,
                depth > 0,
                i <= children@.len(),
                self.wf(),
                same_routing(m0, self.processes@),
                self.reserved@ == old(self).reserved@,
                self.process_seed == old(self).process_seed,
                forall|q: u32|
                    #[trigger] m0.contains_key(q) ==> if exists|k: int|
                        0 <= k < i && routes_to(
                            m0,
                            (#[trigger] children@[k]).0,
                            q,
                            (depth - 1) as nat,
                        ) {
                        signalled_process(m0[q], self.processes@[q], signal)
                    } else {
                        self.processes@[q] == m0[q]
                    },
            decreases children.len() - i,
        {
            let ghost cur = self.processes@;
            let c = children[i];
            self.route_signal(c, signal, depth - 1);
            proof {
                let next = self.processes@;
                assert(same_routing(cur, next));
                assert forall|q: u32| #[trigger] m0.contains_key(q) implies if exists|k: int|
                    0 <= k < i + 1 && routes_to(
                        m0,
                        (#[trigger] children@[k]).0,
                        q,
                        (depth - 1) as nat,
                    ) {
                    signalled_process(m0[q], next[q], signal)
                } else {
                    next[q] == m0[q]
                } by {
                    lemma_same_routing(m0, cur, c.0, q, (depth - 1) as nat);
                    let now = routes_to(m0, c.0, q, (depth - 1) as nat);
                    let before = exists|k: int|
                        0 <= k < i && routes_to(
                            m0,
                            (#[trigger] children@[k]).0,
                            q,
                            (depth - 1) as nat,
                        );
                    if before && now {
                        lemma_signalled_again(m0[q], cur[q], next[q], signal);
                    }
                    if now {
                        assert(children@[i as int] == c);
                    }
                    if exists|k: int|
                        0 <= k < i + 1 && routes_to(
                            m0,
                            (#[trigger] children@[k]).0,
                            q,
                            (depth - 1) as nat,
                        ) {
                        let k = choose|k: int|
                            0 <= k < i + 1 && routes_to(
                                m0,
                                (#[trigger] children@[k]).0,
                                q,
                                (depth - 1) as nat,
                            );
                        if k < i {
                            assert(before);
                        }
                    }
                }
                assert forall|k: u32| #[trigger] m0.contains_key(k) implies m0[k].waiting
                    == next[k].waiting && m0[k].children == next[k].children by {
                    assert(cur.contains_key(k));
                }
            }
            i = i + 1;
        }
    }

    /// One look at the children of `pid` for a wait on any of them. With no
    /// children it fails. Otherwise the first child in the list that is live
    /// and has exited is taken off the list and returned with its exit code;
    /// where none has, nothing changes and the caller waits for an exit.
    pub fn join_any_child(&mut self, pid: WasiProcessId) -> (r: Result<
        Option<(WasiProcessId, u32)>,
        JoinError,
    >)
        requires
            old(self).wf(),
            old(self).processes@.contains_key(pid.0),
        ensures
            final(self).wf(),
            final(self).reserved@ == old(self).reserved@,
            final(self).process_seed == old(self).process_seed,
            ({
                let m = old(self).processes@;
                let kids = m[pid.0].children@;
                match r {
                    Err(e) => kids.len() == 0 && final(self).processes@ == m,
                    Ok(None) => {
                        &&& kids.len() > 0
                        &&& forall|k: int| 0 <= k < kids.len() ==> !has_exited(m, #[trigger] kids[k])
                        &&& final(self).processes@ == m
                    },
                    Ok(Some((c, code))) => {
                        &&& exists|k: int|
                            0 <= k < kids.len() && kids[k] == c && forall|k2: int|
                                0 <= k2 < k ==> !has_exited(m, #[trigger] kids[k2])
                        &&& has_exited(m, c)
                        &&& m[c.0].finished == Some(code)
                        &&& final(self).processes@ == m.insert(
                            pid.0,
                            (WasiProcess { children: final(self).processes@[pid.0].children, ..m[pid.0] }),
                        )
                        &&& final(self).processes@[pid.0].children@ == without(kids, c)
                    },
                }
            }),
    {
        let ghost m = self.processes@;
        let kids = self.processes.get(&pid.0).unwrap().children.clone();
        assert(kids@ =~= m[pid.0].children@);
        if kids.len() == 0 {
            return Err(JoinError::NoChildren);
        }
        let mut k: usize = 0;
        while k < kids.len()
            invariant
                m == self.processes@,
                m == old(self).processes@,
                m.contains_key(pid.0),
                self.wf(),
                self.reserved@ == old(self).reserved@,
                self.process_seed == old(self).process_seed,
                kids@ == m[pid.0].children@,
                k <= kids@.len(),
                forall|k2: int| 0 <= k2 < k ==> !has_exited(m, #[trigger] kids@[k2]),
            decreases kids.len() - k,
        {
            let c = kids[k];
            let code = match self.processes.get(&c.0) {
                Some(child) => child.finished,
                None => None,
            };
            if let Some(code) = code {
                let mut p = self.processes.remove(&pid.0).unwrap();
                p.children = remove_all(&kids, c);
                self.processes.insert(pid.0, p);
                assert(self.processes@ =~= m.insert(
                    pid.0,
                    (WasiProcess { children: self.processes@[pid.0].children, ..m[pid.0] }),
                ));
                return Ok(Some((c, code)));
            }
            k = k + 1;
        }
        Ok(None)
    }

    /// One look at the children of `pid` for a wait on all of them. `None`
    /// while some live child has not exited. Otherwise the live children are
    /// taken off the list and the result is the first exit code among them in
    /// list order (`Some(None)` where there is none).
    pub fn join_children(&mut self, pid: WasiProcessId) -> (r: Option<Option<u32>>)
        requires
            old(self).wf(),
            old(self).processes@.contains_key(pid.0),
        ensures
            final(self).wf(),
            final(self).reserved@ == old(self).reserved@,
            final(self).process_seed == old(self).process_seed,
            ({
                let m = old(self).processes@;
                let kids = m[pid.0].children@;
                match r {
                    None => {
                        &&& exists|k: int|
                            0 <= k < kids.len() && m.contains_key((#[trigger] kids[k]).0)
                                && m[kids[k].0].finished is None
                        &&& final(self).processes@ == m
                    },
                    Some(code) => {
                        &&& forall|k: int|
                            0 <= k < kids.len() && m.contains_key((#[trigger] kids[k]).0)
                                ==> m[kids[k].0].finished is Some
                        &&& code == first_exit(m, kids)
                        &&& final(self).processes@ == m.insert(
                            pid.0,
                            (WasiProcess { children: final(self).processes@[pid.0].children, ..m[pid.0] }),
                        )
                        &&& final(self).processes@[pid.0].children@ == kids.filter(
                            |c: WasiProcessId| !m.contains_key(c.0),
                        )
                    },
                }
            }),
    {
        let ghost m = self.processes@;
        let kids = self.processes.get(&pid.0).unwrap().children.clone();
        assert(kids@ =~= m[pid.0].children@);
        let mut kept: Vec<WasiProcessId> = Vec::new();
        let mut first: Option<u32> = None;
        proof {
            reveal(Seq::filter);
            assert(kids@.skip(0) =~= kids@);
            assert(kids@.take(0).len() == 0);
            assert(kept@ =~= kids@.take(0).filter(|c: WasiProcessId| !m.contains_key(c.0)));
        }
        let mut k: usize = 0;
        while k < kids.len()
            invariant
                m == self.processes@,
                m == old(self).processes@,
                m.contains_key(pid.0),
                self.wf(),
                self.reserved@ == old(self).reserved@,
                self.process_seed == old(self).process_seed,
                kids@ == m[pid.0].children@,
                k <= kids@.len(),
                forall|k2: int|
                    0 <= k2 < k && m.contains_key((#[trigger] kids@[k2]).0) ==> m[kids@[k2].0].finished is Some,
                kept@ == kids@.take(k as int).filter(|c: WasiProcessId| !m.contains_key(c.0)),
                first_exit(m, kids@) == if first is Some {
                    first
                } else {
                    first_exit(m, kids@.skip(k as int))
                },
            decreases kids.len() - k,
        {
            let c = kids[k];
            proof {
                assert(kids@.take(k + 1).drop_last() =~= kids@.take(k as int));
                assert(kids@.skip(k as int).skip(1) =~= kids@.skip(k + 1));
                assert(kids@.skip(k as int)[0] == c);
            }
            match self.processes.get(&c.0) {
                Some(child) => {
                    match child.finished {
                        None => {
                            return None;
                        },
                        Some(code) => {
                            if first.is_none() {
                                first = Some(code);
                            }
                        },
                    }
                },
                None => {
                    kept.push(c);
                },
            }
            proof {
                reveal(Seq::filter);
                assert(kids@.take(k + 1).last() == c);
            }
            assert(kept@ =~= kids@.take(k + 1).filter(|c: WasiProcessId| !m.contains_key(c.0)));
            k = k + 1;
        }
        proof {
            assert(kids@.take(k as int) =~= kids@);
            assert(kids@.skip(k as int).len() == 0);
        }
        let mut p = self.processes.remove(&pid.0).unwrap();
        p.children = kept;
        self.processes.insert(pid.0, p);
        assert(self.processes@ =~= m.insert(
            pid.0,
            (WasiProcess { children: self.processes@[pid.0].children, ..m[pid.0] }),
        ));
        Some(first)
    }

    /// Takes the process `pid` out of the registry so that it can be worked on;
    /// `restore_process` puts it back.
    pub fn take_process(&mut self, pid: WasiProcessId) -> (r: Option<WasiProcess>)
        requires
            old(self).wf(),
        ensures
            final(self).wf(),
            final(self).processes@ == old(self).processes@.remove(pid.0),
            final(self).reserved@ == old(self).reserved@,
            final(self).process_seed == old(self).process_seed,
            match r {
                Some(p) => old(self).processes@.contains_key(pid.0) && p == old(
                    self,
                ).processes@[pid.0],
                None => !old(self).processes@.contains_key(pid.0),
            },
    {
        self.processes.remove(&pid.0)
    }

    /// Registers `p` under its identifier again.
    pub fn restore_process(&mut self, p: WasiProcess)
        requires
            old(self).wf(),
            p.wf(),
        ensures
            final(self).wf(),
            final(self).processes@ == old(self).processes@.insert(p.pid.0, p),
            final(self).reserved@ == old(self).reserved@,
            final(self).process_seed == old(self).process_seed,
    {
        self.processes.insert(p.pid.0, p);
    }
}

} // verus!
