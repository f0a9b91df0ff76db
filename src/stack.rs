use std::collections::HashMap;
use vstd::prelude::*;
use vstd::slice::{slice_subrange, slice_to_vec};

verus! {

broadcast use vstd::std_specs::hash::group_hash_axioms;

/// The state saved for one suspension point: the unwound call stack and the store data.
#[derive(Clone, Debug)]
pub struct ThreadSnapshot {
    pub call_stack: Vec<u8>,
    pub store_data: Vec<u8>,
}

/// One segment of a thread's stack chain: a slice of the memory stack and the
/// snapshots taken exactly at its end.
pub struct StackSegment {
    pub memory_stack: Vec<u8>,
    pub memory_stack_corrected: Vec<u8>,
    pub snapshots: HashMap<u128, ThreadSnapshot>,
}

/// What a segment holds, as values.
pub struct SegmentView {
    pub mem: Seq<u8>,
    pub memc: Seq<u8>,
    pub snaps: Map<u128, (Seq<u8>, Seq<u8>)>,
}

pub open spec fn snapshot_view(s: ThreadSnapshot) -> (Seq<u8>, Seq<u8>) {
    (s.call_stack@, s.store_data@)
}

impl View for StackSegment {
    type V = SegmentView;

    open spec fn view(&self) -> SegmentView {
        SegmentView {
            mem: self.memory_stack@,
            memc: self.memory_stack_corrected@,
            snaps: self.snapshots@.map_values(|s: ThreadSnapshot| snapshot_view(s)),
        }
    }
}

/// The stack chain of a thread, from the head (the bottom of the stack) to the tail.
pub struct ThreadStack {
    pub segments: Vec<StackSegment>,
}

impl View for ThreadStack {
    type V = Seq<SegmentView>;

    open spec fn view(&self) -> Seq<SegmentView> {
        self.segments@.map_values(|s: StackSegment| s@)
    }
}

/// Some position that both sequences have holds the same byte in each.
pub open spec fn shares_byte(a: Seq<u8>, b: Seq<u8>) -> bool {
    exists|j: int| 0 <= j < a.len() && j < b.len() && a[j] == b[j]
}

/// The incoming stack `rest` still runs through the segment `seg`.
pub open spec fn extends(seg: SegmentView, rest: Seq<u8>) -> bool {
    seg.mem.len() <= rest.len() && (shares_byte(seg.mem, rest) || shares_byte(seg.memc, rest))
}

/// `s` without its first `n` elements, or empty where it has fewer.
pub open spec fn skip_upto(s: Seq<u8>, n: int) -> Seq<u8> {
    if n <= s.len() {
        s.skip(n)
    } else {
        Seq::empty()
    }
}

/// A segment that holds a single snapshot.
pub open spec fn fresh_segment(
    mem: Seq<u8>,
    memc: Seq<u8>,
    h: u128,
    s: (Seq<u8>, Seq<u8>),
) -> SegmentView {
    SegmentView { mem, memc, snaps: map![h => s] }
}

/// The chain after storing snapshot `s` under `h` for the remaining incoming
/// stack `rest` (and its corrected image `restc`), walking from segment `i`.
pub open spec fn add_at(
    c: Seq<SegmentView>,
    i: int,
    rest: Seq<u8>,
    restc: Seq<u8>,
    h: u128,
    s: (Seq<u8>, Seq<u8>),
) -> Seq<SegmentView>
    decreases c.len() - i,
{
    if i < 0 || i >= c.len() {
        c
    } else if !extends(c[i], rest) {
        c.take(i).push(fresh_segment(rest, restc, h, s))
    } else {
        let n = c[i].mem.len() as int;
        let rest2 = rest.skip(n);
        let restc2 = skip_upto(restc, n);
        if rest2.len() == 0 {
            c.update(i, SegmentView { snaps: c[i].snaps.insert(h, s), ..c[i] })
        } else if i + 1 == c.len() {
            c.push(fresh_segment(rest2, restc2, h, s))
        } else {
            add_at(c, i + 1, rest2, restc2, h, s)
        }
    }
}

/// The index of the segment that `add_at` stores the snapshot in.
pub open spec fn add_index(c: Seq<SegmentView>, i: int, rest: Seq<u8>) -> int
    decreases c.len() - i,
{
    if i < 0 || i >= c.len() || !extends(c[i], rest) {
        i
    } else {
        let rest2 = rest.skip(c[i].mem.len() as int);
        if rest2.len() == 0 {
            i
        } else if i + 1 == c.len() {
            i + 1
        } else {
            add_index(c, i + 1, rest2)
        }
    }
}

/// The corrected memory images of the first `n` segments, concatenated.
pub open spec fn corrected_upto(c: Seq<SegmentView>, n: int) -> Seq<u8>
    decreases n,
{
    if n <= 0 || n > c.len() {
        Seq::empty()
    } else {
        corrected_upto(c, n - 1) + c[n - 1].memc
    }
}

/// The first segment at or after `i` that holds `h`, or the chain's length.
pub open spec fn first_holding(c: Seq<SegmentView>, h: u128, i: int) -> int
    decreases c.len() - i,
{
    if i < 0 || i >= c.len() {
        c.len() as int
    } else if c[i].snaps.contains_key(h) {
        i
    } else {
        first_holding(c, h, i + 1)
    }
}

/// What looking up `h` in the chain gives: the corrected memory up to and
/// including the first segment that holds it, with that snapshot.
pub open spec fn lookup(c: Seq<SegmentView>, h: u128) -> Option<(Seq<u8>, Seq<u8>, Seq<u8>)> {
    let k = first_holding(c, h, 0);
    if k < c.len() {
        Some((corrected_upto(c, k + 1), c[k].snaps[h].0, c[k].snaps[h].1))
    } else {
        None
    }
}

proof fn lemma_first_holding(c: Seq<SegmentView>, h: u128, i: int, k: int)
    requires
        0 <= i <= k < c.len(),
        c[k].snaps.contains_key(h),
        forall|j: int| i <= j < k ==> !c[j].snaps.contains_key(h),
    ensures
        first_holding(c, h, i) == k,
    decreases k - i,
{
    if i < k {
        lemma_first_holding(c, h, i + 1, k);
    }
}

proof fn lemma_add_at_shape(
    c: Seq<SegmentView>,
    i: int,
    rest: Seq<u8>,
    restc: Seq<u8>,
    h: u128,
    s: (Seq<u8>, Seq<u8>),
)
    requires
        0 <= i < c.len(),
    ensures
        ({
            let r = add_at(c, i, rest, restc, h, s);
            let k = add_index(c, i, rest);
            &&& i <= k < r.len()
            &&& forall|j: int| 0 <= j < k ==> r[j] == c[j]
            &&& r[k].snaps.contains_key(h)
            &&& r[k].snaps[h] == s
        }),
    decreases c.len() - i,
{
    if extends(c[i], rest) {
        let rest2 = rest.skip(c[i].mem.len() as int);
        if rest2.len() != 0 && i + 1 != c.len() {
            lemma_add_at_shape(c, i + 1, rest2, skip_upto(restc, c[i].mem.len() as int), h, s);
        }
    }
}

/// Storing a snapshot and then looking its hash up gives back the stored call
/// stack and store data, behind the corrected memory of every segment up to
/// the one that took it, unless a segment before that one already holds the hash.
pub proof fn lemma_add_then_lookup(
    c: Seq<SegmentView>,
    mem: Seq<u8>,
    memc: Seq<u8>,
    h: u128,
    rw: Seq<u8>,
    st: Seq<u8>,
)
    requires
        c.len() >= 1,
        forall|j: int| 0 <= j < add_index(c, 0, mem) ==> !c[j].snaps.contains_key(h),
    ensures
        ({
            let r = add_at(c, 0, mem, memc, h, (rw, st));
            let k = add_index(c, 0, mem);
            &&& 0 <= k < r.len()
            &&& lookup(r, h) == Some((corrected_upto(r, k + 1), rw, st))
        }),
{
    let r = add_at(c, 0, mem, memc, h, (rw, st));
    let k = add_index(c, 0, mem);
    lemma_add_at_shape(c, 0, mem, memc, h, (rw, st));
    lemma_first_holding(r, h, 0, k);
}


/// Some position that `a` and the part of `b` from `off` on both have holds the same byte.
fn shares_byte_from(a: &Vec<u8>, b: &[u8], off: usize) -> (r: bool)
    requires
        off <= b@.len(),
    ensures
        r == shares_byte(a@, b@.skip(off as int)),
{
    let mut j: usize = 0;
    while j < a.len() && j < b.len() - off
        invariant
            off <= b@.len(),
            forall|k: int| 0 <= k < j ==> a@[k] != b@[off + k],
        decreases a.len() - j,
    {
        if a[j] == b[off + j] {
            assert(b@.skip(off as int)[j as int] == b@[off + j]);
            return true;
        }
        j = j + 1;
    }
    assert forall|k: int| 0 <= k < a@.len() && k < b@.skip(off as int).len() implies a@[k]
        != b@.skip(off as int)[k] by {
        assert(b@.skip(off as int)[k] == b@[off + k]);
    }
    false
}

/// The bytes of `b` from `off` on, as a vector.
fn tail_vec(b: &[u8], off: usize) -> (r: Vec<u8>)
    requires
        off <= b@.len(),
    ensures
        r@ == b@.skip(off as int),
{
    let t = slice_subrange(b, off, b.len());
    let r = slice_to_vec(t);
    assert(r@ =~= b@.skip(off as int));
    r
}

impl ThreadSnapshot {
    fn copy(&self) -> (r: ThreadSnapshot)
        ensures
            snapshot_view(r) == snapshot_view(*self),
    {
        let call_stack = self.call_stack.clone();
        let store_data = self.store_data.clone();
        assert(call_stack@ =~= self.call_stack@);
        assert(store_data@ =~= self.store_data@);
        ThreadSnapshot { call_stack, store_data }
    }
}

impl StackSegment {
    /// A segment over the given memory images holding the single snapshot `snap` under `hash`.
    fn holding(
        memory_stack: Vec<u8>,
        memory_stack_corrected: Vec<u8>,
        hash: u128,
        snap: ThreadSnapshot,
    ) -> (r: StackSegment)
        ensures
            r@ == fresh_segment(memory_stack@, memory_stack_corrected@, hash, snapshot_view(snap)),
    {
        let mut snapshots: HashMap<u128, ThreadSnapshot> = HashMap::new();
        snapshots.insert(hash, snap);
        let r = StackSegment { memory_stack, memory_stack_corrected, snapshots };
        assert(r@.snaps =~= map![hash => snapshot_view(snap)]);
        r
    }

    /// A segment with the same contents.
    pub fn duplicate(&self) -> (r: StackSegment)
        ensures
            r@ == self@,
    {
        let memory_stack = self.memory_stack.clone();
        let memory_stack_corrected = self.memory_stack_corrected.clone();
        assert(memory_stack@ =~= self.memory_stack@);
        assert(memory_stack_corrected@ =~= self.memory_stack_corrected@);
        StackSegment { memory_stack, memory_stack_corrected, snapshots: self.snapshots.clone() }
    }
}

impl ThreadStack {
    /// The chain is never empty: it always has a head segment.
    pub open spec fn wf(&self) -> bool {
        self.segments@.len() >= 1
    }

    /// The view of a chain of one empty head segment.
    pub open spec fn new_view() -> Seq<SegmentView> {
        seq![SegmentView { mem: Seq::empty(), memc: Seq::empty(), snaps: Map::empty() }]
    }

    /// A chain of one empty head segment.
    pub fn new() -> (r: ThreadStack)
        ensures
            r.wf(),
            r@ == Self::new_view(),
    {
        let head = StackSegment {
            memory_stack: Vec::new(),
            memory_stack_corrected: Vec::new(),
            snapshots: HashMap::new(),
        };
        let mut segments: Vec<StackSegment> = Vec::new();
        segments.push(head);
        let r = ThreadStack { segments };
        assert(r@[0].snaps =~= Map::empty());
        assert(r@ =~= seq![SegmentView { mem: Seq::empty(), memc: Seq::empty(), snaps: Map::empty() }]);
        r
    }

    /// A chain with the same contents.
    pub fn duplicate(&self) -> (r: ThreadStack)
        requires
            self.wf(),
        ensures
            r.wf(),
            r@ == self@,
    {
        let mut segments: Vec<StackSegment> = Vec::new();
        let mut i: usize = 0;
        while i < self.segments.len()
            invariant
                i <= self.segments@.len(),
                segments@.len() == i,
                forall|j: int| 0 <= j < i ==> segments@[j]@ == self.segments@[j]@,
            decreases self.segments.len() - i,
        {
            segments.push(self.segments[i].duplicate());
            i = i + 1;
        }
        let r = ThreadStack { segments };
        assert(r@ =~= self@);
        r
    }

    /// Stores a snapshot for the incoming memory stack, extending the chain
    /// along the prefix it shares and dropping every segment it no longer runs through.
    pub fn add_snapshot(
        &mut self,
        memory_stack: &[u8],
        memory_stack_corrected: &[u8],
        hash: u128,
        rewind_stack: &[u8],
        store_data: &[u8],
    )
        requires
            old(self).wf(),
        ensures
            final(self).wf(),
            final(self)@ == add_at(
                old(self)@,
                0,
                memory_stack@,
                memory_stack_corrected@,
                hash,
                (rewind_stack@, store_data@),
            ),
    {
        let ghost s = (rewind_stack@, store_data@);
        let ghost target = add_at(old(self)@, 0, memory_stack@, memory_stack_corrected@, hash, s);
        let snap = ThreadSnapshot {
            call_stack: slice_to_vec(rewind_stack),
            store_data: slice_to_vec(store_data),
        };
        let mut i: usize = 0;
        let mut off: usize = 0;
        let mut offc: usize = 0;
        assert(memory_stack@.skip(0) =~= memory_stack@);
        assert(memory_stack_corrected@.skip(0) =~= memory_stack_corrected@);
        loop
            invariant
                self.wf(),
                self@ == old(self)@,
                i < self.segments@.len(),
                off <= memory_stack@.len(),
                offc <= memory_stack_corrected@.len(),
                snapshot_view(snap) == s,
                s == (rewind_stack@, store_data@),
                target == add_at(old(self)@, 0, memory_stack@, memory_stack_corrected@, hash, s),
                target == add_at(
                    self@,
                    i as int,
                    memory_stack@.skip(off as int),
                    memory_stack_corrected@.skip(offc as int),
                    hash,
                    s,
                ),
            decreases self.segments@.len() - i,
        {
                let ghost c = self@;
            let ghost rest = memory_stack@.skip(off as int);
            let ghost restc = memory_stack_corrected@.skip(offc as int);
            let seg = &self.segments[i];
            let n = seg.memory_stack.len();
            let still = n <= memory_stack.len() - off && (shares_byte_from(
                &seg.memory_stack,
                memory_stack,
                off,
            ) || shares_byte_from(&seg.memory_stack_corrected, memory_stack, off));
            assert(c[i as int] == self.segments@[i as int]@);
            assert(still == extends(c[i as int], rest));
            if !still {
                assert(target == c.take(i as int).push(fresh_segment(rest, restc, hash, s)));
                let fresh = StackSegment::holding(
                    tail_vec(memory_stack, off),
                    tail_vec(memory_stack_corrected, offc),
                    hash,
                    snap,
                );
                let mut segments = Vec::new();
                std::mem::swap(&mut segments, &mut self.segments);
                segments.truncate(i);
                segments.push(fresh);
                self.segments = segments;
                assert(self@ =~= c.take(i as int).push(fresh_segment(rest, restc, hash, s)));
                return;
            }
            let ghost rest2 = rest.skip(n as int);
            let ghost restc2 = skip_upto(restc, n as int);
            off = off + n;
            if n <= memory_stack_corrected.len() - offc {
                offc = offc + n;
            } else {
                offc = memory_stack_corrected.len();
            }
            assert(rest2 =~= memory_stack@.skip(off as int));
            assert(restc2 =~= memory_stack_corrected@.skip(offc as int));
            if off == memory_stack.len() {
                let mut taken = StackSegment {
                    memory_stack: Vec::new(),
                    memory_stack_corrected: Vec::new(),
                    snapshots: HashMap::new(),
                };
                std::mem::swap(&mut taken, &mut self.segments[i]);
                let ghost before = taken@;
                taken.snapshots.insert(hash, snap);
                assert(taken@.snaps =~= before.snaps.insert(hash, s));
                std::mem::swap(&mut taken, &mut self.segments[i]);
                assert(self@ =~= c.update(
                    i as int,
                    SegmentView { snaps: c[i as int].snaps.insert(hash, s), ..c[i as int] },
                ));
                return;
            }
            if i == self.segments.len() - 1 {
                let fresh = StackSegment::holding(
                    tail_vec(memory_stack, off),
                    tail_vec(memory_stack_corrected, offc),
                    hash,
                    snap,
                );
                let mut segments = Vec::new();
                std::mem::swap(&mut segments, &mut self.segments);
                segments.push(fresh);
                self.segments = segments;
                assert(self@ =~= c.push(fresh_segment(rest2, restc2, hash, s)));
                return;
            }
            i = i + 1;
        }
    }

    /// Looks a snapshot up by hash: the corrected memory of every segment up to
    /// and including the first one that holds it, with its call stack and store data.
    pub fn get_snapshot(&self, hash: u128) -> (r: Option<(Vec<u8>, Vec<u8>, Vec<u8>)>)
        requires
            self.wf(),
        ensures
            match r {
                Some(t) => lookup(self@, hash) == Some((t.0@, t.1@, t.2@)),
                None => lookup(self@, hash) is None,
            },
    {
        let ghost c = self@;
        let mut memory: Vec<u8> = Vec::new();
        let mut i: usize = 0;
        while i < self.segments.len()
            invariant
                c == self@,
                i <= c.len(),
                memory@ == corrected_upto(c, i as int),
                first_holding(c, hash, 0) == first_holding(c, hash, i as int),
            decreases self.segments.len() - i,
        {
            let seg = &self.segments[i];
            assert(c[i as int] == seg@);
            let ghost prev = memory@;
            memory.extend_from_slice(seg.memory_stack_corrected.as_slice());
            assert(memory@ =~= prev + c[i as int].memc);
            match seg.snapshots.get(&hash) {
                Some(snap) => {
                    let found = snap.copy();
                    assert(c[i as int].snaps[hash] == snapshot_view(*snap));
                    return Some((memory, found.call_stack, found.store_data));
                },
                None => {},
            }
            i = i + 1;
        }
        None
    }
}

} // verus!
