//! The segment table: segments addressed by integer handles, with a stack of
//! freed handles that allocation reuses first.
use vstd::prelude::*;

use crate::fault::Fault;

verus! {

/// The number of handles that a 32-bit register can name.
pub const HANDLE_LIMIT: u64 = 0x1_0000_0000;

/// `n` zero words.
pub open spec fn zeros(n: nat) -> Seq<u32> {
    Seq::new(n, |i: int| 0u32)
}

/// The abstract segment table: each handle maps to a segment or, once freed,
/// to `None`; `free` is the stack of freed handles, top last.
pub struct SegmentsView {
    pub table: Seq<Option<Seq<u32>>>,
    pub free: Seq<nat>,
}

impl SegmentsView {
    pub open spec fn live(self, h: int) -> bool {
        0 <= h < self.table.len() && self.table[h] is Some
    }

    /// The words of the segment at `h`.
    pub open spec fn seg(self, h: int) -> Seq<u32> {
        self.table[h]->0
    }

    /// Handle 0 is live, handles fit in 32 bits, and the free stack holds,
    /// once each, exactly the freed handles other than 0.
    pub open spec fn wf(self) -> bool {
        &&& 1 <= self.table.len() <= HANDLE_LIMIT
        &&& self.table[0] is Some
        &&& self.free.no_duplicates()
        &&& forall|k: int|
            0 <= k < self.free.len() ==> 0 < #[trigger] self.free[k] < self.table.len()
                && self.table[self.free[k] as int] is None
        &&& forall|h: int|
            0 < h < self.table.len() && #[trigger] self.table[h] is None ==> self.free.contains(
                h as nat,
            )
    }

    /// The fault, if any, of reading or writing word `i` of segment `h`.
    pub open spec fn access_fault(self, h: int, i: int) -> Option<Fault> {
        if !self.live(h) {
            Some(Fault::InvalidHandle)
        } else if !(0 <= i < self.seg(h).len()) {
            Some(Fault::IndexOutOfBounds)
        } else {
            None
        }
    }

    /// A new segment can be given a handle.
    pub open spec fn can_allocate(self) -> bool {
        self.free.len() > 0 || self.table.len() < HANDLE_LIMIT
    }

    /// The handle that the next allocation returns: the most recently freed
    /// one, else a new one past the end of the table.
    pub open spec fn next_handle(self) -> nat {
        if self.free.len() > 0 {
            self.free.last()
        } else {
            self.table.len()
        }
    }

    /// The table after a segment of `n` zero words is allocated.
    pub open spec fn allocate(self, n: nat) -> SegmentsView {
        if self.free.len() > 0 {
            SegmentsView {
                table: self.table.update(self.free.last() as int, Some(zeros(n))),
                free: self.free.drop_last(),
            }
        } else {
            SegmentsView { table: self.table.push(Some(zeros(n))), free: self.free }
        }
    }

    /// The table after handle `h` is freed.
    pub open spec fn abandon(self, h: int) -> SegmentsView {
        SegmentsView { table: self.table.update(h, None), free: self.free.push(h as nat) }
    }

    /// The table after word `i` of segment `h` is set to `v`.
    pub open spec fn amend(self, h: int, i: int, v: u32) -> SegmentsView {
        SegmentsView { table: self.table.update(h, Some(self.seg(h).update(i, v))), ..self }
    }

    /// The table after segment 0 is replaced by a copy of segment `h`.
    pub open spec fn load(self, h: int) -> SegmentsView {
        SegmentsView { table: self.table.update(0, Some(self.seg(h))), ..self }
    }
}

/// Allocation keeps the table well formed and the new handle live and not 0.
pub proof fn lemma_allocate_wf(t: SegmentsView, n: nat)
    requires
        t.wf(),
        t.can_allocate(),
    ensures
        t.allocate(n).wf(),
        t.next_handle() != 0,
        !t.live(t.next_handle() as int),
        t.allocate(n).live(t.next_handle() as int),
        t.allocate(n).seg(t.next_handle() as int) == zeros(n),
        t.allocate(n).table.len() <= t.table.len() + 1,
        forall|h: int| #[trigger] t.live(h) ==> t.allocate(n).live(h) && t.allocate(n).seg(h) == t.seg(h),
{
    let u = t.allocate(n);
    if t.free.len() > 0 {
        let top = t.free.len() - 1;
        assert(0 < t.free[top] < t.table.len());
        assert forall|g: int| 0 < g < u.table.len() && #[trigger] u.table[g] is None implies u.free.contains(
            g as nat,
        ) by {
            assert(t.table[g] is None);
            let j = choose|j: int| 0 <= j < t.free.len() && t.free[j] == g as nat;
            assert(j != top);
            assert(u.free[j] == g as nat);
        }
    }
}

/// Freeing a live handle other than 0 keeps the table well formed.
pub proof fn lemma_abandon_wf(t: SegmentsView, h: int)
    requires
        t.wf(),
        h != 0,
        t.live(h),
    ensures
        t.abandon(h).wf(),
        t.abandon(h).free == t.free.push(h as nat),
        t.abandon(h).table.len() == t.table.len(),
        forall|g: int| g != h && #[trigger] t.live(g) ==> t.abandon(h).live(g) && t.abandon(h).seg(g) == t.seg(g),
{
    let u = t.abandon(h);
    assert(!t.free.contains(h as nat));
    assert forall|g: int| 0 < g < u.table.len() && #[trigger] u.table[g] is None implies u.free.contains(
        g as nat,
    ) by {
        if g == h {
            assert(u.free[u.free.len() - 1] == h);
        } else {
            let j = choose|j: int| 0 <= j < t.free.len() && t.free[j] == g as nat;
            assert(u.free[j] == g as nat);
        }
    }
}

/// Allocates one segment per length in `lens`, in order: the resulting table
/// and the handles handed out.
pub open spec fn allocate_all(t: SegmentsView, lens: Seq<nat>) -> (SegmentsView, Seq<nat>)
    decreases lens.len(),
{
    if lens.len() == 0 {
        (t, seq![])
    } else {
        let (u, hs) = allocate_all(t.allocate(lens[0]), lens.drop_first());
        (u, seq![t.next_handle()] + hs)
    }
}

/// Frees the handles of `hs`, in order.
pub open spec fn abandon_all(t: SegmentsView, hs: Seq<nat>) -> SegmentsView
    decreases hs.len(),
{
    if hs.len() == 0 {
        t
    } else {
        abandon_all(t.abandon(hs[0] as int), hs.drop_first())
    }
}

/// With room for `lens.len()` more handles, every allocation of
/// `allocate_all` succeeds and hands out distinct handles, none 0, each live
/// afterwards and not live before.
pub proof fn lemma_allocate_all(t: SegmentsView, lens: Seq<nat>)
    requires
        t.wf(),
        t.table.len() + lens.len() <= HANDLE_LIMIT,
    ensures
        ({
            let (u, hs) = allocate_all(t, lens);
            &&& u.wf()
            &&& u.table.len() <= t.table.len() + lens.len()
            &&& hs.len() == lens.len()
            &&& hs.no_duplicates()
            &&& forall|i: int| 0 <= i < hs.len() ==> #[trigger] hs[i] != 0 && u.live(hs[i] as int) && !t.live(hs[i] as int)
            &&& forall|h: int| #[trigger] t.live(h) ==> u.live(h)
        }),
    decreases lens.len(),
{
    if lens.len() > 0 {
        let t1 = t.allocate(lens[0]);
        lemma_allocate_wf(t, lens[0]);
        lemma_allocate_all(t1, lens.drop_first());
        let (u, hs1) = allocate_all(t1, lens.drop_first());
        let hs = seq![t.next_handle()] + hs1;
        assert forall|i: int| 0 <= i < hs.len() implies #[trigger] hs[i] != 0 && u.live(hs[i] as int) && !t.live(hs[i] as int) by {
            if i > 0 {
                assert(hs[i] == hs1[i - 1]);
            }
        }
        assert forall|i: int, j: int| 0 <= i < hs.len() && 0 <= j < hs.len() && i != j implies hs[i] != hs[j] by {
            if i > 0 && j > 0 {
                assert(hs1[i - 1] != hs1[j - 1]);
            } else if i == 0 {
                assert(hs[j] == hs1[j - 1]);
                assert(!t1.live(hs1[j - 1] as int));
            } else {
                assert(hs[i] == hs1[i - 1]);
                assert(!t1.live(hs1[i - 1] as int));
            }
        }
    }
}

/// Freeing distinct live handles other than 0 pushes them, in order, onto
/// the free stack.
pub proof fn lemma_abandon_all(t: SegmentsView, hs: Seq<nat>)
    requires
        t.wf(),
        hs.no_duplicates(),
        forall|i: int| 0 <= i < hs.len() ==> #[trigger] hs[i] != 0 && t.live(hs[i] as int),
    ensures
        abandon_all(t, hs).wf(),
        abandon_all(t, hs).free == t.free + hs,
        abandon_all(t, hs).table.len() == t.table.len(),
    decreases hs.len(),
{
    if hs.len() > 0 {
        let t1 = t.abandon(hs[0] as int);
        lemma_abandon_wf(t, hs[0] as int);
        let rest = hs.drop_first();
        assert forall|i: int| 0 <= i < rest.len() implies #[trigger] rest[i] != 0 && t1.live(rest[i] as int) by {
            assert(rest[i] == hs[i + 1]);
            assert(hs[i + 1] != hs[0]);
        }
        lemma_abandon_all(t1, rest);
        assert(t.free.push(hs[0]) + rest =~= t.free + hs);
    }
}

/// Allocating from a table whose free stack ends in `ks` hands out the
/// handles of `ks` from the top down, one per allocation.
pub proof fn lemma_allocate_pops(t: SegmentsView, rest: Seq<nat>, ks: Seq<nat>, lens: Seq<nat>)
    requires
        t.wf(),
        t.free == rest + ks,
        lens.len() == ks.len(),
    ensures
        allocate_all(t, lens).1 == ks.reverse(),
    decreases lens.len(),
{
    if lens.len() > 0 {
        let t1 = t.allocate(lens[0]);
        lemma_allocate_wf(t, lens[0]);
        let ks1 = ks.drop_last();
        assert(t1.free =~= rest + ks1);
        lemma_allocate_pops(t1, rest, ks1, lens.drop_first());
        assert(t.next_handle() == ks.last());
        assert(seq![ks.last()] + ks1.reverse() =~= ks.reverse());
    }
}

/// Handles are reused as a stack: after allocating segments, freeing the
/// handles they got in the reverse order and allocating as many segments
/// again, the second round hands out the same handles in the same order as
/// the first, that is, in the reverse of the order in which they were freed.
pub proof fn lemma_handles_reused_as_stack(t: SegmentsView, lens: Seq<nat>, lens2: Seq<nat>)
    requires
        t.wf(),
        t.table.len() + lens.len() <= HANDLE_LIMIT,
        lens2.len() == lens.len(),
    ensures
        ({
            let (t1, hs) = allocate_all(t, lens);
            let t2 = abandon_all(t1, hs.reverse());
            &&& forall|i: int| 0 <= i < hs.len() ==> #[trigger] hs[i] != 0 && t1.live(hs[i] as int)
            &&& allocate_all(t2, lens2).1 == hs
        }),
{
    let (t1, hs) = allocate_all(t, lens);
    lemma_allocate_all(t, lens);
    let ks = hs.reverse();
    assert forall|i: int, j: int| 0 <= i < ks.len() && 0 <= j < ks.len() && i != j implies ks[i] != ks[j] by {
        assert(hs[hs.len() - 1 - i] != hs[hs.len() - 1 - j]);
    }
    assert forall|i: int| 0 <= i < ks.len() implies #[trigger] ks[i] != 0 && t1.live(ks[i] as int) by {
        assert(ks[i] == hs[hs.len() - 1 - i]);
    }
    lemma_abandon_all(t1, ks);
    lemma_allocate_pops(abandon_all(t1, ks), t1.free, ks, lens2);
    assert(ks.reverse() =~= hs);
}

pub open spec fn slot_view(o: Option<Vec<u32>>) -> Option<Seq<u32>> {
    match o {
        Some(v) => Some(v@),
        None => None,
    }
}

/// The segment table of a running machine.
pub struct Segments {
    table: Vec<Option<Vec<u32>>>,
    free: Vec<usize>,
}

impl View for Segments {
    type V = SegmentsView;

    closed spec fn view(&self) -> SegmentsView {
        SegmentsView { table: self.table@.map_values(|o: Option<Vec<u32>>| slot_view(o)), free: self.free@.map_values(|h: usize| h as nat) }
    }
}

impl Segments {
    /// A table whose only segment, handle 0, holds `program`.
    pub fn new(program: Vec<u32>) -> (r: Segments)
        ensures
            r@ == (SegmentsView { table: seq![Some(program@)], free: seq![] }),
            r@.wf(),
    {
        let ghost p = program@;
        let mut table: Vec<Option<Vec<u32>>> = Vec::new();
        table.push(Some(program));
        let r = Segments { table, free: Vec::new() };
        assert(r@.table =~= seq![Some(p)]);
        assert(r@.free =~= Seq::<nat>::empty());
        r
    }

    pub fn is_live(&self, h: usize) -> (r: bool)
        ensures
            r == self@.live(h as int),
    {
        h < self.table.len() && self.table[h].is_some()
    }

    /// The number of words in segment `h`.
    pub fn segment_len(&self, h: usize) -> (r: usize)
        requires
            self@.live(h as int),
        ensures
            r == self@.seg(h as int).len(),
    {
        match &self.table[h] {
            Some(s) => s.len(),
            None => 0,
        }
    }

    /// Word `i` of segment `h`.
    pub fn read(&self, h: usize, i: usize) -> (r: Result<u32, Fault>)
        ensures
            r == match self@.access_fault(h as int, i as int) {
                Some(f) => Err(f),
                None => Ok(self@.seg(h as int)[i as int]),
            },
    {
        if !self.is_live(h) {
            return Err(Fault::InvalidHandle);
        }
        match &self.table[h] {
            Some(s) => {
                if i < s.len() {
                    Ok(s[i])
                } else {
                    Err(Fault::IndexOutOfBounds)
                }
            },
            None => Err(Fault::InvalidHandle),
        }
    }
    /// Sets word `i` of segment `h` to `v`; on a fault nothing changes.
    pub fn write(&mut self, h: usize, i: usize, v: u32) -> (r: Result<(), Fault>)
        requires
            old(self)@.wf(),
        ensures
            r == match old(self)@.access_fault(h as int, i as int) {
                Some(f) => Err(f),
                None => Ok(()),
            },
            final(self)@ == if r is Ok {
                old(self)@.amend(h as int, i as int, v)
            } else {
                old(self)@
            },
            final(self)@.wf(),
    {
        if !self.is_live(h) {
            return Err(Fault::InvalidHandle);
        }
        if i >= self.segment_len(h) {
            return Err(Fault::IndexOutOfBounds);
        }
        let ghost before = self@;
        let mut slot: Option<Vec<u32>> = None;
        self.table.set_and_swap(h, &mut slot);
        let mut seg = slot.unwrap();
        seg.set(i, v);
        self.table.set(h, Some(seg));
        assert(self@.table =~= before.amend(h as int, i as int, v).table);
        Ok(())
    }

    /// Gives a new segment of `n` zero words a handle: the most recently
    /// freed one, else a new one past the end of the table.
    pub fn allocate(&mut self, n: u32) -> (r: Result<u32, Fault>)
        requires
            old(self)@.wf(),
        ensures
            r == if old(self)@.can_allocate() {
                Ok(old(self)@.next_handle() as u32)
            } else {
                Err(Fault::HandlesExhausted)
            },
            final(self)@ == if r is Ok {
                old(self)@.allocate(n as nat)
            } else {
                old(self)@
            },
            final(self)@.wf(),
    {
        let ghost before = self@;
        if self.free.len() == 0 && self.table.len() as u64 >= HANDLE_LIMIT {
            return Err(Fault::HandlesExhausted);
        }
        let mut seg: Vec<u32> = Vec::new();
        let mut k: u32 = 0;
        while k < n
            invariant
                k <= n,
                seg@ == zeros(k as nat),
            decreases n - k,
        {
            seg.push(0);
            k = k + 1;
            assert(seg@ =~= zeros(k as nat));
        }
        assert(seg@ =~= zeros(n as nat));
        proof {
            lemma_allocate_wf(before, n as nat);
        }
        match self.free.pop() {
            Some(h) => {
                self.table.set(h, Some(seg));
                assert(self@.table =~= before.allocate(n as nat).table);
                assert(self@.free =~= before.free.drop_last());
                Ok(h as u32)
            },
            None => {
                let h = self.table.len();
                self.table.push(Some(seg));
                assert(self@.table =~= before.allocate(n as nat).table);
                Ok(h as u32)
            },
        }
    }

    /// Frees handle `h`, which must be live and not 0.
    pub fn abandon(&mut self, h: usize) -> (r: Result<(), Fault>)
        requires
            old(self)@.wf(),
        ensures
            r == if h != 0 && old(self)@.live(h as int) {
                Ok(())
            } else {
                Err(Fault::InvalidHandle)
            },
            final(self)@ == if r is Ok {
                old(self)@.abandon(h as int)
            } else {
                old(self)@
            },
            final(self)@.wf(),
    {
        if h == 0 || !self.is_live(h) {
            return Err(Fault::InvalidHandle);
        }
        let ghost before = self@;
        self.table.set(h, None);
        self.free.push(h);
        assert(self@.table =~= before.abandon(h as int).table);
        assert(self@.free =~= before.free.push(h as nat));
        proof {
            lemma_abandon_wf(before, h as int);
        }
        Ok(())
    }

    /// Replaces segment 0 by a copy of segment `h`.
    pub fn load(&mut self, h: usize) -> (r: Result<(), Fault>)
        requires
            old(self)@.wf(),
        ensures
            r == if old(self)@.live(h as int) {
                Ok(())
            } else {
                Err(Fault::InvalidHandle)
            },
            final(self)@ == if r is Ok {
                old(self)@.load(h as int)
            } else {
                old(self)@
            },
            final(self)@.wf(),
    {
        if !self.is_live(h) {
            return Err(Fault::InvalidHandle);
        }
        if h == 0 {
            assert(self@.table =~= self@.load(0).table);
            return Ok(());
        }
        let ghost before = self@;
        let copy = match &self.table[h] {
            Some(s) => s.clone(),
            None => Vec::new(),
        };
        assert(copy@ =~= before.seg(h as int));
        self.table.set(0, Some(copy));
        assert(self@.table =~= before.load(h as int).table);
        Ok(())
    }
}

} // verus!
