//! The collector: a stop-the-world cycle of mark, sweep and clear, and the
//! rule by which the threshold grows when a cycle has freed too little.

use vstd::prelude::*;
use vstd::layout::size_of;
use crate::cell::{GcBox, Slot};
use crate::heap::{GcState, HeapView};
use crate::trace::{Finalize, GcTrace, Tracer};

verus! {

impl<T: GcTrace> HeapView<T> {
    /// The cell at `from` holds a reference to the cell at `to`.
    pub open spec fn edge(self, from: usize, to: usize) -> bool {
        &&& self.contains(from)
        &&& self.contains(to)
        &&& self.cells[from].refs().contains(to)
    }

    /// `path` starts at a root that names a live cell and follows references
    /// from cell to cell.
    pub open spec fn is_path(self, roots: Seq<usize>, path: Seq<usize>) -> bool {
        &&& path.len() > 0
        &&& roots.contains(path[0])
        &&& self.contains(path[0])
        &&& forall|i: int| 0 <= i < path.len() - 1 ==> self.edge(#[trigger] path[i], path[i + 1])
    }

    /// Some path leads from a root to the cell at `addr`.
    pub open spec fn reachable(self, roots: Seq<usize>, addr: usize) -> bool {
        exists|path: Seq<usize>| #[trigger] self.is_path(roots, path) && path.last() == addr
    }

    /// The cells that a collection keeps, in list order.
    pub open spec fn survivors(self, roots: Seq<usize>) -> Seq<usize> {
        self.order.filter(|addr: usize| self.reachable(roots, addr))
    }

    /// The cells that a collection reclaims, in list order.
    pub open spec fn garbage(self, roots: Seq<usize>) -> Seq<usize> {
        self.order.filter(|addr: usize| !self.reachable(roots, addr))
    }

    /// The heap after a collection from `roots`: the reachable cells stay as
    /// they are and keep their order, every other cell is gone.
    pub open spec fn collected(self, roots: Seq<usize>) -> HeapView<T> {
        HeapView {
            cells: self.cells.restrict(Set::new(|addr: usize| self.reachable(roots, addr))),
            order: self.survivors(roots),
            bytes_allocated: (self.survivors(roots).len() * size_of::<GcBox<T>>()) as usize,
            threshold: self.threshold,
        }
    }

    /// A collection keeps every reachable cell as it is.
    pub proof fn lemma_collected_keeps(self, roots: Seq<usize>, addr: usize)
        requires
            self.contains(addr),
            self.reachable(roots, addr),
        ensures
            self.collected(roots).contains(addr),
            self.collected(roots).cells[addr] == self.cells[addr],
    {
        let kept = Set::new(|addr: usize| self.reachable(roots, addr));
        assert(kept.contains(addr));
    }

    /// A root that names a live cell reaches it.
    pub proof fn lemma_root_reachable(self, roots: Seq<usize>, addr: usize)
        requires
            roots.contains(addr),
            self.contains(addr),
        ensures
            self.reachable(roots, addr),
    {
        let path = seq![addr];
        assert(self.is_path(roots, path));
        assert(path.last() == addr);
    }

    /// What a reachable cell refers to is reachable.
    pub proof fn lemma_edge_reachable(self, roots: Seq<usize>, from: usize, to: usize)
        requires
            self.reachable(roots, from),
            self.edge(from, to),
        ensures
            self.reachable(roots, to),
    {
        let path = choose|path: Seq<usize>| #[trigger]
            self.is_path(roots, path) && path.last() == from;
        let longer = path.push(to);
        assert forall|i: int| 0 <= i < longer.len() - 1 implies self.edge(
            #[trigger] longer[i],
            longer[i + 1],
        ) by {
            if i < path.len() - 1 {
                assert(self.edge(path[i], path[i + 1]));
            }
        }
        assert(self.is_path(roots, longer));
        assert(longer.last() == to);
    }
}

impl<T> HeapView<T> {
    /// The payloads of the cells at `addrs`, in that order. A cell that has
    /// been emptied contributes none.
    pub open spec fn payloads(self, addrs: Seq<usize>) -> Seq<T>
        decreases addrs.len(),
    {
        if addrs.len() == 0 {
            Seq::empty()
        } else {
            let rest = self.payloads(addrs.drop_last());
            match self.cells[addrs.last()].payload {
                Some(data) => rest.push(data),
                None => rest,
            }
        }
    }
}

/// Every value of `after` is the value at the same place of `before` after
/// its cleanup.
pub open spec fn finalized_each<T: Finalize>(before: Seq<T>, after: Seq<T>) -> bool {
    &&& after.len() == before.len()
    &&& forall|i: int| 0 <= i < before.len() ==> T::finalized(before[i], #[trigger] after[i])
}

/// Two tests that agree on every element of a sequence keep the same
/// elements of it.
pub proof fn lemma_filter_agree<A>(s: Seq<A>, p: spec_fn(A) -> bool, q: spec_fn(A) -> bool)
    requires
        forall|i: int| 0 <= i < s.len() ==> p(#[trigger] s[i]) == q(s[i]),
    ensures
        s.filter(p) == s.filter(q),
    decreases s.len(),
{
    reveal(Seq::filter);
    if s.len() > 0 {
        lemma_filter_agree(s.drop_last(), p, q);
    }
}

/// After a collection the heap should be filled to no more than this part of
/// the threshold, given as a numerator and a denominator.
pub const USED_SPACE_NUMERATOR: usize = 7;

pub const USED_SPACE_DENOMINATOR: usize = 10;

/// The threshold that follows a collection which left `bytes_allocated`
/// bytes in use. Where the heap is filled beyond the wanted part of the
/// threshold, the threshold becomes the bytes in use divided by that part,
/// rounded down, and no more than the largest number the machine holds.
/// Otherwise it stays.
pub open spec fn grown_threshold(bytes_allocated: usize, threshold: usize) -> usize {
    if USED_SPACE_DENOMINATOR * bytes_allocated > USED_SPACE_NUMERATOR * threshold {
        let wanted = (USED_SPACE_DENOMINATOR * bytes_allocated) / (USED_SPACE_NUMERATOR as int);
        if wanted > usize::MAX {
            usize::MAX
        } else {
            wanted as usize
        }
    } else {
        threshold
    }
}

pub fn grow_threshold(bytes_allocated: usize, threshold: usize) -> (grown: usize)
    ensures
        grown == grown_threshold(bytes_allocated, threshold),
{
    let used = bytes_allocated as u128 * USED_SPACE_DENOMINATOR as u128;
    if used > threshold as u128 * USED_SPACE_NUMERATOR as u128 {
        let wanted = used / USED_SPACE_NUMERATOR as u128;
        if wanted > usize::MAX as u128 {
            usize::MAX
        } else {
            wanted as usize
        }
    } else {
        threshold
    }
}

/// A threshold that has grown puts the heap at the wanted fill, within the
/// rounding of whole bytes: the bytes in use are at least seven tenths of the
/// new threshold, and less than seven tenths of the next larger one. This
/// holds as long as the wanted threshold is a number the machine holds.
pub proof fn lemma_threshold_growth(bytes_allocated: usize, threshold: usize)
    requires
        USED_SPACE_DENOMINATOR * bytes_allocated > USED_SPACE_NUMERATOR * threshold,
        USED_SPACE_DENOMINATOR * bytes_allocated <= USED_SPACE_NUMERATOR * usize::MAX,
    ensures
        USED_SPACE_NUMERATOR * grown_threshold(bytes_allocated, threshold)
            <= USED_SPACE_DENOMINATOR * bytes_allocated,
        USED_SPACE_DENOMINATOR * bytes_allocated < USED_SPACE_NUMERATOR * (grown_threshold(
            bytes_allocated,
            threshold,
        ) + 1),
        grown_threshold(bytes_allocated, threshold) >= threshold,
{
}

/// A test that every element passes keeps the whole sequence.
pub proof fn lemma_filter_keeps_all<A>(s: Seq<A>, p: spec_fn(A) -> bool)
    requires
        forall|i: int| 0 <= i < s.len() ==> p(#[trigger] s[i]),
    ensures
        s.filter(p) == s,
    decreases s.len(),
{
    reveal(Seq::filter);
    if s.len() > 0 {
        lemma_filter_keeps_all(s.drop_last(), p);
        assert(s.drop_last().push(s.last()) == s);
    }
}

/// A test that no element passes keeps nothing.
pub proof fn lemma_filter_keeps_none<A>(s: Seq<A>, p: spec_fn(A) -> bool)
    requires
        forall|i: int| 0 <= i < s.len() ==> !p(#[trigger] s[i]),
    ensures
        s.filter(p) == Seq::<A>::empty(),
    decreases s.len(),
{
    reveal(Seq::filter);
    if s.len() > 0 {
        lemma_filter_keeps_none(s.drop_last(), p);
    }
}

/// Unreachable allocations are reclaimed: where the cells `fresh` were put
/// on top of a heap whose own cells are all reachable, and no root leads to
/// any of the fresh cells, a collection leaves exactly the cells that were
/// there before, in their order, so the number of live cells is what it was
/// before the allocations.
pub proof fn lemma_unreachable_allocations_reclaimed<T: GcTrace>(
    before: HeapView<T>,
    after: HeapView<T>,
    fresh: Seq<usize>,
    roots: Seq<usize>,
)
    requires
        after.order == fresh + before.order,
        forall|i: int| 0 <= i < fresh.len() ==> !after.reachable(roots, #[trigger] fresh[i]),
        forall|i: int|
            0 <= i < before.order.len() ==> after.reachable(roots, #[trigger] before.order[i]),
    ensures
        after.collected(roots).order == before.order,
        after.collected(roots).order.len() == before.order.len(),
        after.garbage(roots) == fresh,
{
    let keep = |addr: usize| after.reachable(roots, addr);
    let drop = |addr: usize| !after.reachable(roots, addr);
    Seq::filter_distributes_over_add(fresh, before.order, keep);
    Seq::filter_distributes_over_add(fresh, before.order, drop);
    lemma_filter_keeps_none(fresh, keep);
    lemma_filter_keeps_all(before.order, keep);
    lemma_filter_keeps_all(fresh, drop);
    lemma_filter_keeps_none(before.order, drop);
    assert(Seq::<usize>::empty() + before.order == before.order);
    assert(fresh + Seq::<usize>::empty() == fresh);
}

/// A collection leaves nothing to collect: in the heap that a collection
/// from `roots` leaves, every cell is reachable from `roots`.
pub proof fn lemma_collected_all_reachable<T: GcTrace>(
    heap: HeapView<T>,
    roots: Seq<usize>,
    addr: usize,
)
    requires
        heap.collected(roots).contains(addr),
    ensures
        heap.collected(roots).reachable(roots, addr),
{
    let kept = heap.collected(roots);
    let path = choose|path: Seq<usize>| #[trigger]
        heap.is_path(roots, path) && path.last() == addr;
    assert forall|i: int| 0 <= i < path.len() implies heap.reachable(roots, #[trigger] path[i])
        && heap.contains(path[i]) by {
        let prefix = path.subrange(0, i + 1);
        assert forall|j: int| 0 <= j < prefix.len() - 1 implies heap.edge(
            #[trigger] prefix[j],
            prefix[j + 1],
        ) by {
            assert(heap.edge(path[j], path[j + 1]));
        }
        assert(heap.is_path(roots, prefix));
        assert(prefix.last() == path[i]);
        if i > 0 {
            assert(heap.edge(path[i - 1], path[i]));
        }
    }
    assert forall|i: int| 0 <= i < path.len() - 1 implies kept.edge(
        #[trigger] path[i],
        path[i + 1],
    ) by {
        assert(heap.edge(path[i], path[i + 1]));
        heap.lemma_collected_keeps(roots, path[i]);
        heap.lemma_collected_keeps(roots, path[i + 1]);
    }
    heap.lemma_collected_keeps(roots, path[0]);
    assert(kept.is_path(roots, path));
}

/// Collecting twice from the same roots is collecting once.
pub proof fn lemma_collection_idempotent<T: GcTrace>(heap: HeapView<T>, roots: Seq<usize>)
    requires
        heap.order.no_duplicates(),
        forall|addr: usize| heap.order.contains(addr) <==> heap.contains(addr),
    ensures
        heap.collected(roots).collected(roots) == heap.collected(roots),
{
    let once = heap.collected(roots);
    let twice = once.collected(roots);
    let keep = |addr: usize| once.reachable(roots, addr);
    assert forall|i: int| 0 <= i < once.order.len() implies keep(#[trigger] once.order[i]) by {
        let addr = once.order[i];
        assert(once.order.contains(addr));
        heap.order.lemma_filter_contains_rev(|addr: usize| heap.reachable(roots, addr), addr);
        heap.order.lemma_filter_pred(|addr: usize| heap.reachable(roots, addr), i);
        heap.lemma_collected_keeps(roots, addr);
        lemma_collected_all_reachable(heap, roots, addr);
    }
    lemma_filter_keeps_all(once.order, keep);
    let kept = Set::new(|addr: usize| once.reachable(roots, addr));
    assert forall|addr: usize| once.contains(addr) implies kept.contains(addr) by {
        lemma_collected_all_reachable(heap, roots, addr);
    }
    assert(twice.cells =~= once.cells);
}

/// The number of cells that carry no mark.
pub(crate) open spec fn count_unmarked<T>(slots: Seq<Slot<T>>) -> nat
    decreases slots.len(),
{
    if slots.len() == 0 {
        0
    } else {
        count_unmarked(slots.drop_last()) + (if slots.last().occupied()
            && !slots.last().header().marked {
            1nat
        } else {
            0nat
        })
    }
}

/// Marking one cell lowers the number of unmarked cells by one.
pub(crate) proof fn lemma_count_unmarked_mark<T>(before: Seq<Slot<T>>, after: Seq<Slot<T>>, addr: int)
    requires
        0 <= addr < before.len(),
        after.len() == before.len(),
        before[addr].occupied(),
        !before[addr].header().marked,
        after[addr].header().marked,
        forall|i: int|
            0 <= i < before.len() && i != addr ==> (#[trigger] after[i]).occupied()
                == before[i].occupied() && after[i].header().marked == before[i].header().marked,
    ensures
        count_unmarked(after) == count_unmarked(before) - 1,
    decreases before.len(),
{
    let last = before.len() - 1;
    assert(before.last() == before[last] && after.last() == after[last]);
    assert forall|i: int| 0 <= i < last implies before.drop_last()[i] == before[i]
        && after.drop_last()[i] == after[i] by {}
    if addr == last {
        lemma_count_unmarked_same(before.drop_last(), after.drop_last());
    } else {
        assert(after[last].occupied() == before[last].occupied());
        lemma_count_unmarked_mark(before.drop_last(), after.drop_last(), addr);
    }
}

/// The number of unmarked cells depends on nothing but the marks.
pub(crate) proof fn lemma_count_unmarked_same<T>(before: Seq<Slot<T>>, after: Seq<Slot<T>>)
    requires
        after.len() == before.len(),
        forall|i: int|
            0 <= i < before.len() ==> (#[trigger] after[i]).occupied() == before[i].occupied()
                && after[i].header().marked == before[i].header().marked,
    ensures
        count_unmarked(after) == count_unmarked(before),
    decreases before.len(),
{
    if before.len() > 0 {
        let last = before.len() - 1;
        assert(before.last() == before[last] && after.last() == after[last]);
        assert(after[last].occupied() == before[last].occupied());
        assert forall|i: int| 0 <= i < last implies before.drop_last()[i] == before[i]
            && after.drop_last()[i] == after[i] by {}
        lemma_count_unmarked_same(before.drop_last(), after.drop_last());
    }
}

impl<T: GcTrace> GcState<T> {
    /// The two states hold the same cells in the same list; only marks may
    /// differ.
    pub(crate) open spec fn same_but_marks(&self, other: &Self) -> bool {
        &&& self.slots@.len() == other.slots@.len()
        &&& forall|addr: int|
            0 <= addr < self.slots@.len() ==> {
                &&& (#[trigger] self.slots@[addr]).occupied() == other.slots@[addr].occupied()
                &&& self.slots@[addr].header().next == other.slots@[addr].header().next
                &&& self.slots@[addr].cell() == other.slots@[addr].cell()
            }
        &&& self.free@ == other.free@
        &&& self.boxes_start == other.boxes_start
        &&& self.bytes_allocated == other.bytes_allocated
        &&& self.threshold == other.threshold
        &&& self.order@ == other.order@
    }

    pub(crate) proof fn lemma_same_but_marks(&self, other: &Self)
        requires
            self.same_but_marks(other),
            other.list_wf(),
        ensures
            self.list_wf(),
            self.model() == other.model(),
            forall|addr: usize| self.live(addr) == other.live(addr),
    {
        let order = self.order@;
        assert forall|i: int| 0 <= i < order.len() implies self.live(#[trigger] order[i]) by {
            assert(other.live(order[i]));
        }
        assert forall|i: int| 0 <= i < order.len() implies #[trigger] self.linked(i) by {
            assert(other.linked(i));
            assert(other.live(order[i]));
        }
        assert forall|addr: usize| #[trigger] self.live(addr) implies order.contains(addr) by {
            assert(other.live(addr));
        }
        assert forall|j: int| 0 <= j < self.free@.len() implies (#[trigger] self.free@[j])
            < self.slots@.len() && !self.slots@[self.free@[j] as int].occupied() by {
            assert(other.free@[j] < other.slots@.len());
        }
        assert(self.model().cells =~= other.model().cells);
    }

    /// The marking phase: starting from the roots, every cell that is
    /// reached for the first time gets its mark and hands on what its payload
    /// refers to. A cell that carries its mark already is not visited again,
    /// so cycles among the cells do no harm.
    pub(crate) fn mark(&mut self, roots: &Vec<usize>)
        requires
            old(self).list_wf(),
            old(self).unmarked(),
        ensures
            final(self).list_wf(),
            final(self).same_but_marks(old(self)),
            forall|addr: usize| #[trigger]
                final(self).live(addr) ==> (final(self).marked(addr) <==> old(self).model().reachable(roots@, addr)),
    {
        let ghost heap = self.model();
        let mut tracer = Tracer::new();
        let mut i: usize = 0;
        while i < roots.len()
            invariant
                i <= roots@.len(),
                tracer@ == roots@.subrange(0, i as int),
            decreases roots@.len() - i,
        {
            tracer.mark(roots[i]);
            assert(roots@.subrange(0, i as int + 1) == roots@.subrange(0, i as int).push(
                roots@[i as int],
            ));
            i = i + 1;
        }
        assert(tracer@ == roots@) by {
            assert(roots@.subrange(0, roots@.len() as int) == roots@);
        }
        proof {
            assert forall|j: int|
                0 <= j < tracer@.len() && self.live(#[trigger] tracer@[j]) implies heap.reachable(
                roots@,
                tracer@[j],
            ) by {
                heap.lemma_root_reachable(roots@, tracer@[j]);
            }
        }
        loop
            invariant
                old(self).list_wf(),
                self.list_wf(),
                self.same_but_marks(old(self)),
                heap == old(self).model(),
                forall|addr: usize|
                    self.live(addr) && #[trigger] self.marked(addr) ==> heap.reachable(
                        roots@,
                        addr,
                    ),
                forall|j: int|
                    0 <= j < tracer@.len() && self.live(#[trigger] tracer@[j]) ==> heap.reachable(
                        roots@,
                        tracer@[j],
                    ),
                forall|k: int|
                    0 <= k < roots@.len() && self.live(#[trigger] roots@[k]) ==> self.marked(
                        roots@[k],
                    ) || tracer@.contains(roots@[k]),
                forall|from: usize, to: usize|
                    self.live(from) && self.marked(from) && #[trigger] heap.edge(from, to)
                        ==> self.marked(to) || tracer@.contains(to),
            ensures
                self.list_wf(),
                self.same_but_marks(old(self)),
                forall|addr: usize| #[trigger]
                    self.live(addr) ==> (self.marked(addr) <==> heap.reachable(roots@, addr)),
            decreases count_unmarked(self.slots@), tracer@.len(),
        {
            let ghost before = *self;
            let ghost pending = tracer@;
            let next = tracer.pop();
            match next {
                None => {
                    proof {
                        before.lemma_same_but_marks(old(self));
                        assert forall|addr: usize| #[trigger]
                            self.live(addr) && heap.reachable(roots@, addr) implies self.marked(
                            addr,
                        ) by {
                            let path = choose|path: Seq<usize>| #[trigger]
                                heap.is_path(roots@, path) && path.last() == addr;
                            self.lemma_path_marked(heap, roots@, path, path.len() - 1);
                        }
                    }
                    break ;
                },
                Some(addr) => {
                    let ghost rest = tracer@;
                    assert(pending == rest.push(addr));
                    if addr < self.slots.len() {
                        self.slots[addr].trace_inner(&mut tracer);
                    }
                    proof {
                        before.lemma_same_but_marks(old(self));
                        assert(self.same_but_marks(old(self)));
                        self.lemma_same_but_marks(old(self));
                        assert forall|other: usize| other != addr implies (rest.contains(other)
                            <==> pending.contains(other)) by {
                            if pending.contains(other) {
                                let j = choose|j: int|
                                    0 <= j < pending.len() && pending[j] == other;
                                assert(rest[j] == other);
                            }
                            if rest.contains(other) {
                                let j = choose|j: int| 0 <= j < rest.len() && rest[j] == other;
                                assert(pending[j] == other);
                            }
                        }
                        if before.live(addr) && !before.marked(addr) {
                            let refs = before.slots@[addr as int].cell().refs();
                            assert(tracer@ == rest + refs);
                            assert(heap.cells[addr].refs() == refs);
                            assert(heap.reachable(roots@, addr)) by {
                                assert(pending[pending.len() - 1] == addr);
                            }
                            lemma_count_unmarked_mark(before.slots@, self.slots@, addr as int);
                            assert forall|other: usize| rest.contains(other) implies tracer@.contains(
                                other,
                            ) by {
                                let j = choose|j: int| 0 <= j < rest.len() && rest[j] == other;
                                assert(tracer@[j] == other);
                            }
                            assert forall|to: usize| #[trigger]
                                heap.edge(addr, to) implies tracer@.contains(to) by {
                                let j = choose|j: int| 0 <= j < refs.len() && refs[j] == to;
                                assert(tracer@[rest.len() + j] == to);
                            }
                            assert forall|j: int|
                                0 <= j < tracer@.len() && self.live(
                                    #[trigger] tracer@[j],
                                ) implies heap.reachable(roots@, tracer@[j]) by {
                                if j < rest.len() {
                                    assert(pending[j] == tracer@[j]);
                                } else {
                                    let to = tracer@[j];
                                    assert(refs[j - rest.len()] == to);
                                    assert(heap.edge(addr, to));
                                    heap.lemma_edge_reachable(roots@, addr, to);
                                }
                            }
                        } else {
                            assert(tracer@ == rest);
                            lemma_count_unmarked_same(before.slots@, self.slots@);
                            assert forall|j: int|
                                0 <= j < tracer@.len() && self.live(
                                    #[trigger] tracer@[j],
                                ) implies heap.reachable(roots@, tracer@[j]) by {
                                assert(pending[j] == tracer@[j]);
                            }
                        }
                        assert forall|other: usize|
                            self.live(other) && #[trigger] self.marked(
                                other,
                            ) implies heap.reachable(roots@, other) by {
                            if other != addr {
                                assert(before.marked(other));
                            }
                        }
                        assert forall|k: int|
                            0 <= k < roots@.len() && self.live(
                                #[trigger] roots@[k],
                            ) implies self.marked(roots@[k]) || tracer@.contains(roots@[k]) by {
                            let root = roots@[k];
                            if root != addr {
                                assert(before.live(root));
                                assert(before.marked(root) || pending.contains(root));
                            }
                        }
                        assert forall|from: usize, to: usize|
                            self.live(from) && self.marked(from) && #[trigger] heap.edge(
                                from,
                                to,
                            ) implies self.marked(to) || tracer@.contains(to) by {
                            if from != addr && to != addr {
                                assert(before.marked(from));
                                assert(before.marked(to) || pending.contains(to));
                            }
                        }
                    }
                },
            }
        }
    }

    pub(crate) open spec fn marked_pred(&self) -> spec_fn(usize) -> bool {
        |addr: usize| self.marked(addr)
    }

    pub(crate) open spec fn unmarked_pred(&self) -> spec_fn(usize) -> bool {
        |addr: usize| !self.marked(addr)
    }

    /// The sweeping phase: one walk along the list. A cell without a mark is
    /// taken out of the list, its payload is cleaned up and handed out, and
    /// its bytes are taken off the count. A marked cell stays where it is.
    pub(crate) fn sweep(&mut self) -> (reclaimed: Vec<T>)
        requires
            old(self).list_wf(),
        ensures
            final(self).list_wf(),
            final(self).order@ == old(self).order@.filter(old(self).marked_pred()),
            final(self).slots@.len() == old(self).slots@.len(),
            forall|addr: int|
                0 <= addr < final(self).slots@.len() && (#[trigger] final(self).slots@[addr]).occupied() ==> {
                    &&& old(self).slots@[addr].occupied()
                    &&& final(self).slots@[addr].cell() == old(self).slots@[addr].cell()
                    &&& final(self).slots@[addr].header().marked
                    &&& old(self).slots@[addr].header().marked
                },
            final(self).threshold == old(self).threshold,
            finalized_each(
                old(self).model().payloads(old(self).order@.filter(old(self).unmarked_pred())),
                reclaimed@,
            ),
    {
        let ghost before = self.order@;
        let ghost heap = self.model();
        let ghost keep = self.marked_pred();
        let ghost drop = self.unmarked_pred();
        let slots = self.slots.len();
        let mut reclaimed: Vec<T> = Vec::new();
        let mut prev: Option<usize> = None;
        let mut a_box = self.boxes_start;
        let ghost mut j: int = 0;
        proof {
            reveal(Seq::filter);
            assert(before.subrange(0, 0) == Seq::<usize>::empty());
            assert(before.subrange(0, before.len() as int) == before);
            assert(Seq::<usize>::empty() + before == before);
        }
        while a_box.is_some()
            invariant
                old(self).list_wf(),
                self.list_wf(),
                before == old(self).order@,
                heap == old(self).model(),
                keep == old(self).marked_pred(),
                drop == old(self).unmarked_pred(),
                0 <= j <= before.len(),
                self.order@ == before.subrange(0, j).filter(keep) + before.subrange(
                    j,
                    before.len() as int,
                ),
                a_box == (if j < before.len() {
                    Some(before[j])
                } else {
                    None
                }),
                prev == (if before.subrange(0, j).filter(keep).len() > 0 {
                    Some(before.subrange(0, j).filter(keep).last())
                } else {
                    None
                }),
                self.slots@.len() == old(self).slots@.len(),
                self.slots@.len() == slots,
                forall|addr: int|
                    0 <= addr < self.slots@.len() && (#[trigger] self.slots@[addr]).occupied() ==> {
                        &&& old(self).slots@[addr].occupied()
                        &&& self.slots@[addr].cell() == old(self).slots@[addr].cell()
                        &&& self.slots@[addr].header().marked == old(self).slots@[addr].header().marked
                    },
                forall|i: int|
                    0 <= i < before.subrange(0, j).filter(keep).len() ==> keep(
                        #[trigger] before.subrange(0, j).filter(keep)[i],
                    ),
                self.threshold == old(self).threshold,
                finalized_each(heap.payloads(before.subrange(0, j).filter(drop)), reclaimed@),
            decreases before.len() - j,
        {
            let addr = a_box.unwrap();
            let ghost kept = before.subrange(0, j).filter(keep);
            let ghost dead = before.subrange(0, j).filter(drop);
            let ghost k = kept.len() as int;
            proof {
                assert(self.order@[k] == before[j]);
                assert(self.live(self.order@[k]));
                assert(self.linked(k));
                assert(before.subrange(0, j + 1) == before.subrange(0, j).push(before[j]));
                before.subrange(0, j).lemma_filter_push(before[j], keep);
                before.subrange(0, j).lemma_filter_push(before[j], drop);
                assert(old(self).live(before[j]));
                if k > 0 {
                    assert(self.order@[k - 1] == kept.last());
                }
            }
            let next = self.slots[addr].next();
            assert(next == (if j + 1 < before.len() {
                Some(before[j + 1])
            } else {
                None
            })) by {
                if j + 1 < before.len() {
                    assert(self.order@[k + 1] == before[j + 1]);
                }
            }
            if self.slots[addr].is_marked() {
                prev = Some(addr);
                proof {
                    assert(before.subrange(j, before.len() as int) == seq![addr]
                        + before.subrange(j + 1, before.len() as int));
                    assert(kept.push(addr) + before.subrange(j + 1, before.len() as int) == kept
                        + (seq![addr] + before.subrange(j + 1, before.len() as int)));
                }
            } else {
                let ghost order = self.order@;
                let slot = self.unlink(prev, addr, Ghost(k));
                proof {
                    assert(order.remove(k) == kept + before.subrange(j + 1, before.len() as int));
                    assert(heap.cells[addr] == slot.cell());
                    assert(dead.push(addr).drop_last() == dead);
                }
                match slot {
                    Slot::Free => {},
                    Slot::Plain(b) => {
                        let mut data = b.data;
                        data.finalize();
                        reclaimed.push(data);
                    },
                    Slot::Nullable(b) => {
                        match b.data {
                            Some(data) => {
                                let mut data = data;
                                data.finalize();
                                reclaimed.push(data);
                            },
                            None => {},
                        }
                    },
                }
            }
            a_box = next;
            proof {
                j = j + 1;
            }
        }
        proof {
            assert(before.subrange(0, before.len() as int) == before);
            assert(before.subrange(before.len() as int, before.len() as int) == Seq::<
                usize,
            >::empty());
            assert(before.filter(keep) + Seq::<usize>::empty() == before.filter(keep));
            assert forall|addr: int|
                0 <= addr < self.slots@.len() && (#[trigger] self.slots@[addr]).occupied() implies self.slots@[addr].header().marked by {
                assert(self.live(addr as usize));
                let i = choose|i: int|
                    0 <= i < self.order@.len() && self.order@[i] == addr as usize;
                assert(keep(before.filter(keep)[i]));
            }
        }
        reclaimed
    }

    /// The clearing phase: one walk along the list that takes the mark off
    /// every cell, so that the next cycle starts afresh.
    pub(crate) fn clear_marks(&mut self)
        requires
            old(self).list_wf(),
        ensures
            final(self).list_wf(),
            final(self).same_but_marks(old(self)),
            final(self).unmarked(),
    {
        let mut a_box = self.boxes_start;
        let ghost mut k: int = 0;
        while a_box.is_some()
            invariant
                old(self).list_wf(),
                self.list_wf(),
                self.same_but_marks(old(self)),
                0 <= k <= self.order@.len(),
                a_box == (if k < self.order@.len() {
                    Some(self.order@[k])
                } else {
                    None
                }),
                forall|i: int| 0 <= i < k ==> !self.marked(#[trigger] self.order@[i]),
            decreases self.order@.len() - k,
        {
            let addr = a_box.unwrap();
            let ghost before = *self;
            assert(self.live(self.order@[k]));
            assert(self.linked(k));
            self.slots[addr].set_marked(false);
            a_box = self.slots[addr].next();
            proof {
                assert(self.same_but_marks(old(self)));
                self.lemma_same_but_marks(old(self));
                assert forall|i: int| 0 <= i < k + 1 implies !self.marked(
                    #[trigger] self.order@[i],
                ) by {
                    if i < k {
                        assert(!before.marked(before.order@[i]));
                    }
                }
                k = k + 1;
            }
        }
        proof {
            assert forall|addr: usize| #[trigger] self.live(addr) implies !self.marked(addr) by {
                let i = choose|i: int| 0 <= i < self.order@.len() && self.order@[i] == addr;
                assert(!self.marked(self.order@[i]));
            }
        }
    }

    /// One full collection from the given roots: mark, sweep, clear.
    ///
    /// The cells that some path from a root reaches stay as they are, in
    /// their order. Every other cell leaves the heap: its payload is cleaned
    /// up once and handed out, in list order.
    pub fn collect_garbage(&mut self, roots: &Vec<usize>) -> (reclaimed: Vec<T>)
        requires
            old(self).wf(),
        ensures
            final(self).wf(),
            final(self)@ == old(self)@.collected(roots@),
            finalized_each(old(self)@.payloads(old(self)@.garbage(roots@)), reclaimed@),
    {
        let ghost heap = self.model();
        let ghost order = self.order@;
        proof {
            self.lemma_view();
        }
        self.mark(roots);
        let ghost marked = *self;
        let reclaimed = self.sweep();
        let ghost swept = *self;
        self.clear_marks();
        proof {
            marked.lemma_same_but_marks(old(self));
            self.lemma_same_but_marks(&swept);
            self.lemma_view();
            let reach = |addr: usize| heap.reachable(roots@, addr);
            let unreach = |addr: usize| !heap.reachable(roots@, addr);
            assert forall|i: int| 0 <= i < order.len() implies marked.marked_pred()(
                #[trigger] order[i],
            ) == reach(order[i]) by {
                assert(marked.live(order[i]));
            }
            assert forall|i: int| 0 <= i < order.len() implies marked.unmarked_pred()(
                #[trigger] order[i],
            ) == unreach(order[i]) by {
                assert(marked.live(order[i]));
            }
            lemma_filter_agree(order, marked.marked_pred(), reach);
            lemma_filter_agree(order, marked.unmarked_pred(), unreach);
            assert forall|addr: usize|
                old(self).live(addr) && heap.reachable(roots@, addr) implies swept.live(addr) by {
                assert(marked.live(addr));
                let i = choose|i: int| 0 <= i < order.len() && order[i] == addr;
                order.lemma_filter_contains(marked.marked_pred(), i);
                let j = choose|j: int|
                    0 <= j < swept.order@.len() && swept.order@[j] == addr;
                assert(swept.live(swept.order@[j]));
            }
            assert forall|addr: usize| swept.live(addr) implies old(self).live(addr)
                && heap.reachable(roots@, addr) && swept.slots@[addr as int].cell() == old(self).slots@[addr as int].cell() by {
                assert(swept.slots@[addr as int].occupied());
                assert(marked.live(addr));
            }
            assert(swept.model().cells =~= heap.cells.restrict(
                Set::new(|addr: usize| heap.reachable(roots@, addr)),
            ));
            assert(swept.model() == heap.collected(roots@));
        }
        reclaimed
    }

    /// Once nothing waits to be visited, the marks are closed under
    /// references: every cell on a path from a root carries its mark.
    pub(crate) proof fn lemma_path_marked(
        &self,
        heap: HeapView<T>,
        roots: Seq<usize>,
        path: Seq<usize>,
        i: int,
    )
        requires
            heap == self.model(),
            heap.is_path(roots, path),
            0 <= i < path.len(),
            forall|k: int|
                0 <= k < roots.len() && self.live(#[trigger] roots[k]) ==> self.marked(roots[k]),
            forall|from: usize, to: usize|
                self.live(from) && self.marked(from) && #[trigger] heap.edge(from, to)
                    ==> self.marked(to),
        ensures
            self.live(path[i]),
            self.marked(path[i]),
        decreases i,
    {
        if i == 0 {
            let k = choose|k: int| 0 <= k < roots.len() && roots[k] == path[0];
            assert(self.live(roots[k]));
        } else {
            self.lemma_path_marked(heap, roots, path, i - 1);
            assert(heap.edge(path[i - 1], path[i]));
        }
    }
}

} // verus!
