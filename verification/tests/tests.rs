use bronze_gc::{
    boxes_len, force_collect, Finalize, Gc, GcRef, GcState, GcTrace, ShadowStack, Tracer,
};
use std::cell::Cell;
use std::rc::Rc;

fn rooted(addrs: Vec<usize>) -> ShadowStack {
    let mut stack = ShadowStack::new();
    stack.push_roots(&addrs);
    stack
}

#[test]
fn new_ref() {
    let mut heap: GcState<i32> = GcState::new();
    let stack = ShadowStack::new();
    let num_ref: GcRef<i32> = Gc::new(&mut heap, &stack, 42);
    let ref_alias = num_ref;
    let gc_num_ref = ref_alias.borrow(&mut heap);

    // GcRef is Copy, so this is fine.
    let gc_num_ref2 = num_ref.borrow(&mut heap);

    assert_eq!(*gc_num_ref.deref(&heap), 42);
    assert_eq!(*gc_num_ref2.deref(&heap), 42);
}

#[test]
fn tests_new_ref() {
    let mut heap: GcState<i32> = GcState::new();
    let stack = ShadowStack::new();
    let num_ref = Gc::new(&mut heap, &stack, 42);
    let ref_alias = num_ref;
    let gc_num_ref = ref_alias.as_ref(&heap);

    // GcRef is Copy, so this is fine.
    let gc_num_ref2 = num_ref.as_ref(&heap);

    assert_eq!(*gc_num_ref, 42);
    assert_eq!(*gc_num_ref2, 42);
}

#[test]
fn boxes() {
    let mut heap: GcState<i32> = GcState::new();
    let stack = ShadowStack::new();
    assert_eq!(boxes_len(&heap), 0);
    let _num_gc_ref_1 = Gc::new(&mut heap, &stack, 42);
    assert_eq!(boxes_len(&heap), 1);
    let _num_gc_ref_2 = Gc::new(&mut heap, &stack, 42);
    assert_eq!(boxes_len(&heap), 2);
}

struct OneRef {
    r: GcRef<Value>,
}

enum Value {
    Num(i32),
    One(OneRef),
}

impl Finalize for Value {
    fn finalize(&mut self) {}
}

impl GcTrace for Value {
    fn trace(&self, tracer: &mut Tracer) {
        match self {
            Value::Num(n) => n.trace(tracer),
            Value::One(one) => one.r.trace(tracer),
        }
    }
}

#[test]
fn one_ref() {
    let mut heap: GcState<Value> = GcState::new();
    let mut stack = ShadowStack::new();
    assert_eq!(boxes_len(&heap), 0);
    let num_gc_ref_1 = Gc::new(&mut heap, &stack, Value::Num(42));
    stack.push_roots(&vec![num_gc_ref_1.as_ptr()]);
    let one_ref_1 = Gc::new(&mut heap, &stack, Value::One(OneRef { r: num_gc_ref_1 }));
    stack.push_roots(&vec![one_ref_1.as_ptr()]);
    let num_gc_ref_2 = Gc::new(&mut heap, &stack, Value::Num(42));
    stack.push_roots(&vec![num_gc_ref_2.as_ptr()]);
    let one_ref_2 = Gc::new(&mut heap, &stack, Value::One(OneRef { r: num_gc_ref_2 }));
    stack.push_roots(&vec![one_ref_2.as_ptr()]);
    assert_eq!(boxes_len(&heap), 4);
    // Everything is rooted, so a collection keeps all four cells.
    let reclaimed = force_collect(&mut heap, &stack);
    assert!(reclaimed.is_empty());
    assert_eq!(boxes_len(&heap), 4);
}

#[test]
fn retained_through_the_aggregate_alone() {
    let mut heap: GcState<Value> = GcState::new();
    let num = Gc::new(&mut heap, &ShadowStack::new(), Value::Num(42));
    let one = Gc::new(&mut heap, &rooted(vec![num.as_ptr()]), Value::One(OneRef { r: num }));
    // Only the aggregate is a root; the number is kept because the aggregate refers to it.
    let stack = rooted(vec![one.as_ptr()]);
    let reclaimed = force_collect(&mut heap, &stack);
    assert!(reclaimed.is_empty());
    assert_eq!(boxes_len(&heap), 2);
    // Only the number is a root: the aggregate goes.
    let stack = rooted(vec![num.as_ptr()]);
    let reclaimed = force_collect(&mut heap, &stack);
    assert_eq!(reclaimed.len(), 1);
    assert!(matches!(reclaimed[0], Value::One(_)));
    assert_eq!(boxes_len(&heap), 1);
    assert!(heap.contains(num.as_ptr()));
    assert!(!heap.contains(one.as_ptr()));
}

fn alloc_one_num(heap: &mut GcState<i32>, stack: &ShadowStack) {
    let _num_gc_ref_1 = Gc::new(heap, stack, 42);
}

#[test]
fn collect_one_ref() {
    let mut heap: GcState<i32> = GcState::new();
    let stack = ShadowStack::new();
    assert_eq!(boxes_len(&heap), 0);
    alloc_one_num(&mut heap, &stack);
}

#[test]
fn tests_collect_one_ref() {
    let mut heap: GcState<i32> = GcState::new();
    let stack = ShadowStack::new();
    assert_eq!(boxes_len(&heap), 0);
    alloc_one_num(&mut heap, &stack);

    let reclaimed = force_collect(&mut heap, &stack);
    assert_eq!(reclaimed, vec![42]);
    assert_eq!(boxes_len(&heap), 0);
}

#[test]
fn collect_two_refs() {
    let mut heap: GcState<i32> = GcState::new();
    let stack = ShadowStack::new();
    assert_eq!(boxes_len(&heap), 0);
    alloc_one_num(&mut heap, &stack);
    alloc_one_num(&mut heap, &stack);

    let _num_gc_ref_2 = Gc::new(&mut heap, &stack, 42); // Should NOT get collected.
}

#[test]
fn tests_collect_two_refs() {
    let mut heap: GcState<i32> = GcState::new();
    let mut stack = ShadowStack::new();
    assert_eq!(boxes_len(&heap), 0);
    alloc_one_num(&mut heap, &stack);
    alloc_one_num(&mut heap, &stack);

    // At this point, the first two references are not roots.
    // Therefore, they get collected in the next collection.
    let num_gc_ref_2 = Gc::new(&mut heap, &stack, 43); // Should NOT get collected.
    stack.push_roots(&vec![num_gc_ref_2.as_ptr()]);
    let reclaimed = force_collect(&mut heap, &stack);
    assert_eq!(reclaimed, vec![42, 42]);
    assert_eq!(boxes_len(&heap), 1);
    assert_eq!(*num_gc_ref_2.as_ref(&heap), 43);
}

struct TrackedAllocation {
    tracker: Rc<Cell<u32>>,
}

impl TrackedAllocation {
    fn new(
        heap: &mut GcState<TrackedAllocation>,
        stack: &ShadowStack,
        tracker: Rc<Cell<u32>>,
    ) -> GcRef<TrackedAllocation> {
        tracker.set(tracker.as_ref().get() + 1);
        Gc::new(heap, stack, TrackedAllocation { tracker })
    }
}

impl Finalize for TrackedAllocation {
    fn finalize(&mut self) {
        self.tracker.set(self.tracker.as_ref().get() - 1);
    }
}

impl GcTrace for TrackedAllocation {
    fn trace(&self, _tracer: &mut Tracer) {}
}

fn n_allocations(
    heap: &mut GcState<TrackedAllocation>,
    stack: &mut ShadowStack,
    n: u32,
    tracker: Rc<Cell<u32>>,
) {
    let mut objs = Vec::new();

    // The frame of this function roots what it has allocated so far.
    for _i in 0..n {
        stack.push_roots(&objs.iter().map(|r: &GcRef<TrackedAllocation>| r.as_ptr()).collect());
        let allocated = TrackedAllocation::new(heap, stack, tracker.clone());
        stack.pop_frame();
        objs.push(allocated);
    }
}

#[test]
fn one_allocation() {
    let mut heap: GcState<TrackedAllocation> = GcState::new();
    let mut stack = ShadowStack::new();
    let outstanding_allocations = Rc::new(Cell::new(0));
    assert_eq!(outstanding_allocations.as_ref().get(), 0);
    n_allocations(&mut heap, &mut stack, 1, outstanding_allocations.clone());
    assert_eq!(outstanding_allocations.as_ref().get(), 1);
}

#[test]
fn tests_one_allocation() {
    let mut heap: GcState<TrackedAllocation> = GcState::new();
    let mut stack = ShadowStack::new();
    let outstanding_allocations = Rc::new(Cell::new(0));
    assert_eq!(outstanding_allocations.as_ref().get(), 0);
    n_allocations(&mut heap, &mut stack, 1, outstanding_allocations.clone());
    assert_eq!(outstanding_allocations.as_ref().get(), 1);
    force_collect(&mut heap, &stack);
    assert_eq!(outstanding_allocations.as_ref().get(), 0);
}

#[test]
fn tests_ten_allocations() {
    let mut heap: GcState<TrackedAllocation> = GcState::new();
    let mut stack = ShadowStack::new();
    let outstanding_allocations = Rc::new(Cell::new(0));
    assert_eq!(outstanding_allocations.as_ref().get(), 0);
    n_allocations(&mut heap, &mut stack, 10, outstanding_allocations.clone());
    assert_eq!(outstanding_allocations.as_ref().get(), 10);
    force_collect(&mut heap, &stack);
    assert_eq!(outstanding_allocations.as_ref().get(), 0);
}

struct TenRefs {
    r1: GcRef<Tracker>,
    r2: GcRef<Tracker>,
    r3: GcRef<Tracker>,
    r4: GcRef<Tracker>,
    r5: GcRef<Tracker>,
    r6: GcRef<Tracker>,
    r7: GcRef<Tracker>,
    r8: GcRef<Tracker>,
    r9: GcRef<Tracker>,
    r10: GcRef<Tracker>,
}

impl TenRefs {
    fn all(&self) -> [GcRef<Tracker>; 10] {
        [
            self.r1, self.r2, self.r3, self.r4, self.r5, self.r6, self.r7, self.r8, self.r9,
            self.r10,
        ]
    }
}

// What the heap of the ten references holds: the counted allocations, and the
// aggregate that refers to all ten.
enum Tracker {
    Allocation(Rc<Cell<u32>>, Rc<Cell<u32>>),
    Ten(TenRefs),
}

impl Tracker {
    // Counts one more outstanding allocation on `tracker` and allocates the cell
    // that takes it off again when it is finalized. `low` records whether the
    // count ever fell below zero.
    fn new(
        heap: &mut GcState<Tracker>,
        stack: &mut ShadowStack,
        rooted: &Vec<GcRef<Tracker>>,
        tracker: Rc<Cell<u32>>,
        finalized: Rc<Cell<u32>>,
    ) -> GcRef<Tracker> {
        tracker.set(tracker.get() + 1);
        stack.push_roots(&rooted.iter().map(|r| r.as_ptr()).collect());
        let r = Gc::new(heap, stack, Tracker::Allocation(tracker, finalized));
        stack.pop_frame();
        r
    }
}

impl Finalize for Tracker {
    fn finalize(&mut self) {
        match self {
            Tracker::Allocation(tracker, finalized) => {
                assert!(tracker.get() > 0);
                tracker.set(tracker.get() - 1);
                finalized.set(finalized.get() + 1);
            }
            Tracker::Ten(_) => {}
        }
    }
}

impl GcTrace for Tracker {
    fn trace(&self, tracer: &mut Tracer) {
        match self {
            Tracker::Allocation(_, _) => {}
            Tracker::Ten(refs) => {
                for r in refs.all() {
                    r.trace(tracer);
                }
            }
        }
    }
}

#[test]
fn ten_allocations() {
    let mut heap: GcState<Tracker> = GcState::new();
    let mut stack = ShadowStack::new();
    let tracker = Rc::new(Cell::new(0));
    let finalized = Rc::new(Cell::new(0));
    assert_eq!(tracker.as_ref().get(), 0);

    let mut made: Vec<GcRef<Tracker>> = Vec::new();
    for _ in 0..10 {
        let r = Tracker::new(&mut heap, &mut stack, &made, tracker.clone(), finalized.clone());
        assert!(tracker.get() <= 10);
        made.push(r);
    }
    let refs = TenRefs {
        r1: made[0],
        r2: made[1],
        r3: made[2],
        r4: made[3],
        r5: made[4],
        r6: made[5],
        r7: made[6],
        r8: made[7],
        r9: made[8],
        r10: made[9],
    };

    assert_eq!(tracker.as_ref().get(), 10);

    // The ten allocations are reachable through one aggregate only.
    stack.push_roots(&made.iter().map(|r| r.as_ptr()).collect());
    let aggregate = Gc::new(&mut heap, &stack, Tracker::Ten(refs));
    stack.pop_frame();
    stack.push_roots(&vec![aggregate.as_ptr()]);
    force_collect(&mut heap, &stack);
    assert_eq!(boxes_len(&heap), 11);
    assert_eq!(tracker.get(), 10);
    assert_eq!(finalized.get(), 0);

    // Dropping the root and collecting finalizes each of the ten exactly once.
    stack.pop_frame();
    let reclaimed = force_collect(&mut heap, &stack);
    assert_eq!(reclaimed.len(), 11);
    assert_eq!(tracker.get(), 0);
    assert_eq!(finalized.get(), 10);
    assert_eq!(boxes_len(&heap), 0);

    // A second collection finds nothing left to finalize.
    let reclaimed = force_collect(&mut heap, &stack);
    assert!(reclaimed.is_empty());
    assert_eq!(tracker.get(), 0);
    assert_eq!(finalized.get(), 10);
}
