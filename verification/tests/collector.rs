use bronze_gc::borrow::{
    acquire_exclusive, acquire_shared, is_reading, is_writing, release_exclusive, release_shared,
    EXCLUSIVE, UNUSED,
};
use bronze_gc::cell::{GcBox, GcNullableBox};
use bronze_gc::collect::grow_threshold;
use bronze_gc::gc::{boxes_len, force_collect, Gc};
use bronze_gc::heap::{GcState, INITIAL_THRESHOLD};
use bronze_gc::reference::{GcMaybeNullableRoot, GcNullableRef, GcRef, GcUntypedRoot};
use bronze_gc::roots::{check_chain, FrameMap, RootError, RootSlot, ShadowStack};
use bronze_gc::trace::{Finalize, GcTrace, Tracer};

// A cell of a graph: a label and the cells it refers to.
struct Vertex {
    label: u32,
    edges: Vec<GcRef<Vertex>>,
    finalized: u32,
}

impl Finalize for Vertex {
    fn finalize(&mut self) {
        self.finalized += 1;
    }
}

impl GcTrace for Vertex {
    fn trace(&self, tracer: &mut Tracer) {
        self.edges.trace(tracer);
    }
}

fn vertex(heap: &mut GcState<Vertex>, label: u32) -> GcRef<Vertex> {
    // Nothing is rooted here, so the heap must not be due for a collection.
    assert!(heap.bytes_allocated() <= heap.threshold());
    Gc::new(heap, &ShadowStack::new(), Vertex { label, edges: vec![], finalized: 0 })
}

fn big_heap() -> GcState<Vertex> {
    let mut heap = GcState::new();
    // Grow the threshold so that the tests decide when to collect.
    let mut stack = ShadowStack::new();
    let size = std::mem::size_of::<GcBox<Vertex>>();
    while heap.threshold() < 100 * size {
        // Whatever is rooted stays, so the threshold has to grow.
        let r = Gc::new(&mut heap, &stack, Vertex { label: 0, edges: vec![], finalized: 0 });
        stack.push_roots(&vec![r.as_ptr()]);
    }
    force_collect(&mut heap, &ShadowStack::new());
    assert_eq!(boxes_len(&heap), 0);
    heap
}

fn rooted(addrs: Vec<usize>) -> ShadowStack {
    let mut stack = ShadowStack::new();
    stack.push_roots(&addrs);
    stack
}

fn labels(reclaimed: &Vec<Vertex>) -> Vec<u32> {
    reclaimed.iter().map(|v| v.label).collect()
}

#[test]
fn new_heap_is_empty() {
    let heap: GcState<u32> = GcState::new();
    assert_eq!(heap.bytes_allocated(), 0);
    assert_eq!(heap.threshold(), 100);
    assert_eq!(INITIAL_THRESHOLD, 100);
    assert_eq!(boxes_len(&heap), 0);
    assert!(!heap.contains(0));
}

#[test]
fn allocation_counts_the_bytes_of_a_cell() {
    let mut heap: GcState<u64> = GcState::new();
    let size = std::mem::size_of::<GcBox<u64>>();
    let r = Gc::new(&mut heap, &ShadowStack::new(), 5);
    assert_eq!(heap.bytes_allocated(), size);
    assert!(heap.contains(r.as_ptr()));
    assert_eq!(*r.as_ref(&heap), 5);
    assert_eq!(r.as_box(&heap).borrow_flag(), UNUSED);
    assert_eq!(*r.as_box(&heap).data(), 5);
    assert_eq!(*r.as_box(&heap).as_ref(), 5);
}

#[test]
fn unreachable_cells_are_reclaimed_in_list_order() {
    let mut heap = big_heap();
    let a = vertex(&mut heap, 1);
    let b = vertex(&mut heap, 2);
    let c = vertex(&mut heap, 3);
    let d = vertex(&mut heap, 4);
    assert_eq!(boxes_len(&heap), 4);
    let size = std::mem::size_of::<GcBox<Vertex>>();
    assert_eq!(heap.bytes_allocated(), 4 * size);
    // The list runs from the newest cell to the oldest.
    let reclaimed = force_collect(&mut heap, &rooted(vec![b.as_ptr()]));
    assert_eq!(labels(&reclaimed), vec![4, 3, 1]);
    assert!(reclaimed.iter().all(|v| v.finalized == 1));
    assert_eq!(boxes_len(&heap), 1);
    assert_eq!(heap.bytes_allocated(), size);
    assert!(heap.contains(b.as_ptr()));
    assert!(!heap.contains(a.as_ptr()));
    assert!(!heap.contains(c.as_ptr()));
    assert!(!heap.contains(d.as_ptr()));
    // The survivor was not finalized, and carries no mark into the next cycle.
    assert_eq!(b.as_ref(&heap).finalized, 0);
    let reclaimed = force_collect(&mut heap, &ShadowStack::new());
    assert_eq!(labels(&reclaimed), vec![2]);
    assert_eq!(boxes_len(&heap), 0);
    assert_eq!(heap.bytes_allocated(), 0);
}

#[test]
fn reachability_follows_references() {
    let mut heap = big_heap();
    let a = vertex(&mut heap, 1);
    let b = vertex(&mut heap, 2);
    let c = vertex(&mut heap, 3);
    let d = vertex(&mut heap, 4);
    let e = vertex(&mut heap, 5);
    let mut a_mut = a;
    a_mut.as_mut(&mut heap).edges.push(b);
    let mut b_mut = b;
    b_mut.as_mut(&mut heap).edges.push(c);
    let mut d_mut = d;
    d_mut.as_mut(&mut heap).edges.push(e);
    d_mut.as_mut(&mut heap).edges.push(a);
    let reclaimed = force_collect(&mut heap, &rooted(vec![a.as_ptr()]));
    assert_eq!(labels(&reclaimed), vec![5, 4]);
    assert_eq!(boxes_len(&heap), 3);
    assert_eq!(a.as_ref(&heap).label, 1);
    assert_eq!(b.as_ref(&heap).label, 2);
    assert_eq!(c.as_ref(&heap).label, 3);
}

#[test]
fn cycles_are_marked_once_and_reclaimed_once() {
    let mut heap = big_heap();
    let a = vertex(&mut heap, 1);
    let b = vertex(&mut heap, 2);
    let c = vertex(&mut heap, 3);
    let (mut a_mut, mut b_mut, mut c_mut) = (a, b, c);
    a_mut.as_mut(&mut heap).edges.push(b);
    b_mut.as_mut(&mut heap).edges.push(c);
    c_mut.as_mut(&mut heap).edges.push(a);
    // A cell that refers to itself, twice.
    c_mut.as_mut(&mut heap).edges.push(c);
    c_mut.as_mut(&mut heap).edges.push(c);
    // Named as a root more than once.
    let stack = rooted(vec![b.as_ptr(), b.as_ptr(), a.as_ptr()]);
    let reclaimed = force_collect(&mut heap, &stack);
    assert!(reclaimed.is_empty());
    assert_eq!(boxes_len(&heap), 3);
    let reclaimed = force_collect(&mut heap, &ShadowStack::new());
    assert_eq!(labels(&reclaimed), vec![3, 2, 1]);
    assert!(reclaimed.iter().all(|v| v.finalized == 1));
    assert_eq!(boxes_len(&heap), 0);
}

#[test]
fn roots_that_name_no_cell_are_ignored() {
    let mut heap = big_heap();
    let a = vertex(&mut heap, 1);
    let stack = rooted(vec![a.as_ptr() + 1000, a.as_ptr()]);
    let reclaimed = force_collect(&mut heap, &stack);
    assert!(reclaimed.is_empty());
    assert_eq!(boxes_len(&heap), 1);
}

#[test]
fn indirect_roots_keep_cells_alive() {
    let mut heap = big_heap();
    let a = vertex(&mut heap, 1);
    let _b = vertex(&mut heap, 2);
    let mut stack = ShadowStack::new();
    stack.push_frame(
        Some(FrameMap { num_roots: 2, num_meta: 2, meta: vec![2, 1] }),
        vec![RootSlot::indirect(4242, Some(a.as_ptr())), RootSlot::null()],
    );
    let reclaimed = force_collect(&mut heap, &stack);
    assert_eq!(labels(&reclaimed), vec![2]);
    assert!(heap.contains(a.as_ptr()));
}

#[test]
fn chain_is_tested_before_a_collection() {
    let mut heap = big_heap();
    let a = vertex(&mut heap, 1);
    let mut stack = ShadowStack::new();
    stack.push_frame(
        Some(FrameMap { num_roots: 1, num_meta: 1, meta: vec![3] }),
        vec![RootSlot::direct(a.as_ptr())],
    );
    // The test finds the fault, and the collector is not called.
    assert_eq!(check_chain(&stack), Err(RootError::InvalidMetadata { meta: 3 }));
    assert_eq!(boxes_len(&heap), 1);
    assert_eq!(a.as_ref(&heap).finalized, 0);

    let mut stack = ShadowStack::new();
    stack.push_frame(Some(FrameMap { num_roots: 1, num_meta: 2, meta: vec![1, 1] }), vec![RootSlot::direct(0)]);
    assert_eq!(check_chain(&stack), Err(RootError::MissingMetadata { num_roots: 1, num_meta: 2 }));

    // A chain that passes the test is collected from.
    let stack = rooted(vec![a.as_ptr()]);
    assert_eq!(check_chain(&stack), Ok(()));
    assert!(force_collect(&mut heap, &stack).is_empty());
    assert_eq!(boxes_len(&heap), 1);
}

#[test]
fn allocation_collects_once_the_threshold_is_passed() {
    let mut heap: GcState<u32> = GcState::new();
    let size = std::mem::size_of::<GcBox<u32>>();
    let stack = ShadowStack::new();
    // Nothing is rooted: every collection empties the heap.
    let mut expected = 0;
    for i in 0..50 {
        let due = expected * size > heap.threshold();
        Gc::new(&mut heap, &stack, i);
        expected = if due { 1 } else { expected + 1 };
        assert_eq!(boxes_len(&heap), expected);
        assert_eq!(heap.bytes_allocated(), expected * size);
        // A collection that frees everything leaves the threshold alone.
        assert_eq!(heap.threshold(), 100);
    }
    assert!(expected < 50);
}

#[test]
fn threshold_grows_when_a_collection_frees_too_little() {
    let mut heap: GcState<u32> = GcState::new();
    let size = std::mem::size_of::<GcBox<u32>>();
    let mut stack = ShadowStack::new();
    let mut held = 0;
    let mut grew = false;
    for i in 0..200 {
        let due = heap.bytes_allocated() > heap.threshold();
        let before = heap.threshold();
        let r = Gc::new(&mut heap, &stack, i);
        stack.push_roots(&vec![r.as_ptr()]);
        held += 1;
        // Everything is rooted, so nothing is ever reclaimed.
        assert_eq!(boxes_len(&heap), held);
        if due {
            let bytes = (held - 1) * size;
            assert!(10 * bytes > 7 * before);
            assert_eq!(heap.threshold(), 10 * bytes / 7);
            assert!(7 * heap.threshold() <= 10 * bytes);
            assert!(10 * bytes < 7 * (heap.threshold() + 1));
            grew = true;
        } else {
            assert_eq!(heap.threshold(), before);
        }
    }
    assert!(grew);
}

#[test]
fn allocation_reads_the_chain_only_for_a_collection() {
    let mut heap: GcState<u32> = GcState::new();
    let mut stack = ShadowStack::new();
    stack.push_frame(Some(FrameMap { num_roots: 1, num_meta: 1, meta: vec![9] }), vec![RootSlot::direct(0)]);
    assert_eq!(check_chain(&stack), Err(RootError::InvalidMetadata { meta: 9 }));
    let mut made = 0;
    // As long as no collection is due the chain is not read.
    while heap.bytes_allocated() <= heap.threshold() {
        Gc::new(&mut heap, &stack, made);
        made += 1;
        assert_eq!(boxes_len(&heap), made as usize);
    }
    assert!(made > 0);
}

#[test]
fn grow_threshold_exact_values() {
    // At or below seven tenths the threshold stays.
    assert_eq!(grow_threshold(0, 100), 100);
    assert_eq!(grow_threshold(70, 100), 100);
    assert_eq!(grow_threshold(7, 10), 10);
    // Above, it becomes the bytes in use divided by seven tenths, rounded down.
    assert_eq!(grow_threshold(71, 100), 101);
    assert_eq!(grow_threshold(100, 100), 142);
    assert_eq!(grow_threshold(101, 100), 144);
    assert_eq!(grow_threshold(7, 9), 10);
    assert_eq!(grow_threshold(1, 0), 1);
    assert_eq!(grow_threshold(700, 0), 1000);
    // And never more than the machine holds.
    assert_eq!(grow_threshold(usize::MAX, 100), usize::MAX);
    assert_eq!(grow_threshold(usize::MAX, usize::MAX), usize::MAX);
    assert_eq!(grow_threshold(usize::MAX / 10 * 7, usize::MAX), usize::MAX);
}

#[test]
fn freed_addresses_are_handed_out_again() {
    let mut heap = big_heap();
    let a = vertex(&mut heap, 1);
    let b = vertex(&mut heap, 2);
    force_collect(&mut heap, &rooted(vec![b.as_ptr()]));
    let c = vertex(&mut heap, 3);
    // The new cell is distinct from every live cell; it may sit where `a` sat.
    assert!(c != b);
    assert_eq!(c.as_ptr(), a.as_ptr());
    assert_eq!(c.as_ref(&heap).label, 3);
    assert_eq!(b.as_ref(&heap).label, 2);
    assert_eq!(boxes_len(&heap), 2);
}

#[test]
fn nullable_payload_is_taken_once() {
    let mut heap: GcState<u32> = GcState::new();
    let mut n: GcNullableRef<u32> = Gc::new_nullable(&mut heap, &ShadowStack::new(), 7);
    assert!(!n.is_null(&heap));
    assert_eq!(*n.as_ref(&heap), 7);
    *n.as_mut(&mut heap) = 8;
    assert_eq!(n.remove(&mut heap), Some(8));
    assert!(n.is_null(&heap));
    assert_eq!(n.remove(&mut heap), None);
    assert_eq!(n.remove(&mut heap), None);
    // The emptied cell is still a cell, and still counts.
    assert_eq!(boxes_len(&heap), 1);
    assert!(heap.contains(n.as_ptr()));
    // Reclaiming it finalizes nothing.
    let reclaimed = force_collect(&mut heap, &ShadowStack::new());
    assert!(reclaimed.is_empty());
    assert_eq!(boxes_len(&heap), 0);
}

#[test]
fn nullable_cell_is_borrowed_like_any_other() {
    let mut heap: GcState<u32> = GcState::new();
    let mut n: GcNullableRef<u32> = Gc::new_nullable(&mut heap, &ShadowStack::new(), 7);
    assert!(GcNullableBox::<u32>::ref_from_ptr(n.as_ptr()) == n);
    assert!(n.clone() == n);
    {
        let cell = n.as_box(&heap);
        assert!(!cell.is_null());
        assert_eq!(*cell.as_ref(), 7);
        assert_eq!(cell.borrow_flag(), 0);
    }
    let shared = n.borrow(&mut heap);
    assert_eq!(n.borrow_flag(&heap), 1);
    assert_eq!(n.as_box(&heap).borrow_flag(), 1);
    assert_eq!(*shared.deref(&heap), 7);
    shared.release(&mut heap);
    let mut exclusive = n.borrow_mut(&mut heap);
    assert_eq!(n.as_box(&heap).borrow_flag(), -1);
    *exclusive.deref_mut(&mut heap) = 8;
    exclusive.release(&mut heap);
    assert_eq!(n.as_box(&heap).borrow_flag(), 0);
    assert_eq!(n.remove(&mut heap), Some(8));
    assert!(n.as_box(&heap).is_null());
}

#[test]
fn emptied_cell_is_not_traced() {
    let mut heap: GcState<Option<GcRef<u32>>> = GcState::new();
    let mut stack = ShadowStack::new();
    let leaf = Gc::new(&mut heap, &stack, None);
    stack.push_roots(&vec![leaf.as_ptr()]);
    let mut holder = Gc::new_nullable(&mut heap, &stack, Some(GcRef::clone(&rebind(leaf))));
    let roots = rooted(vec![holder.as_ptr()]);
    assert!(force_collect(&mut heap, &roots).is_empty());
    assert_eq!(boxes_len(&heap), 2);
    // Once the reference has been taken out of the holder, the leaf is no longer reached.
    let taken = holder.remove(&mut heap).unwrap().unwrap();
    assert!(taken == rebind(leaf));
    let reclaimed = force_collect(&mut heap, &roots);
    assert_eq!(reclaimed.len(), 1);
    assert_eq!(boxes_len(&heap), 1);
    assert!(heap.contains(holder.as_ptr()));
}

// The reference to a cell of a heap whose payload is an optional reference to such a cell.
fn rebind(r: GcRef<Option<GcRef<u32>>>) -> GcRef<u32> {
    GcBox::<u32>::ref_from_ptr(r.as_ptr())
}

#[test]
fn references_are_equal_by_identity() {
    let mut heap: GcState<u32> = GcState::new();
    let mut stack = ShadowStack::new();
    let a = Gc::new(&mut heap, &stack, 1);
    stack.push_roots(&vec![a.as_ptr()]);
    let b = Gc::new(&mut heap, &stack, 1);
    let a2 = a;
    assert!(a == a2);
    assert!(a != b);
    assert!(a.clone() == a);
    assert!(GcBox::<u32>::ref_from_ptr(a.as_ptr()) == a);
    assert_eq!(GcBox::<u32>::ref_from_ptr(17).as_ptr(), 17);
}

#[test]
fn references_hash_by_identity() {
    let mut seen = std::collections::HashSet::new();
    let a: GcRef<u32> = GcBox::ref_from_ptr(3);
    let b: GcRef<u32> = GcBox::ref_from_ptr(4);
    assert!(seen.insert(a));
    assert!(seen.insert(b));
    assert!(!seen.insert(GcBox::ref_from_ptr(3)));
    let mut roots = std::collections::HashSet::new();
    assert!(roots.insert(GcUntypedRoot::new(3)));
    assert!(!roots.insert(GcUntypedRoot::new(3)));
    assert!(roots.insert(GcUntypedRoot { gc_ref: GcMaybeNullableRoot::NullableBoxRef(3) }));
}

#[test]
fn untyped_root_names_a_plain_cell() {
    let root = GcUntypedRoot::new(12);
    assert_eq!(root.gc_ref, GcMaybeNullableRoot::BoxRef(12));
    assert_eq!(root.addr(), 12);
    assert_eq!(root, root.clone());
    assert_ne!(root, GcUntypedRoot::new(13));
    let nullable = GcUntypedRoot { gc_ref: GcMaybeNullableRoot::NullableBoxRef(12) };
    assert_eq!(nullable.addr(), 12);
    assert_ne!(root, nullable);
}

#[test]
fn borrow_counter_rules() {
    assert!(!is_reading(0) && !is_writing(0));
    assert!(is_reading(1) && !is_writing(1));
    assert!(!is_reading(-1) && is_writing(-1));
    assert_eq!(acquire_shared(UNUSED), Some(1));
    assert_eq!(acquire_shared(1), Some(2));
    assert_eq!(acquire_shared(isize::MAX - 1), Some(isize::MAX));
    // The counter cannot count one more.
    assert_eq!(acquire_shared(isize::MAX), None);
    // An exclusive borrow is outstanding.
    assert_eq!(acquire_shared(EXCLUSIVE), None);
    assert_eq!(acquire_shared(isize::MIN), None);
    assert_eq!(acquire_exclusive(UNUSED), Some(-1));
    assert_eq!(EXCLUSIVE, -1);
    assert_eq!(acquire_exclusive(1), None);
    assert_eq!(acquire_exclusive(-1), None);
    assert_eq!(acquire_exclusive(isize::MAX), None);
    assert_eq!(release_shared(1), 0);
    assert_eq!(release_shared(5), 4);
    assert_eq!(release_exclusive(-1), 0);
}

#[test]
fn shared_borrows_count_up_and_down() {
    let mut heap: GcState<u32> = GcState::new();
    let mut r = Gc::new(&mut heap, &ShadowStack::new(), 9);
    assert_eq!(r.borrow_flag(&heap), 0);
    let g1 = r.borrow(&mut heap);
    assert_eq!(r.borrow_flag(&heap), 1);
    assert_eq!(r.as_box(&heap).borrow_flag(), 1);
    let g2 = r.borrow(&mut heap);
    let g3 = r.borrow(&mut heap);
    assert_eq!(r.as_box(&heap).borrow_flag(), 3);
    assert_eq!(g2.target(), r.as_ptr());
    assert_eq!((*g1.deref(&heap), *g2.deref(&heap), *g3.deref(&heap)), (9, 9, 9));
    g2.release(&mut heap);
    g1.release(&mut heap);
    assert_eq!(r.as_box(&heap).borrow_flag(), 1);
    g3.release(&mut heap);
    assert_eq!(r.as_box(&heap).borrow_flag(), 0);
    let mut m = r.borrow_mut(&mut heap);
    assert_eq!(r.as_box(&heap).borrow_flag(), -1);
    assert_eq!(*m.deref(&heap), 9);
    *m.deref_mut(&mut heap) = 10;
    assert_eq!(m.target(), r.as_ptr());
    m.release(&mut heap);
    assert_eq!(r.as_box(&heap).borrow_flag(), 0);
    assert_eq!(*r.as_ref(&heap), 10);
}

#[test]
fn containers_hand_trace_and_finalize_on() {
    let mut tracer = Tracer::new();
    let a: GcRef<u32> = GcBox::ref_from_ptr(3);
    let b: GcRef<u32> = GcBox::ref_from_ptr(4);
    let c: GcRef<u32> = GcBox::ref_from_ptr(5);
    a.trace(&mut tracer);
    vec![b, c].trace(&mut tracer);
    Some(a).trace(&mut tracer);
    None::<GcRef<u32>>.trace(&mut tracer);
    Box::new(b).trace(&mut tracer);
    Ok::<GcRef<u32>, u8>(c).trace(&mut tracer);
    Err::<u8, GcRef<u32>>(a).trace(&mut tracer);
    7u8.trace(&mut tracer);
    String::new().trace(&mut tracer);
    assert_eq!(tracer.pending(), &vec![3, 4, 5, 3, 4, 5, 3]);
    assert_eq!(tracer.len(), 7);
    assert_eq!(tracer.pop(), Some(3));
    tracer.mark(11);
    assert_eq!(tracer.pop(), Some(11));
    assert_eq!(tracer.len(), 6);

    struct Counted(u32);
    impl Finalize for Counted {
        fn finalize(&mut self) {
            self.0 += 1;
        }
    }
    let mut all = vec![Some(Counted(0)), None, Some(Counted(5))];
    all.finalize();
    assert_eq!(all.iter().map(|c| c.as_ref().map(|c| c.0)).collect::<Vec<_>>(), vec![Some(1), None, Some(6)]);
    let mut boxed = Box::new(Counted(1));
    boxed.finalize();
    assert_eq!(boxed.0, 2);
    let mut fine: Result<Counted, Counted> = Err(Counted(2));
    fine.finalize();
    assert_eq!(fine.err().unwrap().0, 3);
    let mut queue: std::collections::VecDeque<Counted> = vec![Counted(1), Counted(2), Counted(3)].into();
    queue.finalize();
    assert_eq!(queue.iter().map(|c| c.0).collect::<Vec<_>>(), vec![2, 3, 4]);
    // A value behind a counted pointer is left alone.
    let mut shared = std::rc::Rc::new(Counted(1));
    shared.finalize();
    assert_eq!(shared.0, 1);

    let mut tracer = Tracer::new();
    let queue: std::collections::VecDeque<GcRef<u32>> = vec![a, b].into();
    queue.trace(&mut tracer);
    std::rc::Rc::new(c).trace(&mut tracer);
    assert_eq!(tracer.pending(), &vec![3, 4, 5]);
}
