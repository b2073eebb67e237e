use bronze_gc::{
    Finalize, Gc, GcBorrow, GcBorrowMut, GcRef, GcState, GcTrace, ShadowStack, Tracer,
};

pub struct IntContainer {
    x: i32,
}

impl Finalize for IntContainer {
    fn finalize(&mut self) {}
}

impl GcTrace for IntContainer {
    fn trace(&self, _tracer: &mut Tracer) {}
}

fn heap_with(x: i32) -> (GcState<IntContainer>, GcRef<IntContainer>) {
    let mut heap = GcState::new();
    let ic = Gc::new(&mut heap, &ShadowStack::new(), IntContainer { x });
    (heap, ic)
}

#[test]
fn borrow_twice() {
    let (mut heap, ic1) = heap_with(2);
    let _ic1_borrow = ic1.borrow(&mut heap);
    let ic1_borrow2 = ic1.borrow(&mut heap);
    assert!(ic1_borrow2.deref(&heap).x == 2);
}

#[test]
#[should_panic]
fn invalid_borrow_2() {
    let (mut heap, ic1) = heap_with(2);
    let mut ic2 = ic1;
    let _ic1_borrow = ic1.borrow(&mut heap);
    let _ic2_borrow_mut = ic2.borrow_mut(&mut heap); // should panic! Outstanding immutable borrow.
}

#[test]
#[should_panic]
fn invalid_borrow_3() {
    let (mut heap, mut ic1) = heap_with(2);
    let ic2 = ic1;
    let _ic1_borrow = ic1.borrow_mut(&mut heap);
    let _ic2_borrow_mut = ic2.borrow(&mut heap); // should panic! Outstanding mutable borrow.
}

#[test]
#[should_panic]
fn invalid_borrow_4() {
    let (mut heap, mut ic1) = heap_with(2);
    let mut ic2 = ic1;
    let _ic1_borrow: GcBorrowMut<IntContainer> = ic1.borrow_mut(&mut heap);
    let _ic2_borrow = ic2.borrow_mut(&mut heap); // should panic! Outstanding mutable borrow.
}

#[test]
fn conflicting_borrows_are_refused() {
    let (mut heap, ic1) = heap_with(2);
    let addr = ic1.as_ptr();
    let shared = GcBorrow::new(&mut heap, addr).unwrap();
    assert!(GcBorrowMut::new(&mut heap, addr).is_none());
    shared.release(&mut heap);
    let exclusive = GcBorrowMut::new(&mut heap, addr).unwrap();
    assert!(GcBorrow::new(&mut heap, addr).is_none());
    assert!(GcBorrowMut::new(&mut heap, addr).is_none());
    exclusive.release(&mut heap);
    assert!(GcBorrow::new(&mut heap, addr).is_some());
    // No cell lives at an address that was never handed out.
    assert!(GcBorrow::new(&mut heap, addr + 1).is_none());
    assert!(GcBorrowMut::new(&mut heap, addr + 1).is_none());
}

#[test]
fn valid_borrow_scope() {
    let (mut heap, ic1) = heap_with(2);
    let mut ic2 = ic1;
    {
        let ic1_borrow = ic1.borrow(&mut heap);
        ic1_borrow.release(&mut heap);
    }
    let _ic2_borrow_mut = ic2.borrow_mut(&mut heap); // OK because prior borrow was handed back.
}

#[test]
fn aliases() {
    let (mut heap, mut ic1) = heap_with(2);
    let ic2 = ic1;
    {
        let mut ic1_borrow_mut = ic1.borrow_mut(&mut heap);
        (*ic1_borrow_mut.deref_mut(&mut heap)).x = 42;
        ic1_borrow_mut.release(&mut heap);
    }
    let ic2_borrow = ic2.borrow(&mut heap); // OK because prior borrow was handed back.
    assert!(ic2_borrow.deref(&heap).x == 42);
}

#[test]
fn mutability() {
    let mut heap: GcState<u32> = GcState::new();
    let x: GcRef<u32> = Gc::new(&mut heap, &ShadowStack::new(), 42);
    // x is not mutable, but we can generate a mutable alias:
    let mut x2 = x;
    *x2.as_mut(&mut heap) = 43;

    assert!(*x2.as_ref(&heap) == 43);
    assert!(*x.as_ref(&heap) == 43);
}

pub fn set(heap: &mut GcState<IntContainer>, mut c: GcRef<IntContainer>, x: i32) {
    c.as_mut(heap).x = x;
}

#[test]
pub fn make_two_references() {
    let mut heap = GcState::new();
    let c1 = GcRef::new(&mut heap, &ShadowStack::new(), IntContainer { x: 42 });
    let c2 = c1;
    // c1 and c2 both reference the same object.

    set(&mut heap, c2, 42);
    set(&mut heap, c1, 43);
    // Now both reference an object with value 43.
    assert_eq!(c1.as_ref(&heap).x, 43);
    assert_eq!(c2.as_ref(&heap).x, 43);
}

fn take_borrowed_ic(r: &IntContainer) -> i32 {
    r.x
}

fn take_two_borrow_mut_ics(r1: &mut GcBorrowMut<IntContainer>, _r2: &mut GcBorrowMut<IntContainer>) -> usize {
    r1.target()
}

#[test]
pub fn make_reference() {
    let mut heap = GcState::new();
    let c1 = GcRef::new(&mut heap, &ShadowStack::new(), IntContainer { x: 42 });
    let borrowed = c1.borrow(&mut heap);
    assert_eq!(take_borrowed_ic(borrowed.deref(&heap)), 42);
}

#[test]
#[should_panic]
pub fn make_mutable_references() {
    let mut heap = GcState::new();
    let mut c1 = GcRef::new(&mut heap, &ShadowStack::new(), IntContainer { x: 42 });
    let mut c2 = c1;

    let mut first = c1.borrow_mut(&mut heap);
    let mut second = c2.borrow_mut(&mut heap);
    take_two_borrow_mut_ics(&mut first, &mut second);
}

#[test]
pub fn make_reference_let() {
    let mut heap = GcState::new();
    let c1 = GcRef::new(&mut heap, &ShadowStack::new(), IntContainer { x: 42 });
    let guard = c1.borrow(&mut heap);
    let icr: &IntContainer = guard.deref(&heap);
    assert_eq!(take_borrowed_ic(icr), 42);
}
