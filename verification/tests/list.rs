use bronze_gc::gc::{boxes_len, force_collect};
use bronze_gc::heap::GcState;
use bronze_gc::list::{List, ListCell};
use bronze_gc::reference::GcNullableRef;
use bronze_gc::roots::ShadowStack;
use bronze_gc::trace::{Finalize, GcTrace, Tracer};

fn rooted<T>(lists: &[GcNullableRef<ListCell<T>>]) -> ShadowStack {
    let mut stack = ShadowStack::new();
    stack.push_roots(&lists.iter().map(|l| l.as_ptr()).collect());
    stack
}

#[test]
fn empty_list() {
    let mut heap: GcState<ListCell<u32>> = GcState::new();
    let empty_list = List::<u32>::new(&mut heap, &ShadowStack::new());
    assert_eq!(List::len(&heap, empty_list), 0);
    assert!(List::is_consistent(&heap, empty_list));
    List::assert_consistency(&heap, empty_list);
}

#[test]
fn list_push() {
    let mut heap: GcState<ListCell<u32>> = GcState::new();
    let mut l = List::<u32>::new(&mut heap, &ShadowStack::new());
    let stack = rooted(&[l]);
    List::push(&mut heap, &stack, &mut l, 1);
    List::push(&mut heap, &stack, &mut l, 2);
    assert_eq!(List::len(&heap, l), 2);
    assert!(List::is_consistent(&heap, l));
    List::assert_consistency(&heap, l);
}

#[test]
fn list_pop() {
    let mut heap: GcState<ListCell<u32>> = GcState::new();
    let mut l = List::<u32>::new(&mut heap, &ShadowStack::new());
    let stack = rooted(&[l]);
    List::push(&mut heap, &stack, &mut l, 1);
    List::push(&mut heap, &stack, &mut l, 2);
    assert_eq!(List::len(&heap, l), 2);
    assert!(List::is_consistent(&heap, l));
    List::assert_consistency(&heap, l);
    let two = List::pop(&mut heap, &mut l);
    assert_eq!(two, Some(2));
    let one = List::pop(&mut heap, &mut l);
    assert_eq!(one, Some(1));
    let empty1 = List::pop(&mut heap, &mut l);
    assert_eq!(empty1, None);
    let empty2 = List::pop(&mut heap, &mut l);
    assert_eq!(empty2, None);
}

// What the lists of the next test hold: numbers, and references to lists.
#[derive(Clone, Copy, PartialEq)]
enum Elem {
    Num(u32),
    Lst(GcNullableRef<ListCell<Elem>>),
}

impl std::fmt::Debug for Elem {
    fn fmt(&self, f: &mut std::fmt::Formatter<'_>) -> std::fmt::Result {
        match self {
            Elem::Num(n) => n.fmt(f),
            Elem::Lst(l) => l.as_ptr().fmt(f),
        }
    }
}

impl Finalize for Elem {
    fn finalize(&mut self) {}
}

impl GcTrace for Elem {
    fn trace(&self, tracer: &mut Tracer) {
        match self {
            Elem::Num(n) => n.trace(tracer),
            Elem::Lst(l) => l.trace(tracer),
        }
    }
}

#[test]
fn list_of_lists() {
    let mut heap: GcState<ListCell<Elem>> = GcState::new();
    let mut l = List::<Elem>::new(&mut heap, &ShadowStack::new());

    // a Copy reference to a list
    let mut empty_list = List::<Elem>::new(&mut heap, &rooted(&[l]));
    let stack = rooted(&[l, empty_list]);

    List::push(&mut heap, &stack, &mut l, Elem::Lst(empty_list));
    List::push(&mut heap, &stack, &mut l, Elem::Lst(empty_list));

    List::push(&mut heap, &stack, &mut empty_list, Elem::Num(42));

    let fortytwo_list = List::pop(&mut heap, &mut l);
    match fortytwo_list {
        Some(Elem::Lst(mut list_contents)) => {
            assert_eq!(List::len(&heap, list_contents), 1);
            let fortytwo = List::pop(&mut heap, &mut list_contents);
            assert_eq!(fortytwo, Some(Elem::Num(42)));
            // put 42 back for the next test
            List::push(&mut heap, &stack, &mut list_contents, Elem::Num(42));
        }
        _ => assert!(false, "fortytwo_list should have been popped off"),
    }

    // There should be TWO references to the SAME list. Check the second one, too.
    let fortytwo_list2 = List::pop(&mut heap, &mut l);
    match fortytwo_list2 {
        Some(Elem::Lst(mut list_contents)) => {
            assert_eq!(List::len(&heap, list_contents), 1);
            let fortytwo = List::pop(&mut heap, &mut list_contents);
            assert_eq!(fortytwo, Some(Elem::Num(42)));
        }
        _ => assert!(false, "fortytwo_list should have been popped off"),
    }
}

#[test]
fn list_survives_collections_while_rooted() {
    let mut heap: GcState<ListCell<u32>> = GcState::new();
    let mut l = List::<u32>::new(&mut heap, &ShadowStack::new());
    let stack = rooted(&[l]);
    for i in 0..100 {
        List::push(&mut heap, &stack, &mut l, i);
    }
    assert_eq!(List::len(&heap, l), 100);
    assert_eq!(boxes_len(&heap), 101);
    for i in (50..100).rev() {
        assert_eq!(List::pop(&mut heap, &mut l), Some(i));
    }
    // The fifty popped nodes are emptied cells that nothing refers to any more.
    let reclaimed = force_collect(&mut heap, &stack);
    assert!(reclaimed.is_empty());
    assert_eq!(boxes_len(&heap), 51);
    assert_eq!(List::len(&heap, l), 50);
    assert!(List::is_consistent(&heap, l));
    List::assert_consistency(&heap, l);
    // Without a root the list goes, and with it the fifty values.
    let reclaimed = force_collect(&mut heap, &ShadowStack::new());
    assert_eq!(reclaimed.len(), 51);
    assert_eq!(boxes_len(&heap), 0);
    assert!(!List::is_consistent(&heap, l));
}
