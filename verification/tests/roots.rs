use bronze_gc::roots::{
    check_chain, iterate_roots, resolve, root_addresses, FrameMap, Root, RootError, RootSlot,
    ShadowStack,
    FRAME_LIMIT, META_DIRECT, META_INDIRECT,
};

// The roots of a chain, or why the chain cannot be trusted: the walk is made only after the test.
fn roots_of(stack: &ShadowStack) -> Result<Vec<Root>, RootError> {
    check_chain(stack)?;
    Ok(iterate_roots(stack))
}

fn frame(meta: Vec<u8>, roots: Vec<RootSlot>) -> (Option<FrameMap>, Vec<RootSlot>) {
    let n = meta.len() as u32;
    (Some(FrameMap { num_roots: n, num_meta: n, meta }), roots)
}

#[test]
fn empty_chain_has_no_roots() {
    let stack = ShadowStack::new();
    assert_eq!(roots_of(&stack), Ok(vec![]));
}

#[test]
fn direct_slot_names_the_cell() {
    assert_eq!(resolve(&RootSlot::direct(7), META_DIRECT), Ok(Some(7)));
    assert_eq!(resolve(&RootSlot { pointer: Some(7), target: Some(9) }, 1), Ok(Some(7)));
}

#[test]
fn indirect_slot_is_dereferenced_once_more() {
    assert_eq!(resolve(&RootSlot::indirect(1000, Some(3)), META_INDIRECT), Ok(Some(3)));
    // The place holds a null pointer: there is no root.
    assert_eq!(resolve(&RootSlot::indirect(1000, None), 2), Ok(None));
}

#[test]
fn null_slot_is_skipped_whatever_its_metadata() {
    assert_eq!(resolve(&RootSlot::null(), 1), Ok(None));
    assert_eq!(resolve(&RootSlot::null(), 2), Ok(None));
    assert_eq!(resolve(&RootSlot::null(), 0), Ok(None));
    assert_eq!(resolve(&RootSlot::null(), 77), Ok(None));
    assert_eq!(resolve(&RootSlot { pointer: None, target: Some(4) }, 2), Ok(None));
}

#[test]
fn unknown_metadata_is_an_error() {
    assert_eq!(
        resolve(&RootSlot::direct(7), 0),
        Err(RootError::InvalidMetadata { meta: 0 })
    );
    assert_eq!(
        resolve(&RootSlot::direct(7), 3),
        Err(RootError::InvalidMetadata { meta: 3 })
    );
    assert_eq!(
        resolve(&RootSlot::indirect(7, Some(1)), 255),
        Err(RootError::InvalidMetadata { meta: 255 })
    );
}

#[test]
fn roots_come_in_walk_order() {
    let mut stack = ShadowStack::new();
    // The outer frame is entered first, so it ends up at the tail of the chain.
    let (map, roots) = frame(vec![1, 2], vec![RootSlot::direct(10), RootSlot::indirect(500, Some(11))]);
    stack.push_frame(map, roots);
    let (map, roots) = frame(
        vec![2, 1, 1],
        vec![RootSlot::indirect(600, Some(20)), RootSlot::null(), RootSlot::direct(21)],
    );
    stack.push_frame(map, roots);
    assert_eq!(check_chain(&stack), Ok(()));
    let found = iterate_roots(&stack);
    assert_eq!(
        found,
        vec![
            Root { addr: 20, meta: 2 },
            Root { addr: 21, meta: 1 },
            Root { addr: 10, meta: 1 },
            Root { addr: 11, meta: 2 },
        ]
    );
    assert_eq!(root_addresses(&found), vec![20, 21, 10, 11]);
}

#[test]
fn frame_without_descriptor_has_no_roots() {
    let mut stack = ShadowStack::new();
    stack.push_frame(None, vec![RootSlot::direct(1), RootSlot::direct(2)]);
    let (map, roots) = frame(vec![1], vec![RootSlot::direct(3)]);
    stack.push_frame(map, roots);
    stack.push_frame(None, vec![]);
    assert_eq!(roots_of(&stack), Ok(vec![Root { addr: 3, meta: 1 }]));
}

#[test]
fn mismatched_counts_are_an_error() {
    let mut stack = ShadowStack::new();
    stack.push_frame(
        Some(FrameMap { num_roots: 2, num_meta: 1, meta: vec![1] }),
        vec![RootSlot::direct(1), RootSlot::direct(2)],
    );
    assert_eq!(
        roots_of(&stack),
        Err(RootError::MissingMetadata { num_roots: 2, num_meta: 1 })
    );

    let mut stack = ShadowStack::new();
    stack.push_frame(
        Some(FrameMap { num_roots: 0, num_meta: 3, meta: vec![1, 1, 1] }),
        vec![],
    );
    assert_eq!(
        roots_of(&stack),
        Err(RootError::MissingMetadata { num_roots: 0, num_meta: 3 })
    );
}

#[test]
fn frame_shorter_than_declared_is_an_error() {
    let mut stack = ShadowStack::new();
    stack.push_frame(
        Some(FrameMap { num_roots: 2, num_meta: 2, meta: vec![1, 1] }),
        vec![RootSlot::direct(1)],
    );
    assert_eq!(roots_of(&stack), Err(RootError::TruncatedFrame));

    let mut stack = ShadowStack::new();
    stack.push_frame(
        Some(FrameMap { num_roots: 2, num_meta: 2, meta: vec![1] }),
        vec![RootSlot::direct(1), RootSlot::direct(2)],
    );
    assert_eq!(roots_of(&stack), Err(RootError::TruncatedFrame));
}

#[test]
fn only_the_declared_slots_are_read() {
    let mut stack = ShadowStack::new();
    stack.push_frame(
        Some(FrameMap { num_roots: 1, num_meta: 1, meta: vec![1, 9] }),
        vec![RootSlot::direct(1), RootSlot::direct(2)],
    );
    assert_eq!(roots_of(&stack), Ok(vec![Root { addr: 1, meta: 1 }]));
}

#[test]
fn first_error_of_the_walk_wins() {
    let mut stack = ShadowStack::new();
    // Outer frame: counts disagree.
    stack.push_frame(Some(FrameMap { num_roots: 1, num_meta: 0, meta: vec![] }), vec![RootSlot::direct(1)]);
    // Inner frame: the second slot has unknown metadata, the third one too.
    let (map, roots) = frame(
        vec![1, 5, 6],
        vec![RootSlot::direct(1), RootSlot::direct(2), RootSlot::direct(3)],
    );
    stack.push_frame(map, roots);
    assert_eq!(roots_of(&stack), Err(RootError::InvalidMetadata { meta: 5 }));
    // Without the inner frame the outer one is reported.
    stack.pop_frame();
    assert_eq!(
        roots_of(&stack),
        Err(RootError::MissingMetadata { num_roots: 1, num_meta: 0 })
    );
}

#[test]
fn chain_test_tells_what_is_wrong() {
    let mut stack = ShadowStack::new();
    assert_eq!(check_chain(&stack), Ok(()));
    stack.push_roots(&vec![1, 2, 3]);
    assert_eq!(check_chain(&stack), Ok(()));
    stack.push_frame(Some(FrameMap { num_roots: 1, num_meta: 1, meta: vec![7] }), vec![RootSlot::direct(1)]);
    assert_eq!(check_chain(&stack), Err(RootError::InvalidMetadata { meta: 7 }));
    stack.push_frame(Some(FrameMap { num_roots: 1, num_meta: 2, meta: vec![1, 1] }), vec![RootSlot::direct(1)]);
    assert_eq!(check_chain(&stack), Err(RootError::MissingMetadata { num_roots: 1, num_meta: 2 }));
    stack.push_frame(Some(FrameMap { num_roots: 2, num_meta: 2, meta: vec![1, 1] }), vec![]);
    assert_eq!(check_chain(&stack), Err(RootError::TruncatedFrame));
    // A null slot is no fault, whatever its metadata.
    let mut stack = ShadowStack::new();
    stack.push_frame(Some(FrameMap { num_roots: 1, num_meta: 1, meta: vec![9] }), vec![RootSlot::null()]);
    assert_eq!(check_chain(&stack), Ok(()));
    assert_eq!(iterate_roots(&stack), vec![]);
}

#[test]
fn push_roots_enters_a_frame_of_direct_roots() {
    let mut stack = ShadowStack::new();
    assert_eq!(FRAME_LIMIT, u32::MAX as usize);
    assert_eq!(stack.push_roots(&vec![4, 5]), 1);
    assert_eq!(stack.push_roots(&vec![]), 1);
    assert_eq!(stack.push_roots(&vec![6]), 1);
    assert_eq!(
        roots_of(&stack),
        Ok(vec![
            Root { addr: 6, meta: 1 },
            Root { addr: 4, meta: 1 },
            Root { addr: 5, meta: 1 },
        ])
    );
    let (map, roots) = stack.pop_frame().unwrap();
    let map = map.unwrap();
    assert_eq!((map.num_roots, map.num_meta, map.meta), (1, 1, vec![1]));
    assert_eq!(roots, vec![RootSlot::direct(6)]);
    stack.pop_frames(2);
    assert!(stack.pop_frame().is_none());
    assert!(stack.head.is_none());
    // Leaving more frames than there are leaves them all.
    stack.push_roots(&vec![1]);
    stack.pop_frames(5);
    assert!(stack.head.is_none());
}
