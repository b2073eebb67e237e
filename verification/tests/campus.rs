use bronze_gc::gc::{boxes_len, force_collect};
use bronze_gc::heap::GcState;
use bronze_gc::roots::{check_chain, FrameMap, RootError, RootSlot, ShadowStack};
use bronze_gc::turtles::campus::Campus;
use bronze_gc::turtles::genetics::Flavor;
use bronze_gc::turtles::turtle::{Color, Turtle};
use rand::SeedableRng;
use rand_pcg::Pcg64;

fn turtle(name: &str, speed: u32) -> Turtle {
    Turtle::new(name.to_string(), speed, Flavor::Sour, Color::new(0, 0, 0))
}

fn campus_of(heap: &mut GcState<Turtle>, stack: &mut ShadowStack, turtles: Vec<Turtle>) -> Campus {
    let mut campus = Campus::empty();
    for t in turtles {
        campus.enroll(heap, stack, t);
    }
    campus
}

#[test]
fn new_campus_has_the_turtles_asked_for() {
    let mut heap = GcState::new();
    let mut stack = ShadowStack::new();
    let mut rng = Pcg64::seed_from_u64(0);
    let campus = Campus::new(&mut heap, &mut stack, &mut rng, 7);
    assert_eq!(campus.size(), 7);
    assert_eq!(boxes_len(&heap), 7);
    assert!(stack.head.is_none());
    let addrs = campus.addresses();
    for (i, t) in campus.turtles().iter().enumerate() {
        assert_eq!(t.as_ptr(), addrs[i]);
        assert!(!addrs[..i].contains(&addrs[i]));
        let turtle = t.as_ref(&heap);
        assert!(turtle.walking_speed() < 10);
        assert!(turtle.children().is_empty());
        assert!(turtle.magical_item().is_none());
        // The name is a byte written out.
        assert!(turtle.name().parse::<u8>().is_ok());
    }
    let empty = Campus::new(&mut heap, &mut stack, &mut rng, 0);
    assert_eq!(empty.size(), 0);
}

#[test]
fn enrolled_turtles_outlive_collections() {
    let mut heap = GcState::new();
    let mut stack = ShadowStack::new();
    let mut campus = Campus::empty();
    for i in 0..50 {
        let r = campus.enroll(&mut heap, &mut stack, turtle("t", i));
        assert_eq!(r.as_ref(&heap).walking_speed(), i);
        assert_eq!(campus.size(), i as usize + 1);
    }
    for (i, t) in campus.turtles().iter().enumerate() {
        assert_eq!(t.as_ref(&heap).walking_speed(), i as u32);
    }
    assert_eq!(boxes_len(&heap), 50);
}

#[test]
fn enrolling_reads_the_chain_only_for_a_collection() {
    let mut heap = GcState::new();
    let mut stack = ShadowStack::new();
    stack.push_frame(Some(FrameMap { num_roots: 3, num_meta: 2, meta: vec![1, 1] }), vec![RootSlot::null(); 3]);
    assert_eq!(check_chain(&stack), Err(RootError::MissingMetadata { num_roots: 3, num_meta: 2 }));
    let mut campus = Campus::empty();
    let mut enrolled = 0;
    // As long as no collection is due, the chain is not looked at.
    while heap.bytes_allocated() <= heap.threshold() {
        campus.enroll(&mut heap, &mut stack, turtle("t", enrolled));
        enrolled += 1;
        assert_eq!(campus.size(), enrolled as usize);
    }
    assert!(enrolled > 0);
    assert_eq!(boxes_len(&heap), enrolled as usize);
}

#[test]
fn breeding_adds_a_child_to_both_parents() {
    let mut heap = GcState::new();
    let mut stack = ShadowStack::new();
    let mut rng = Pcg64::seed_from_u64(0);
    let mut campus = campus_of(&mut heap, &mut stack, vec![turtle("a", 12), turtle("b", 12), turtle("c", 1)]);
    campus.breed_turtles(&mut heap, &mut stack, &mut rng, 0, 1, "kid".to_string());
    assert_eq!(campus.size(), 4);
    let kid = campus.turtles()[3];
    assert_eq!(kid.as_ref(&heap).name(), "kid");
    assert_eq!(kid.as_ref(&heap).walking_speed(), 12);
    assert!(kid.as_ref(&heap).children().is_empty());
    assert_eq!(campus.turtles()[0].as_ref(&heap).children(), &vec![kid]);
    assert_eq!(campus.turtles()[1].as_ref(&heap).children(), &vec![kid]);
    assert!(campus.turtles()[2].as_ref(&heap).children().is_empty());
    // A turtle bred with itself has the child twice.
    campus.breed_turtles(&mut heap, &mut stack, &mut rng, 2, 2, "clone".to_string());
    let clone = campus.turtles()[4];
    assert_eq!(clone.as_ref(&heap).walking_speed(), 1);
    assert_eq!(campus.turtles()[2].as_ref(&heap).children(), &vec![clone, clone]);
    assert!(stack.head.is_none());
}

#[test]
fn fastest_walker_is_the_first_of_the_fastest() {
    let mut heap = GcState::new();
    let mut stack = ShadowStack::new();
    let campus = campus_of(&mut heap, &mut stack, vec![]);
    assert!(campus.fastest_walker(&mut heap).is_none());
    let campus = campus_of(
        &mut heap,
        &mut stack,
        vec![turtle("a", 3), turtle("b", 9), turtle("c", 4), turtle("d", 9), turtle("e", 0)],
    );
    let fastest = campus.fastest_walker(&mut heap).unwrap();
    assert_eq!(fastest.target(), campus.turtles()[1].as_ptr());
    assert_eq!(fastest.deref(&heap).name(), "b");
    // The winner comes under a shared borrow; the others are as they were.
    assert_eq!(campus.turtles()[1].borrow_flag(&heap), 1);
    assert_eq!(campus.turtles()[3].borrow_flag(&heap), 0);
    fastest.release(&mut heap);
    assert_eq!(campus.turtles()[1].borrow_flag(&heap), 0);
}

#[test]
fn school_teaches_the_children_of_every_turtle() {
    let mut heap = GcState::new();
    let mut stack = ShadowStack::new();
    let mut rng = Pcg64::seed_from_u64(0);
    let mut campus = campus_of(&mut heap, &mut stack, vec![turtle("a", 5), turtle("b", 5)]);
    campus.breed_turtles(&mut heap, &mut stack, &mut rng, 0, 1, "kid".to_string());
    campus.breed_turtles(&mut heap, &mut stack, &mut rng, 0, 2, "grandkid".to_string());
    // The kid has both parents, the grandkid has a parent and the kid.
    campus.school(&mut heap);
    let speeds: Vec<u32> = campus.turtles().iter().map(|t| t.as_ref(&heap).walking_speed()).collect();
    assert_eq!(speeds[0], 5);
    assert_eq!(speeds[1], 5);
    assert_eq!(speeds[2], 5 + 2);
    let grandkid_speed_at_birth = speeds[3] - 2;
    campus.school(&mut heap);
    let speeds: Vec<u32> = campus.turtles().iter().map(|t| t.as_ref(&heap).walking_speed()).collect();
    assert_eq!(speeds, vec![5, 5, 9, grandkid_speed_at_birth + 4]);
}

#[test]
fn painting_changes_the_color_only() {
    let mut heap = GcState::new();
    let mut stack = ShadowStack::new();
    let campus = campus_of(&mut heap, &mut stack, vec![turtle("a", 5), turtle("b", 6)]);
    campus.paint_turtle(&mut heap, 1, Color::new(9, 8, 7));
    assert_eq!(campus.turtles()[0].as_ref(&heap).color(), Color::new(0, 0, 0));
    let painted = campus.turtles()[1].as_ref(&heap);
    assert_eq!(painted.color(), Color::new(9, 8, 7));
    assert_eq!((painted.name().as_str(), painted.walking_speed()), ("b", 6));
}

#[test]
fn names_are_looked_up_once() {
    let mut heap = GcState::new();
    let mut stack = ShadowStack::new();
    let mut campus = campus_of(
        &mut heap,
        &mut stack,
        vec![turtle("tom", 1), turtle("ann", 2), turtle("tom", 3)],
    );
    let toms = campus.turtles_with_name(&mut heap, &"tom".to_string());
    assert_eq!(toms, vec![campus.turtles()[0], campus.turtles()[2]]);
    assert_eq!(campus.turtles_with_name(&mut heap, &"bob".to_string()), vec![]);
    // Later arrivals do not change an answer that has been given.
    campus.enroll(&mut heap, &mut stack, turtle("tom", 4));
    campus.enroll(&mut heap, &mut stack, turtle("bob", 5));
    assert_eq!(campus.turtles_with_name(&mut heap, &"tom".to_string()), toms);
    assert_eq!(campus.turtles_with_name(&mut heap, &"bob".to_string()), vec![]);
    // A name that is asked for the first time is looked up among all the turtles.
    assert_eq!(campus.turtles_with_name(&mut heap, &"ann".to_string()), vec![campus.turtles()[1]]);
    assert_eq!(campus.size(), 5);
}

#[test]
fn campus_borrows_are_handed_back() {
    let mut heap = GcState::new();
    let mut stack = ShadowStack::new();
    let mut rng = Pcg64::seed_from_u64(0);
    let mut campus = campus_of(&mut heap, &mut stack, vec![turtle("a", 5), turtle("b", 5)]);
    campus.breed_turtles(&mut heap, &mut stack, &mut rng, 0, 1, "kid".to_string());
    campus.school(&mut heap);
    campus.paint_turtle(&mut heap, 0, Color::new(1, 1, 1));
    campus.turtles_with_name(&mut heap, &"kid".to_string());
    for t in campus.turtles() {
        assert_eq!(t.borrow_flag(&heap), 0);
    }
}

#[test]
fn borrowed_turtle_is_seen_before_it_is_painted() {
    let mut heap = GcState::new();
    let mut stack = ShadowStack::new();
    let campus = campus_of(&mut heap, &mut stack, vec![turtle("a", 5)]);
    let reader = campus.turtles()[0].borrow(&mut heap);
    // Painting asks for a turtle that nobody has borrowed; this one is not.
    assert_ne!(campus.turtles()[0].borrow_flag(&heap), 0);
    reader.release(&mut heap);
    assert_eq!(campus.turtles()[0].borrow_flag(&heap), 0);
    campus.paint_turtle(&mut heap, 0, Color::new(1, 1, 1));
    assert_eq!(campus.turtles()[0].as_ref(&heap).color(), Color::new(1, 1, 1));
}

#[test]
fn turtles_without_a_campus_are_collected() {
    let mut heap = GcState::new();
    let mut stack = ShadowStack::new();
    let campus = campus_of(&mut heap, &mut stack, vec![turtle("a", 1), turtle("b", 2)]);
    stack.push_roots(&vec![campus.addresses()[1]]);
    let reclaimed = force_collect(&mut heap, &stack);
    assert_eq!(reclaimed.len(), 1);
    assert_eq!(reclaimed[0].name(), "a");
    assert_eq!(boxes_len(&heap), 1);
}
