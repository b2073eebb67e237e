//! Turtles. A turtle lives in a cell of the managed heap and refers to its
//! children by reference, so that the campus and every parent can reach the
//! same child.

use vstd::prelude::*;
use rand_pcg::Pcg64;
use crate::borrow::UNUSED;
use crate::heap::{GcState, HeapView};
use crate::reference::GcRef;
use crate::trace::{Finalize, GcTrace, Tracer};
use crate::turtles::cookbook::{Cookbook, Recipe};
use crate::turtles::genetics::{cross32, cross8, crossed32, crossed8, Flavor};
use crate::turtles::magic::MagicalItem;

verus! {

#[derive(Debug, Copy, Clone, PartialEq, Eq, Structural)]
pub struct Color {
    pub r: u8,
    pub g: u8,
    pub b: u8,
}

impl Color {
    pub fn new(r: u8, g: u8, b: u8) -> (color: Color)
        ensures
            color == (Color { r, g, b }),
    {
        Color { r, g, b }
    }

    /// A color whose every component is a crossing of the components of
    /// `c1` and `c2`.
    pub fn cross(rng: &mut Pcg64, c1: &Color, c2: &Color) -> (color: Color)
        ensures
            exists|mask: u8| color.r == crossed8(c1.r, c2.r, mask),
            exists|mask: u8| color.g == crossed8(c1.g, c2.g, mask),
            exists|mask: u8| color.b == crossed8(c1.b, c2.b, mask),
    {
        let r = cross8(rng, c1.r, c2.r);
        let g = cross8(rng, c1.g, c2.g);
        let b = cross8(rng, c1.b, c2.b);
        Color { r, g, b }
    }
}

#[derive(Debug)]
pub struct Turtle {
    name: String,
    walking_speed: u32,
    color: Color,
    favorite_flavor: Flavor,
    children: Vec<GcRef<Turtle>>,
    magical_item: Option<MagicalItem>,
}

/// What a turtle is made of.
pub struct TurtleView {
    pub name: Seq<char>,
    pub walking_speed: u32,
    pub color: Color,
    pub favorite_flavor: Flavor,
    /// The addresses of the children, in the order in which they were added.
    pub children: Seq<usize>,
    pub magical_item: Option<MagicalItem>,
}

impl View for Turtle {
    type V = TurtleView;

    closed spec fn view(&self) -> TurtleView {
        TurtleView {
            name: self.name@,
            walking_speed: self.walking_speed,
            color: self.color,
            favorite_flavor: self.favorite_flavor,
            children: self.children@.map_values(|child: GcRef<Turtle>| child@),
            magical_item: self.magical_item,
        }
    }
}

impl Finalize for Turtle {
    open spec fn finalized(pre: Self, post: Self) -> bool {
        post == pre
    }

    fn finalize(&mut self) {
    }
}

impl GcTrace for Turtle {
    /// A turtle refers to its children.
    closed spec fn refs(&self) -> Seq<usize> {
        self.children.refs()
    }

    fn trace(&self, tracer: &mut Tracer) {
        self.children.trace(tracer);
    }
}

/// The heap after the first `n` of `kids` have been taught, one after the
/// other: each lesson makes the child walk one faster.
pub open spec fn taught(heap: HeapView<Turtle>, kids: Seq<usize>, n: int) -> HeapView<Turtle>
    decreases n,
{
    if n <= 0 {
        heap
    } else {
        let before = taught(heap, kids, n - 1);
        let kid = kids[n - 1];
        before.with_payload(
            kid,
            Some(before.payload(kid).with_speed((before.payload(kid)@.walking_speed + 1) as u32)),
        )
    }
}

/// Each of the first `n` of `kids` lives in the heap when its lesson comes,
/// is borrowed by nobody, and can still walk faster.
pub open spec fn teachable(heap: HeapView<Turtle>, kids: Seq<usize>, n: int) -> bool
    decreases n,
{
    n <= 0 || {
        let before = taught(heap, kids, n - 1);
        &&& teachable(heap, kids, n - 1)
        &&& before.holds(kids[n - 1])
        &&& before.cells[kids[n - 1]].borrow_flag == UNUSED
        &&& before.payload(kids[n - 1])@.walking_speed < u32::MAX
    }
}

impl Turtle {
    /// The turtle with another walking speed.
    pub closed spec fn with_speed(self, speed: u32) -> Turtle {
        Turtle { walking_speed: speed, ..self }
    }

    /// The turtle with another color.
    pub closed spec fn with_color(self, color: Color) -> Turtle {
        Turtle { color, ..self }
    }

    /// Another color changes nothing else about a turtle.
    pub proof fn lemma_with_color(self, color: Color)
        ensures
            self.with_color(color)@ == (TurtleView { color, ..self@ }),
    {
    }

    /// Another walking speed changes nothing else about a turtle.
    pub proof fn lemma_with_speed(self, speed: u32)
        ensures
            self.with_speed(speed)@ == (TurtleView { walking_speed: speed, ..self@ }),
    {
    }

    /// The child of two turtles of the heap: its walking speed and the
    /// components of its color are crossings of those of its parents, and it
    /// starts without children and without a magical item.
    ///
    /// Both parents are under a shared borrow while they are looked at, so
    /// neither may be borrowed exclusively; the borrows are handed back at
    /// the end, and the heap is then as it was.
    pub fn breed(
        state: &mut GcState<Turtle>,
        rng: &mut Pcg64,
        p1: GcRef<Turtle>,
        p2: GcRef<Turtle>,
        name: String,
    ) -> (child: Turtle)
        requires
            old(state)@.holds(p1@),
            old(state)@.holds(p2@),
            old(state)@.shared_borrowed(p1@) is Some,
            old(state)@.shared_borrowed(p1@)->0.shared_borrowed(p2@) is Some,
        ensures
            final(state)@ == old(state)@,
            old(state).wf() ==> final(state).wf(),
            child@.name == name@,
            exists|mask: u32|
                child@.walking_speed == crossed32(
                    old(state)@.payload(p1@)@.walking_speed,
                    old(state)@.payload(p2@)@.walking_speed,
                    mask,
                ),
            exists|mask: u8|
                child@.color.r == crossed8(
                    old(state)@.payload(p1@)@.color.r,
                    old(state)@.payload(p2@)@.color.r,
                    mask,
                ),
            exists|mask: u8|
                child@.color.g == crossed8(
                    old(state)@.payload(p1@)@.color.g,
                    old(state)@.payload(p2@)@.color.g,
                    mask,
                ),
            exists|mask: u8|
                child@.color.b == crossed8(
                    old(state)@.payload(p1@)@.color.b,
                    old(state)@.payload(p2@)@.color.b,
                    mask,
                ),
            child@.children == Seq::<usize>::empty(),
            child@.magical_item is None,
    {
        let b1 = p1.borrow(state);
        let b2 = p2.borrow(state);
        let speed1 = b1.deref(state).walking_speed;
        let speed2 = b2.deref(state).walking_speed;
        let color1 = b1.deref(state).color;
        let color2 = b2.deref(state).color;
        let walking_speed = cross32(rng, speed1, speed2);
        let color = Color::cross(rng, &color1, &color2);
        let favorite_flavor = Flavor::random_flavor(rng);
        b2.release(state);
        b1.release(state);
        assert(state@.cells =~= old(state)@.cells);
        let child = Turtle {
            name,
            walking_speed,
            color,
            favorite_flavor,
            children: Vec::new(),
            magical_item: None,
        };
        proof {
            assert(child@.children =~= Seq::<usize>::empty());
            let m = choose|mask: u32|
                walking_speed == crossed32(speed1, speed2, mask);
            assert(child@.walking_speed == crossed32(
                old(state)@.payload(p1@)@.walking_speed,
                old(state)@.payload(p2@)@.walking_speed,
                m,
            ));
            let r = choose|mask: u8| color.r == crossed8(color1.r, color2.r, mask);
            assert(child@.color.r == crossed8(
                old(state)@.payload(p1@)@.color.r,
                old(state)@.payload(p2@)@.color.r,
                r,
            ));
            let g = choose|mask: u8| color.g == crossed8(color1.g, color2.g, mask);
            assert(child@.color.g == crossed8(
                old(state)@.payload(p1@)@.color.g,
                old(state)@.payload(p2@)@.color.g,
                g,
            ));
            let b = choose|mask: u8| color.b == crossed8(color1.b, color2.b, mask);
            assert(child@.color.b == crossed8(
                old(state)@.payload(p1@)@.color.b,
                old(state)@.payload(p2@)@.color.b,
                b,
            ));
        }
        child
    }

    pub fn walking_speed(&self) -> (speed: u32)
        ensures
            speed == self@.walking_speed,
    {
        self.walking_speed
    }

    pub fn set_walking_speed(&mut self, new_speed: u32)
        ensures
            *final(self) == old(self).with_speed(new_speed),
            final(self)@ == (TurtleView { walking_speed: new_speed, ..old(self)@ }),
    {
        self.walking_speed = new_speed;
    }

    pub fn color(&self) -> (color: Color)
        ensures
            color == self@.color,
    {
        self.color
    }

    pub fn favorite_flavor(&self) -> (flavor: Flavor)
        ensures
            flavor == self@.favorite_flavor,
    {
        self.favorite_flavor
    }

    pub fn name(&self) -> (name: &String)
        ensures
            name@ == self@.name,
    {
        &self.name
    }

    /// The children of the turtle, in the order in which they were added.
    pub fn children(&self) -> (children: &Vec<GcRef<Turtle>>)
        ensures
            children@.len() == self@.children.len(),
            forall|i: int| 0 <= i < children@.len() ==> (#[trigger] children@[i])@ == self@.children[i],
    {
        &self.children
    }

    pub fn magical_item(&self) -> (item: &Option<MagicalItem>)
        ensures
            *item == self@.magical_item,
    {
        &self.magical_item
    }

    /// A turtle without children and without a magical item.
    pub fn new(name: String, walking_speed: u32, favorite_flavor: Flavor, color: Color) -> (turtle:
        Turtle)
        ensures
            turtle@ == (TurtleView {
                name: name@,
                walking_speed,
                color,
                favorite_flavor,
                children: Seq::empty(),
                magical_item: None,
            }),
    {
        let turtle = Turtle {
            name,
            walking_speed,
            color,
            favorite_flavor,
            children: Vec::new(),
            magical_item: None,
        };
        assert(turtle@.children =~= Seq::<usize>::empty());
        turtle
    }

    /// The first recipe of the book that has the turtle's favorite flavor.
    pub fn choose_recipe<'a>(&self, cookbook: &'a Cookbook) -> (chosen: Option<&'a Recipe>)
        ensures
            match chosen {
                Some(recipe) => exists|i: int|
                    {
                        &&& 0 <= i < cookbook@.len()
                        &&& #[trigger] cookbook@[i] == recipe@
                        &&& recipe@.1 == self@.favorite_flavor
                        &&& forall|j: int| 0 <= j < i ==> (#[trigger] cookbook@[j]).1 != self@.favorite_flavor
                    },
                None => forall|j: int|
                    0 <= j < cookbook@.len() ==> (#[trigger] cookbook@[j]).1 != self@.favorite_flavor,
            },
    {
        let recipes = cookbook.recipes();
        let mut i: usize = 0;
        while i < recipes.len()
            invariant
                i <= recipes@.len(),
                recipes@.len() == cookbook@.len(),
                forall|k: int| 0 <= k < recipes@.len() ==> (#[trigger] recipes@[k])@ == cookbook@[k],
                forall|j: int| 0 <= j < i ==> (#[trigger] cookbook@[j]).1 != self@.favorite_flavor,
            decreases recipes@.len() - i,
        {
            let recipe = &recipes[i];
            if recipe.flavor() == self.favorite_flavor() {
                assert(cookbook@[i as int] == recipe@);
                return Some(recipe);
            }
            i = i + 1;
        }
        None
    }

    pub fn add_child(&mut self, child: GcRef<Turtle>)
        ensures
            final(self)@ == (TurtleView {
                children: old(self)@.children.push(child@),
                ..old(self)@
            }),
    {
        self.children.push(child);
        assert(self@.children =~= old(self)@.children.push(child@));
    }

    /// Teaches the children of `parent`, in order: every lesson makes the
    /// child one faster. A child that was added twice is taught twice. For
    /// its lesson a child is borrowed exclusively, so nobody else may have
    /// borrowed it.
    pub fn teach_children(state: &mut GcState<Turtle>, parent: GcRef<Turtle>)
        requires
            old(state)@.holds(parent@),
            teachable(
                old(state)@,
                old(state)@.payload(parent@)@.children,
                old(state)@.payload(parent@)@.children.len() as int,
            ),
        ensures
            final(state)@ == taught(
                old(state)@,
                old(state)@.payload(parent@)@.children,
                old(state)@.payload(parent@)@.children.len() as int,
            ),
            old(state).wf() ==> final(state).wf(),
    {
        let ghost kids = state@.payload(parent@)@.children;
        let mut children: Vec<GcRef<Turtle>> = Vec::new();
        let held = parent.as_ref(state).children();
        let mut i: usize = 0;
        while i < held.len()
            invariant
                i <= held@.len(),
                held@.len() == kids.len(),
                forall|k: int| 0 <= k < held@.len() ==> (#[trigger] held@[k])@ == kids[k],
                children@.len() == i,
                forall|k: int| 0 <= k < i ==> (#[trigger] children@[k])@ == kids[k],
            decreases held@.len() - i,
        {
            children.push(held[i]);
            i = i + 1;
        }
        let mut i: usize = 0;
        while i < children.len()
            invariant
                i <= children@.len(),
                children@.len() == kids.len(),
                forall|k: int| 0 <= k < children@.len() ==> (#[trigger] children@[k])@ == kids[k],
                teachable(old(state)@, kids, kids.len() as int),
                state@ == taught(old(state)@, kids, i as int),
                old(state).wf() ==> state.wf(),
            decreases children@.len() - i,
        {
            proof {
                lemma_teachable_prefix(old(state)@, kids, i as int + 1, kids.len() as int);
            }
            let ghost before = state@;
            let mut child = children[i];
            let mut lesson = child.borrow_mut(state);
            let t = lesson.deref_mut(state);
            let old_speed = t.walking_speed();
            t.set_walking_speed(old_speed + 1);
            lesson.release(state);
            assert(state@.cells =~= taught(old(state)@, kids, i as int + 1).cells);
            i = i + 1;
        }
    }

    pub fn set_color(&mut self, new_color: Color)
        ensures
            *final(self) == old(self).with_color(new_color),
            final(self)@ == (TurtleView { color: new_color, ..old(self)@ }),
    {
        self.color = new_color;
    }

    pub fn take_magical_item(&mut self, item: MagicalItem)
        ensures
            final(self)@ == (TurtleView { magical_item: Some(item), ..old(self)@ }),
    {
        self.magical_item = Some(item);
    }
}

/// A lesson changes what a turtle holds, and nothing else about any cell.
pub proof fn lemma_taught_frame(heap: HeapView<Turtle>, kids: Seq<usize>, n: int, addr: usize)
    requires
        teachable(heap, kids, n),
    ensures
        taught(heap, kids, n).contains(addr) == heap.contains(addr),
        taught(heap, kids, n).cells[addr].borrow_flag == heap.cells[addr].borrow_flag,
        taught(heap, kids, n).cells[addr].nullable == heap.cells[addr].nullable,
        taught(heap, kids, n).holds(addr) == heap.holds(addr),
        taught(heap, kids, n).order == heap.order,
        taught(heap, kids, n).bytes_allocated == heap.bytes_allocated,
        taught(heap, kids, n).threshold == heap.threshold,
        taught(heap, kids, n).holds(addr) ==> taught(heap, kids, n).payload(addr)@.children
            == heap.payload(addr)@.children,
    decreases n,
{
    if n > 0 {
        lemma_taught_frame(heap, kids, n - 1, addr);
        lemma_taught_frame(heap, kids, n - 1, kids[n - 1]);
    }
}

/// Children that can all be taught can be taught up to any point.
pub proof fn lemma_teachable_prefix(heap: HeapView<Turtle>, kids: Seq<usize>, n: int, m: int)
    requires
        n <= m,
        teachable(heap, kids, m),
    ensures
        teachable(heap, kids, n),
    decreases m - n,
{
    if n < m {
        lemma_teachable_prefix(heap, kids, n, m - 1);
    }
}

} // verus!
