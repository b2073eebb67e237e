//! The campus: all the turtles live here.

use vstd::prelude::*;
use vstd::layout::size_of;
use rand_pcg::Pcg64;
use crate::cell::{CellView, GcBox};
use crate::gc::{
    allocation,
    lemma_allocation_bytes,
    lemma_room_for,
    lemma_rooted_cells_survive,
    room_for,
    Gc,
};
use crate::heap::{GcState, HeapView};
use crate::random::{gen_u32, gen_u8, thread_rng};
use crate::guard::GcBorrow;
use crate::reference::GcRef;
use crate::roots::{
    lemma_rooted_on_top,
    root_addrs,
    rooted_on_top,
    roots_of_chain,
    ShadowStack,
    StackEntry,
};
use crate::turtles::genetics::{crossed32, crossed8, Flavor};
use crate::borrow::{EXCLUSIVE, UNUSED};
use crate::turtles::turtle::{lemma_taught_frame, taught, teachable, Color, Turtle};

verus! {

pub struct Campus {
    turtles: Vec<GcRef<Turtle>>,
    /// The names that have been looked up, each with the turtles that bore
    /// it at the time.
    turtle_name_cache: Vec<(String, Vec<GcRef<Turtle>>)>,
}

/// The addresses that a sequence of references names.
pub open spec fn addrs_of(turtles: Seq<GcRef<Turtle>>) -> Seq<usize> {
    turtles.map_values(|turtle: GcRef<Turtle>| turtle@)
}

/// Those of the first `n` of `turtles` that bear `name`, in order.
pub open spec fn named(heap: HeapView<Turtle>, turtles: Seq<usize>, name: Seq<char>, n: int) -> Seq<
    usize,
>
    decreases n,
{
    if n <= 0 {
        Seq::empty()
    } else if heap.payload(turtles[n - 1])@.name == name {
        named(heap, turtles, name, n - 1).push(turtles[n - 1])
    } else {
        named(heap, turtles, name, n - 1)
    }
}

/// What the first `n` entries of a cache hold for `name`: the turtles of the
/// first entry under that name.
pub open spec fn cached(cache: Seq<(Seq<char>, Seq<usize>)>, name: Seq<char>, n: int) -> Option<
    Seq<usize>,
>
    decreases n,
{
    if n <= 0 {
        None
    } else {
        match cached(cache, name, n - 1) {
            Some(found) => Some(found),
            None => if cache[n - 1].0 == name {
                Some(cache[n - 1].1)
            } else {
                None
            },
        }
    }
}

/// The heap after the first `n` of `turtles` have been given cells at the
/// addresses `addrs`, one after the other, each while the turtles before it
/// were rooted in frames on top of the chain at `head`.
pub open spec fn enrolled(
    heap: HeapView<Turtle>,
    head: Option<Box<StackEntry>>,
    addrs: Seq<usize>,
    turtles: Seq<Turtle>,
    n: int,
) -> HeapView<Turtle>
    decreases n,
{
    if n <= 0 {
        heap
    } else {
        allocation(
            enrolled(heap, head, addrs, turtles, n - 1),
            rooted_on_top(addrs.subrange(0, n - 1), head),
            addrs[n - 1],
            CellView::fresh(false, turtles[n - 1]),
        )
    }
}

/// What has been enrolled does not depend on the turtles that follow.
pub proof fn lemma_enrolled_prefix(
    heap: HeapView<Turtle>,
    head: Option<Box<StackEntry>>,
    addrs: Seq<usize>,
    turtles: Seq<Turtle>,
    addr: usize,
    turtle: Turtle,
    n: int,
)
    requires
        0 <= n <= addrs.len(),
        n <= turtles.len(),
    ensures
        enrolled(heap, head, addrs.push(addr), turtles.push(turtle), n) == enrolled(
            heap,
            head,
            addrs,
            turtles,
            n,
        ),
    decreases n,
{
    if n > 0 {
        lemma_enrolled_prefix(heap, head, addrs, turtles, addr, turtle, n - 1);
        assert(addrs.push(addr).subrange(0, n - 1) == addrs.subrange(0, n - 1));
    }
}

/// The heap after the first `n` of `turtles` have each taught their
/// children, one turtle after the other. A turtle is borrowed exclusively
/// for as long as it teaches.
pub open spec fn schooled(heap: HeapView<Turtle>, turtles: Seq<usize>, n: int) -> HeapView<Turtle>
    decreases n,
{
    if n <= 0 {
        heap
    } else {
        let before = schooled(heap, turtles, n - 1);
        let teacher = turtles[n - 1];
        let kids = before.payload(teacher)@.children;
        taught(before.with_flag(teacher, EXCLUSIVE), kids, kids.len() as int).with_flag(
            teacher,
            UNUSED,
        )
    }
}

/// Each of the first `n` of `turtles` lives in the heap when its turn
/// comes and is borrowed by nobody, and its children can then all be
/// taught while it is borrowed itself.
pub open spec fn schoolable(heap: HeapView<Turtle>, turtles: Seq<usize>, n: int) -> bool
    decreases n,
{
    n <= 0 || {
        let before = schooled(heap, turtles, n - 1);
        let teacher = turtles[n - 1];
        let kids = before.payload(teacher)@.children;
        &&& schoolable(heap, turtles, n - 1)
        &&& before.holds(teacher)
        &&& before.cells[teacher].borrow_flag == UNUSED
        &&& teachable(before.with_flag(teacher, EXCLUSIVE), kids, kids.len() as int)
    }
}

/// The heap `after` is the heap `before` but for what the cells at `p1` and
/// at `p2` hold.
pub open spec fn same_but_at(
    before: HeapView<Turtle>,
    after: HeapView<Turtle>,
    p1: usize,
    p2: usize,
) -> bool {
    &&& after.order == before.order
    &&& after.bytes_allocated == before.bytes_allocated
    &&& after.threshold == before.threshold
    &&& after.cells.dom() == before.cells.dom()
    &&& forall|addr: usize|
        before.contains(addr) && addr != p1 && addr != p2 ==> after.cells[addr]
            == before.cells[addr]
}

/// A turtle lives at `addr` and can be looked at: a shared borrow of it is
/// granted.
pub open spec fn readable(heap: HeapView<Turtle>, addr: usize) -> bool {
    heap.holds(addr) && heap.shared_borrowed(addr) is Some
}

/// The position of a fastest walker: no turtle walks faster, and none
/// before it walks as fast.
pub open spec fn fastest_at(heap: HeapView<Turtle>, turtles: Seq<usize>, i: int) -> bool {
    &&& 0 <= i < turtles.len()
    &&& forall|j: int|
        0 <= j < turtles.len() ==> heap.payload(#[trigger] turtles[j])@.walking_speed
            <= heap.payload(turtles[i])@.walking_speed
    &&& forall|j: int|
        0 <= j < i ==> heap.payload(#[trigger] turtles[j])@.walking_speed < heap.payload(
            turtles[i],
        )@.walking_speed
}

impl View for Campus {
    type V = Seq<usize>;

    /// The addresses of the turtles, in the order of their arrival.
    closed spec fn view(&self) -> Seq<usize> {
        addrs_of(self.turtles@)
    }
}

impl Campus {
    /// The names that have been looked up, each with the turtles that were
    /// found under it.
    pub closed spec fn cache(&self) -> Seq<(Seq<char>, Seq<usize>)> {
        self.turtle_name_cache@.map_values(
            |entry: (String, Vec<GcRef<Turtle>>)| (entry.0@, addrs_of(entry.1@)),
        )
    }

    /// Every turtle of the campus lives in `heap`.
    pub open spec fn inv(&self, heap: HeapView<Turtle>) -> bool {
        forall|i: int| 0 <= i < self@.len() ==> heap.holds(#[trigger] self@[i])
    }

    /// A campus without turtles.
    pub fn empty() -> (campus: Campus)
        ensures
            campus@ == Seq::<usize>::empty(),
            campus.cache() == Seq::<(Seq<char>, Seq<usize>)>::empty(),
    {
        let campus = Campus { turtles: Vec::new(), turtle_name_cache: Vec::new() };
        assert(campus@ =~= Seq::<usize>::empty());
        assert(campus.cache() =~= Seq::<(Seq<char>, Seq<usize>)>::empty());
        campus
    }

    /// Gives a turtle a cell of the heap and a place on the campus.
    ///
    /// The cell is allocated under the rules of `Gc::new`. For the time of
    /// the allocation the turtles of the campus are rooted in frames of
    /// their own on top of `stack`, which is left as it was found.
    pub fn enroll(
        &mut self,
        state: &mut GcState<Turtle>,
        stack: &mut ShadowStack,
        turtle: Turtle,
    ) -> (newcomer: GcRef<Turtle>)
        requires
            old(state).wf(),
            old(self).inv(old(state)@),
            old(state)@.bytes_allocated + size_of::<GcBox<Turtle>>() <= usize::MAX,
            old(state)@.collection_due() ==> roots_of_chain(old(stack).head) is Ok,
        ensures
            final(state).wf(),
            final(stack).head == old(stack).head,
            final(self).cache() == old(self).cache(),
            final(state)@.bytes_allocated <= old(state)@.bytes_allocated + size_of::<
                GcBox<Turtle>,
            >(),
            ({
            &&& allocation(
                old(state)@,
                rooted_on_top(old(self)@, old(stack).head),
                newcomer@,
                CellView::fresh(false, turtle),
            ) == final(state)@
            &&& final(self)@ == old(self)@.push(newcomer@)
            &&& !old(self)@.contains(newcomer@)
            &&& final(self).inv(final(state)@)
            &&& final(state)@.cells[newcomer@] == CellView::fresh(false, turtle)
            &&& forall|i: int|
                0 <= i < old(self)@.len() ==> final(state)@.cells[#[trigger] old(self)@[i]]
                    == old(state)@.cells[old(self)@[i]]
            }),
    {
        let ghost before = state@;
        let ghost chain = stack.head;
        let ghost held = self@;
        let addrs = self.addresses();
        let frames = stack.push_roots(&addrs);
        let newcomer = Gc::new(state, stack, turtle);
        stack.pop_frames(frames);
        proof {
            let found = rooted_on_top(held, chain);
            if found is Ok {
                assert forall|k: int| 0 <= k < held.len() implies root_addrs(
                    found->Ok_0,
                ).contains(#[trigger] held[k]) by {
                    lemma_rooted_on_top(held, chain, k);
                }
            }
            lemma_rooted_cells_survive(
                before,
                state@,
                found,
                held,
                newcomer@,
                CellView::fresh(false, turtle),
            );
            old(state).lemma_wf();
            lemma_allocation_bytes(
                before,
                state@,
                found,
                newcomer@,
                CellView::fresh(false, turtle),
            );
            if held.contains(newcomer@) {
                let k = choose|k: int| 0 <= k < held.len() && held[k] == newcomer@;
                assert(held[k] != newcomer@);
            }
        }
        self.turtles.push(newcomer);
        proof {
            assert(self@ =~= held.push(newcomer@));
            assert forall|i: int| 0 <= i < self@.len() implies state@.holds(#[trigger] self@[i]) by {
                if i < held.len() {
                    assert(before.holds(held[i]));
                    assert(state@.cells[held[i]] == before.cells[held[i]]);
                }
            }
        }
        newcomer
    }

    /// A campus with `initial_turtles` turtles of random name, speed, flavor
    /// and color.
    ///
    /// Whatever the draws, the turtles walk at a speed below ten and have no
    /// children and no magical item. Unless the heap has room for all the
    /// turtles without a collection, the chain has to be one that can be
    /// trusted.
    pub fn new(
        state: &mut GcState<Turtle>,
        stack: &mut ShadowStack,
        rng: &mut Pcg64,
        initial_turtles: u32,
    ) -> (campus: Campus)
        requires
            old(state).wf(),
            old(state)@.bytes_allocated + initial_turtles * size_of::<GcBox<Turtle>>()
                <= usize::MAX,
            roots_of_chain(old(stack).head) is Ok || room_for(
                old(state)@,
                initial_turtles as int,
            ),
        ensures
            final(state).wf(),
            final(stack).head == old(stack).head,
            ({
            &&& exists|turtles: Seq<Turtle>| #[trigger]
                enrolled(
                    old(state)@,
                    old(stack).head,
                    campus@,
                    turtles,
                    initial_turtles as int,
                ) == final(state)@
            &&& campus@.len() == initial_turtles
            &&& campus@.no_duplicates()
            &&& campus.inv(final(state)@)
            &&& campus.cache() == Seq::<(Seq<char>, Seq<usize>)>::empty()
            &&& forall|i: int|
                0 <= i < campus@.len() ==> {
                    let turtle = final(state)@.payload(#[trigger] campus@[i])@;
                    &&& turtle.walking_speed < 10
                    &&& turtle.children == Seq::<usize>::empty()
                    &&& turtle.magical_item is None
                }
            }),
    {
        let mut draws = thread_rng();
        let ghost mut turtles: Seq<Turtle> = Seq::empty();
        let mut campus = Campus::empty();
        let ghost size = size_of::<GcBox<Turtle>>();
        let mut i: u32 = 0;
        while i < initial_turtles
            invariant
                i <= initial_turtles,
                state.wf(),
                stack.head == old(stack).head,
                size == size_of::<GcBox<Turtle>>(),
                campus@.len() == i,
                turtles.len() == i,
                enrolled(old(state)@, old(stack).head, campus@, turtles, i as int) == state@,
                roots_of_chain(old(stack).head) is Ok || room_for(state@, initial_turtles - i),
                campus@.no_duplicates(),
                campus.inv(state@),
                campus.cache() == Seq::<(Seq<char>, Seq<usize>)>::empty(),
                state@.bytes_allocated + (initial_turtles - i) * size <= usize::MAX,
                forall|k: int|
                    0 <= k < campus@.len() ==> {
                        let turtle = state@.payload(#[trigger] campus@[k])@;
                        &&& turtle.walking_speed < 10
                        &&& turtle.children == Seq::<usize>::empty()
                        &&& turtle.magical_item is None
                    },
            decreases initial_turtles - i,
        {
            let ghost before = state@;
            let ghost held = campus@;
            proof {
                assert((initial_turtles - i) * size == (initial_turtles - i - 1) * size + size)
                    by (nonlinear_arith);
                assert((initial_turtles - i - 1) * size >= 0) by (nonlinear_arith)
                    requires
                        initial_turtles - i - 1 >= 0,
                        size >= 0,
                {}
                state.lemma_wf();
            }
            let new_turtle = Turtle::new(
                gen_u8(&mut draws).to_string(),  // random name
                gen_u32(&mut draws) % 10,
                Flavor::random_flavor(rng),
                Color::new(gen_u8(&mut draws), gen_u8(&mut draws), gen_u8(&mut draws)),
            );
            proof {
                if !(roots_of_chain(old(stack).head) is Ok) {
                    lemma_room_for(
                        before,
                        rooted_on_top(held, old(stack).head),
                        0,
                        CellView::fresh(false, new_turtle),
                        initial_turtles - i,
                    );
                }
            }
            let newcomer = campus.enroll(state, stack, new_turtle);
            proof {
                if !(roots_of_chain(old(stack).head) is Ok) {
                    lemma_room_for(
                        before,
                        rooted_on_top(held, old(stack).head),
                        newcomer@,
                        CellView::fresh(false, new_turtle),
                        initial_turtles - i,
                    );
                }
                lemma_enrolled_prefix(
                    old(state)@,
                    old(stack).head,
                    held,
                    turtles,
                    campus@.last(),
                    new_turtle,
                    i as int,
                );
                assert(campus@.subrange(0, i as int) == held);
                turtles = turtles.push(new_turtle);
                assert forall|k: int| 0 <= k < campus@.len() implies {
                    let turtle = state@.payload(#[trigger] campus@[k])@;
                    &&& turtle.walking_speed < 10
                    &&& turtle.children == Seq::<usize>::empty()
                    &&& turtle.magical_item is None
                } by {
                    if k < held.len() {
                        assert(campus@[k] == held[k]);
                        assert(before.holds(held[k]));
                    }
                }
            }
            i = i + 1;
        }
        campus
    }

    pub fn size(&self) -> (size: usize)
        ensures
            size == self@.len(),
    {
        self.turtles.len()
    }

    /// The turtles of the campus, in the order of their arrival.
    pub fn turtles(&self) -> (turtles: &Vec<GcRef<Turtle>>)
        ensures
            addrs_of(turtles@) == self@,
    {
        &self.turtles
    }

    /// The addresses of the turtles, in the order of their arrival.
    pub fn addresses(&self) -> (addrs: Vec<usize>)
        ensures
            addrs@ == self@,
    {
        let mut addrs: Vec<usize> = Vec::new();
        let mut i: usize = 0;
        while i < self.turtles.len()
            invariant
                i <= self.turtles@.len(),
                addrs@ == self@.subrange(0, i as int),
            decreases self.turtles@.len() - i,
        {
            addrs.push(self.turtles[i].as_ptr());
            assert(self@.subrange(0, i as int + 1) == self@.subrange(0, i as int).push(
                self@[i as int],
            ));
            i = i + 1;
        }
        assert(self@.subrange(0, self@.len() as int) == self@);
        addrs
    }

    /// The first of the turtles that walk fastest, under a shared borrow
    /// that is the caller's to hand back; none on an empty campus.
    ///
    /// Every turtle is looked at under a shared borrow, so none may be
    /// borrowed exclusively.
    pub fn fastest_walker(&self, state: &mut GcState<Turtle>) -> (fastest: Option<GcBorrow<Turtle>>)
        requires
            forall|i: int| 0 <= i < self@.len() ==> readable(old(state)@, #[trigger] self@[i]),
        ensures
            old(state).wf() ==> final(state).wf(),
            match fastest {
                Some(turtle) => {
                    &&& exists|i: int|
                        #[trigger] fastest_at(old(state)@, self@, i) && self@[i] == turtle@
                    &&& Some(final(state)@) == old(state)@.shared_borrowed(turtle@)
                },
                None => self@.len() == 0 && final(state)@ == old(state)@,
            },
    {
        if self.turtles.len() == 0 {
            return None;
        }
        let mut best: usize = 0;
        let mut i: usize = 1;
        assert(readable(state@, self@[0]));
        let first = self.turtles[0].borrow(state);
        let mut best_speed = first.deref(state).walking_speed();
        first.release(state);
        assert(state@.cells =~= old(state)@.cells);
        while i < self.turtles.len()
            invariant
                1 <= i <= self.turtles@.len(),
                best < i,
                state@ == old(state)@,
                old(state).wf() ==> state.wf(),
                forall|k: int| 0 <= k < self@.len() ==> readable(state@, #[trigger] self@[k]),
                best_speed == state@.payload(self@[best as int])@.walking_speed,
                forall|j: int|
                    0 <= j < i ==> state@.payload(#[trigger] self@[j])@.walking_speed
                        <= best_speed,
                forall|j: int|
                    0 <= j < best ==> state@.payload(#[trigger] self@[j])@.walking_speed
                        < best_speed,
            decreases self.turtles@.len() - i,
        {
            assert(readable(state@, self@[i as int]));
            let look = self.turtles[i].borrow(state);
            let speed = look.deref(state).walking_speed();
            look.release(state);
            assert(state@.cells =~= old(state)@.cells);
            if speed > best_speed {
                best = i;
                best_speed = speed;
            }
            i = i + 1;
        }
        assert(fastest_at(state@, self@, best as int));
        assert(readable(state@, self@[best as int]));
        Some(self.turtles[best].borrow(state))
    }

    /// Sends the turtles to school: each in turn teaches its children.
    pub fn school(&self, state: &mut GcState<Turtle>)
        requires
            schoolable(old(state)@, self@, self@.len() as int),
        ensures
            final(state)@ == schooled(old(state)@, self@, self@.len() as int),
            old(state).wf() ==> final(state).wf(),
    {
        let mut i: usize = 0;
        while i < self.turtles.len()
            invariant
                i <= self.turtles@.len(),
                schoolable(old(state)@, self@, self@.len() as int),
                state@ == schooled(old(state)@, self@, i as int),
                old(state).wf() ==> state.wf(),
            decreases self.turtles@.len() - i,
        {
            proof {
                lemma_schoolable_prefix(old(state)@, self@, i as int + 1, self@.len() as int);
            }
            let ghost before = state@;
            let ghost teacher = self@[i as int];
            let ghost kids = before.payload(teacher)@.children;
            let mut turtle = self.turtles[i];
            let lesson = turtle.borrow_mut(state);
            proof {
                lemma_taught_frame(
                    before.with_flag(teacher, EXCLUSIVE),
                    kids,
                    kids.len() as int,
                    teacher,
                );
            }
            Turtle::teach_children(state, turtle);
            lesson.release(state);
            i = i + 1;
        }
    }

    /// Gives the turtle at `turtle_index` a new color. The turtle is
    /// borrowed exclusively for it, so nobody else may have borrowed it.
    pub fn paint_turtle(&self, state: &mut GcState<Turtle>, turtle_index: usize, new_color: Color)
        requires
            turtle_index < self@.len(),
            old(state)@.holds(self@[turtle_index as int]),
            old(state)@.cells[self@[turtle_index as int]].borrow_flag == UNUSED,
        ensures
            final(state)@ == old(state)@.with_payload(
                self@[turtle_index as int],
                Some(old(state)@.payload(self@[turtle_index as int]).with_color(new_color)),
            ),
            old(state).wf() ==> final(state).wf(),
    {
        let mut turtle = self.turtles[turtle_index];
        let mut paint = turtle.borrow_mut(state);
        paint.deref_mut(state).set_color(new_color);
        paint.release(state);
        assert(state@.cells =~= old(state)@.with_payload(
            self@[turtle_index as int],
            Some(old(state)@.payload(self@[turtle_index as int]).with_color(new_color)),
        ).cells);
    }

    /// Breeds the turtles at the two places and enrolls the child, which
    /// becomes a child of both parents. The parents are borrowed on the way,
    /// so nobody else may have borrowed them.
    pub fn breed_turtles(
        &mut self,
        state: &mut GcState<Turtle>,
        stack: &mut ShadowStack,
        rng: &mut Pcg64,
        t1_index: usize,
        t2_index: usize,
        name: String,
    )
        requires
            old(state).wf(),
            old(self).inv(old(state)@),
            t1_index < old(self)@.len(),
            t2_index < old(self)@.len(),
            old(state)@.cells[old(self)@[t1_index as int]].borrow_flag == UNUSED,
            old(state)@.cells[old(self)@[t2_index as int]].borrow_flag == UNUSED,
            old(state)@.bytes_allocated + size_of::<GcBox<Turtle>>() <= usize::MAX,
            old(state)@.collection_due() ==> roots_of_chain(old(stack).head) is Ok,
        ensures
            final(state).wf(),
            final(stack).head == old(stack).head,
            final(self).cache() == old(self).cache(),
            ({
            let child = final(self)@.last();
            let p1 = old(self)@[t1_index as int];
            let p2 = old(self)@[t2_index as int];
            &&& final(self)@ == old(self)@.push(child)
            &&& !old(self)@.contains(child)
            &&& final(self).inv(final(state)@)
            &&& exists|bred: Turtle|
                same_but_at(
                    #[trigger] allocation(
                        old(state)@,
                        rooted_on_top(old(self)@, old(stack).head),
                        child,
                        CellView::fresh(false, bred),
                    ),
                    final(state)@,
                    p1,
                    p2,
                )
            &&& final(state)@.payload(child)@.name == name@
            &&& final(state)@.payload(child)@.children == Seq::<usize>::empty()
            &&& final(state)@.payload(child)@.magical_item is None
            &&& exists|mask: u32|
                final(state)@.payload(child)@.walking_speed == crossed32(
                    old(state)@.payload(p1)@.walking_speed,
                    old(state)@.payload(p2)@.walking_speed,
                    mask,
                )
            &&& exists|mask: u8|
                final(state)@.payload(child)@.color.r == crossed8(
                    old(state)@.payload(p1)@.color.r,
                    old(state)@.payload(p2)@.color.r,
                    mask,
                )
            &&& exists|mask: u8|
                final(state)@.payload(child)@.color.g == crossed8(
                    old(state)@.payload(p1)@.color.g,
                    old(state)@.payload(p2)@.color.g,
                    mask,
                )
            &&& exists|mask: u8|
                final(state)@.payload(child)@.color.b == crossed8(
                    old(state)@.payload(p1)@.color.b,
                    old(state)@.payload(p2)@.color.b,
                    mask,
                )
            &&& final(state)@.payload(p1)@.children == (if p1 == p2 {
                old(state)@.payload(p1)@.children.push(child).push(child)
            } else {
                old(state)@.payload(p1)@.children.push(child)
            })
            &&& final(state)@.payload(p2)@.children == (if p1 == p2 {
                old(state)@.payload(p2)@.children.push(child).push(child)
            } else {
                old(state)@.payload(p2)@.children.push(child)
            })
            }),
    {
        let ghost before = state@;
        let ghost held = self@;
        let t1 = self.turtles[t1_index];
        let t2 = self.turtles[t2_index];
        assert(state@.holds(self@[t1_index as int]));
        assert(state@.holds(self@[t2_index as int]));
        let new_turtle = Turtle::breed(state, rng, t1, t2, name);
        let ghost bred = new_turtle@;
        let ghost newborn = new_turtle;
        let child = self.enroll(state, stack, new_turtle);
        let ghost placed = state@;
        proof {
            assert(placed.cells[held[t1_index as int]] == before.cells[held[t1_index as int]]);
            assert(placed.cells[held[t2_index as int]] == before.cells[held[t2_index as int]]);
            assert(placed.holds(self@[t1_index as int]));
        }
        let mut t1 = t1;
        let mut first = t1.borrow_mut(state);
        first.deref_mut(state).add_child(child);
        first.release(state);
        let ghost adopted = state@;
        let mut t2 = t2;
        assert(state@.holds(self@[t2_index as int]));
        assert(adopted.cells[self@[t2_index as int]].borrow_flag == UNUSED);
        let mut second = t2.borrow_mut(state);
        second.deref_mut(state).add_child(child);
        second.release(state);
        proof {
            assert forall|i: int| 0 <= i < self@.len() implies state@.holds(#[trigger] self@[i]) by {
                assert(placed.holds(self@[i]));
            }
            let p1 = held[t1_index as int];
            let p2 = held[t2_index as int];
            assert(allocation(
                before,
                rooted_on_top(held, old(stack).head),
                child@,
                CellView::fresh(false, newborn),
            ) == placed);
            assert(adopted.cells.dom() =~= placed.cells.dom());
            assert(state@.cells.dom() =~= adopted.cells.dom());
            assert(same_but_at(placed, state@, p1, p2));
        }
    }

    /// The turtles that bear `name`.
    ///
    /// The answer is remembered: a name that has been looked up before gets
    /// the answer of its first lookup, whatever has happened to the turtles
    /// since.
    ///
    /// For a name that is looked up for the first time every turtle is
    /// looked at under a shared borrow, so none may be borrowed exclusively.
    pub fn turtles_with_name(&mut self, state: &mut GcState<Turtle>, name: &String) -> (found: Vec<
        GcRef<Turtle>,
    >)
        requires
            cached(old(self).cache(), name@, old(self).cache().len() as int) is None ==> forall|
                i: int,
            | 0 <= i < old(self)@.len() ==> readable(old(state)@, #[trigger] old(self)@[i]),
        ensures
            final(self)@ == old(self)@,
            final(state)@ == old(state)@,
            old(state).wf() ==> final(state).wf(),
            match cached(old(self).cache(), name@, old(self).cache().len() as int) {
                Some(known) => addrs_of(found@) == known && final(self).cache() == old(self).cache(),
                None => {
                    &&& addrs_of(found@) == named(
                        old(state)@,
                        old(self)@,
                        name@,
                        old(self)@.len() as int,
                    )
                    &&& final(self).cache() == old(self).cache().push((name@, addrs_of(found@)))
                },
            },
    {
        let mut i: usize = 0;
        while i < self.turtle_name_cache.len()
            invariant
                i <= self.turtle_name_cache@.len(),
                *self == *old(self),
                cached(self.cache(), name@, i as int) is None,
            decreases self.turtle_name_cache@.len() - i,
        {
            if self.turtle_name_cache[i].0 == *name {
                let found = copy_refs(&self.turtle_name_cache[i].1);
                proof {
                    assert(self.cache()[i as int] == (name@, addrs_of(found@)));
                    lemma_cached_stays(self.cache(), name@, i as int + 1, self.cache().len() as int);
                }
                return found;
            }
            assert(self.cache()[i as int].0 != name@);
            i = i + 1;
        }
        let mut result: Vec<GcRef<Turtle>> = Vec::new();
        let mut k: usize = 0;
        while k < self.turtles.len()
            invariant
                k <= self.turtles@.len(),
                *self == *old(self),
                state@ == old(state)@,
                old(state).wf() ==> state.wf(),
                forall|i: int| 0 <= i < self@.len() ==> readable(state@, #[trigger] self@[i]),
                addrs_of(result@) == named(state@, self@, name@, k as int),
            decreases self.turtles@.len() - k,
        {
            let turtle = self.turtles[k];
            assert(readable(state@, self@[k as int]));
            let look = turtle.borrow(state);
            let same = *look.deref(state).name() == *name;
            look.release(state);
            assert(state@.cells =~= old(state)@.cells);
            if same {
                result.push(turtle);
                assert(addrs_of(result@) =~= named(state@, self@, name@, k as int).push(turtle@));
            }
            k = k + 1;
        }
        let kept = copy_refs(&result);
        self.turtle_name_cache.push((name.clone(), kept));
        assert(self.cache() =~= old(self).cache().push((name@, addrs_of(result@))));
        result
    }
}

/// A copy of a vector of references.
pub fn copy_refs(refs: &Vec<GcRef<Turtle>>) -> (copy: Vec<GcRef<Turtle>>)
    ensures
        copy@ == refs@,
{
    let mut copy: Vec<GcRef<Turtle>> = Vec::new();
    let mut i: usize = 0;
    while i < refs.len()
        invariant
            i <= refs@.len(),
            copy@ == refs@.subrange(0, i as int),
        decreases refs@.len() - i,
    {
        copy.push(refs[i]);
        assert(refs@.subrange(0, i as int + 1) == refs@.subrange(0, i as int).push(refs@[i as int]));
        i = i + 1;
    }
    assert(refs@.subrange(0, refs@.len() as int) == refs@);
    copy
}

/// Turtles that can all go to school can go up to any point.
pub proof fn lemma_schoolable_prefix(heap: HeapView<Turtle>, turtles: Seq<usize>, n: int, m: int)
    requires
        n <= m,
        schoolable(heap, turtles, m),
    ensures
        schoolable(heap, turtles, n),
    decreases m - n,
{
    if n < m {
        lemma_schoolable_prefix(heap, turtles, n, m - 1);
    }
}

/// What a cache holds for a name among its first entries, it holds for the
/// name among all of them.
pub proof fn lemma_cached_stays(cache: Seq<(Seq<char>, Seq<usize>)>, name: Seq<char>, n: int, m: int)
    requires
        n <= m,
        cached(cache, name, n) is Some,
    ensures
        cached(cache, name, m) == cached(cache, name, n),
    decreases m - n,
{
    if n < m {
        lemma_cached_stays(cache, name, n, m - 1);
    }
}

} // verus!
