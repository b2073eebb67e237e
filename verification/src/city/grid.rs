//! A grid is a plot of land, divided into squares. It is of fixed size.

use vstd::prelude::*;
use vstd::layout::size_of;
use crate::cell::{CellView, GcBox};
use crate::city::tile::{AnyTile, EmptyTile, Tile};
use crate::gc::{
    allocation,
    lemma_allocation_bytes,
    lemma_room_for,
    lemma_rooted_cells_survive,
    room_for,
    Gc,
};
use crate::heap::{GcState, HeapView};
use crate::reference::GcRef;
use crate::roots::{
    lemma_rooted_on_top,
    root_addrs,
    rooted_on_top,
    roots_of_chain,
    ShadowStack,
    StackEntry,
};

verus! {

pub struct Grid {
    pub rows: Vec<Vec<GcRef<AnyTile>>>,
}

impl View for Grid {
    type V = Seq<Seq<usize>>;

    /// The addresses of the tiles, row by row.
    open spec fn view(&self) -> Seq<Seq<usize>> {
        rows_addrs(self.rows@)
    }
}

/// The addresses that rows of tiles name.
pub open spec fn rows_addrs(rows: Seq<Vec<GcRef<AnyTile>>>) -> Seq<Seq<usize>> {
    rows.map_values(|row: Vec<GcRef<AnyTile>>| tile_addrs(row@))
}

/// The heap after the first `n` of `tiles` have been allocated as empty
/// tiles, one after the other, each while the tiles before it were rooted in
/// frames on top of the chain at `head`.
pub open spec fn planted(
    heap: HeapView<AnyTile>,
    head: Option<Box<StackEntry>>,
    tiles: Seq<usize>,
    n: int,
) -> HeapView<AnyTile>
    decreases n,
{
    if n <= 0 {
        heap
    } else {
        allocation(
            planted(heap, head, tiles, n - 1),
            rooted_on_top(tiles.subrange(0, n - 1), head),
            tiles[n - 1],
            CellView::fresh(false, AnyTile::Empty(EmptyTile {  })),
        )
    }
}

/// What has been planted does not depend on the tiles that follow.
pub proof fn lemma_planted_prefix(
    heap: HeapView<AnyTile>,
    head: Option<Box<StackEntry>>,
    tiles: Seq<usize>,
    more: Seq<usize>,
    n: int,
)
    requires
        0 <= n <= tiles.len(),
    ensures
        planted(heap, head, tiles + more, n) == planted(heap, head, tiles, n),
    decreases n,
{
    if n > 0 {
        lemma_planted_prefix(heap, head, tiles, more, n - 1);
        assert((tiles + more).subrange(0, n - 1) == tiles.subrange(0, n - 1));
    }
}

/// The tiles laid end to end do not depend on the rows that follow.
pub proof fn lemma_flat_prefix(tiles: Seq<Seq<usize>>, more: Seq<Seq<usize>>, n: int)
    requires
        0 <= n <= tiles.len(),
    ensures
        flat(tiles + more, n) == flat(tiles, n),
    decreases n,
{
    if n > 0 {
        lemma_flat_prefix(tiles, more, n - 1);
    }
}

/// The addresses that a row of tiles names.
pub open spec fn tile_addrs(row: Seq<GcRef<AnyTile>>) -> Seq<usize> {
    row.map_values(|tile: GcRef<AnyTile>| tile@)
}

/// Every tile named in `tiles` lives in `heap`.
pub open spec fn all_held(heap: HeapView<AnyTile>, tiles: Seq<Seq<usize>>) -> bool {
    forall|i: int, j: int|
        0 <= i < tiles.len() && 0 <= j < tiles[i].len() ==> heap.holds(#[trigger] tiles[i][j])
}

/// No two places of `tiles` name the same cell.
pub open spec fn all_distinct(tiles: Seq<Seq<usize>>) -> bool {
    forall|i: int, j: int, k: int, l: int|
        0 <= i < tiles.len() && 0 <= j < tiles[i].len() && 0 <= k < tiles.len() && 0 <= l
            < tiles[k].len() && (i != k || j != l) ==> #[trigger] tiles[i][j]
            != #[trigger] tiles[k][l]
}

/// The characters of the first `n` tiles of a row.
pub open spec fn row_glyphs(heap: HeapView<AnyTile>, row: Seq<usize>, n: int) -> Seq<char>
    decreases n,
{
    if n <= 0 {
        Seq::empty()
    } else {
        row_glyphs(heap, row, n - 1).push(heap.payload(row[n - 1]).glyph())
    }
}

/// The text of the first `n` rows: every row starts on a new line.
pub open spec fn rows_text(heap: HeapView<AnyTile>, tiles: Seq<Seq<usize>>, n: int) -> Seq<char>
    decreases n,
{
    if n <= 0 {
        Seq::empty()
    } else {
        rows_text(heap, tiles, n - 1).push('\n') + row_glyphs(
            heap,
            tiles[n - 1],
            tiles[n - 1].len() as int,
        )
    }
}

/// A place of a grid.
#[derive(Debug, Clone, Copy, PartialEq, Eq, Structural)]
pub struct Place {
    pub row: usize,
    pub col: usize,
}

/// A walk over the places of a grid, row by row.
pub struct IterMut {
    next_col: usize,
    next_row: usize,
}

/// A walk over the tiles of a grid that has been given up for it, row by
/// row.
pub struct IntoIter {
    next_col: usize,
    next_row: usize,
    grid: Grid,
}

impl IntoIter {
    /// The place that the walk visits next.
    pub closed spec fn position(&self) -> Place {
        Place { row: self.next_row, col: self.next_col }
    }

    /// The grid that is walked.
    pub closed spec fn tiles(&self) -> Seq<Seq<usize>> {
        self.grid@
    }

    /// Hands out the next tile of the walk, if any is left, and moves on:
    /// to the right, and from the end of a row to the start of the next.
    pub fn next(&mut self) -> (tile: Option<GcRef<AnyTile>>)
        requires
            old(self).position().row < old(self).tiles().len() ==> old(self).position().col
                < old(self).tiles()[old(self).position().row as int].len(),
        ensures
            final(self).tiles() == old(self).tiles(),
            match tile {
                Some(found) => {
                    let here = old(self).position();
                    &&& here.row < old(self).tiles().len()
                    &&& here.col < old(self).tiles()[here.row as int].len()
                    &&& found@ == old(self).tiles()[here.row as int][here.col as int]
                    &&& final(self).position() == (if here.col + 1 < old(self).tiles()[here.row as int].len() {
                        Place { row: here.row, col: (here.col + 1) as usize }
                    } else {
                        Place { row: (here.row + 1) as usize, col: 0 }
                    })
                },
                None => old(self).position().row >= old(self).tiles().len() && final(self).position() == old(self).position(),
            },
    {
        // If we're already past the end, stop.
        if self.next_row >= self.grid.rows.len() {
            return None;
        }
        // Otherwise, we should be within the grid.
        let current_row = &self.grid.rows[self.next_row];
        let row_len = current_row.len();
        assert(self.grid@[self.next_row as int] == tile_addrs(current_row@));
        let result = current_row[self.next_col];
        self.next_col = self.next_col + 1;
        // Update indices
        if self.next_col >= row_len {
            self.next_col = 0;
            self.next_row = self.next_row + 1;
        }
        Some(result)
    }
}

impl IterMut {
    /// The place that the walk visits next.
    pub closed spec fn position(&self) -> Place {
        Place { row: self.next_row, col: self.next_col }
    }

    /// Hands out the next place of the walk, if any is left, and moves on:
    /// to the right, and from the end of a row to the start of the next.
    pub fn next(&mut self, grid: &Grid) -> (place: Option<Place>)
        requires
            old(self).position().row < grid@.len() ==> old(self).position().col
                < grid@[old(self).position().row as int].len(),
        ensures
            match place {
                Some(here) => {
                    &&& here == old(self).position()
                    &&& here.row < grid@.len()
                    &&& here.col < grid@[here.row as int].len()
                    &&& final(self).position() == (if here.col + 1 < grid@[here.row as int].len() {
                        Place { row: here.row, col: (here.col + 1) as usize }
                    } else {
                        Place { row: (here.row + 1) as usize, col: 0 }
                    })
                },
                None => old(self).position().row >= grid@.len() && final(self).position() == old(self).position(),
            },
    {
        // If we're already past the end, stop.
        if self.next_row >= grid.rows.len() {
            return None;
        }
        // Otherwise, we should be within the grid.
        let row_len = grid.rows[self.next_row].len();
        assert(row_len == grid@[self.next_row as int].len());
        let result = Place { row: self.next_row, col: self.next_col };
        self.next_col = self.next_col + 1;
        // Update indices
        if self.next_col >= row_len {
            self.next_col = 0;
            self.next_row = self.next_row + 1;
        }
        Some(result)
    }
}

impl Grid {
    /// A grid of `num_rows` rows of `num_cols` tiles, each a new empty tile
    /// of its own.
    ///
    /// The tiles are allocated under the rules of `Gc::new`. While the grid
    /// is being built, its tiles are rooted in frames of their own on top of
    /// `stack`, which is left as it was found. Unless the heap has room for
    /// all the tiles without a collection, the chain has to be one that can
    /// be trusted.
    pub fn new(
        state: &mut GcState<AnyTile>,
        stack: &mut ShadowStack,
        num_rows: usize,
        num_cols: usize,
    ) -> (grid: Grid)
        requires
            old(state).wf(),
            old(state)@.bytes_allocated + (num_rows * num_cols) * size_of::<GcBox<AnyTile>>()
                <= usize::MAX,
            roots_of_chain(old(stack).head) is Ok || room_for(old(state)@, num_rows * num_cols),
        ensures
            final(state).wf(),
            final(stack).head == old(stack).head,
            final(state)@ == planted(
                old(state)@,
                old(stack).head,
                flat(grid@, num_rows as int),
                num_rows * num_cols,
            ),
            grid@.len() == num_rows,
            forall|i: int| 0 <= i < num_rows ==> (#[trigger] grid@[i]).len() == num_cols,
            all_held(final(state)@, grid@),
            all_distinct(grid@),
            forall|i: int, j: int|
                0 <= i < num_rows && 0 <= j < num_cols ==> final(state)@.payload(
                    #[trigger] grid@[i][j],
                ) == AnyTile::Empty(EmptyTile {  }),
    {
        let ghost size = size_of::<GcBox<AnyTile>>();
        let mut rows: Vec<Vec<GcRef<AnyTile>>> = Vec::new();
        let mut made: Vec<usize> = Vec::new();
        let mut r: usize = 0;
        while r < num_rows
            invariant
                r <= num_rows,
                state.wf(),
                stack.head == old(stack).head,
                size == size_of::<GcBox<AnyTile>>(),
                roots_of_chain(old(stack).head) is Ok || room_for(
                    state@,
                    num_rows * num_cols - made@.len(),
                ),
                made@.len() == r * num_cols,
                made@ == flat(rows_addrs(rows@), r as int),
                planted(old(state)@, old(stack).head, made@, made@.len() as int) == state@,
                state@.bytes_allocated + (num_rows * num_cols - made@.len()) * size <= usize::MAX,
                rows@.len() == r,
                forall|i: int| 0 <= i < r ==> (#[trigger] rows@[i])@.len() == num_cols,
                made@.no_duplicates(),
                forall|k: int|
                    0 <= k < made@.len() ==> state@.holds(#[trigger] made@[k]) && state@.payload(
                        made@[k],
                    ) == AnyTile::Empty(EmptyTile {  }),
                forall|i: int, j: int|
                    0 <= i < r && 0 <= j < num_cols ==> made@.contains(#[trigger] rows@[i]@[j]@),
                forall|i: int, j: int, k: int, l: int|
                    0 <= i < r && 0 <= j < num_cols && 0 <= k < r && 0 <= l < num_cols && (i != k
                        || j != l) ==> #[trigger] rows@[i]@[j]@ != #[trigger] rows@[k]@[l]@,
            decreases num_rows - r,
        {
            let mut row: Vec<GcRef<AnyTile>> = Vec::new();
            let mut c: usize = 0;
            proof {
                assert(made@ + tile_addrs(row@) == made@);
                assert((r + 1) * num_cols == r * num_cols + num_cols) by (nonlinear_arith);
                assert((r + 1) * num_cols <= num_rows * num_cols) by (nonlinear_arith)
                    requires
                        r + 1 <= num_rows,
                {}
            }
            while c < num_cols
                invariant
                    r < num_rows,
                    c <= num_cols,
                    state.wf(),
                    stack.head == old(stack).head,
                    size == size_of::<GcBox<AnyTile>>(),
                    roots_of_chain(old(stack).head) is Ok || room_for(
                        state@,
                        num_rows * num_cols - made@.len(),
                    ),
                    made@.len() == r * num_cols + c,
                    made@ == flat(rows_addrs(rows@), r as int) + tile_addrs(row@),
                    planted(old(state)@, old(stack).head, made@, made@.len() as int) == state@,
                    r * num_cols + num_cols <= num_rows * num_cols,
                    state@.bytes_allocated + (num_rows * num_cols - made@.len()) * size
                        <= usize::MAX,
                    rows@.len() == r,
                    row@.len() == c,
                    forall|i: int| 0 <= i < r ==> (#[trigger] rows@[i])@.len() == num_cols,
                    made@.no_duplicates(),
                    forall|k: int|
                        0 <= k < made@.len() ==> state@.holds(#[trigger] made@[k])
                            && state@.payload(made@[k]) == AnyTile::Empty(EmptyTile {  }),
                    forall|i: int, j: int|
                        0 <= i < r && 0 <= j < num_cols ==> made@.contains(
                            #[trigger] rows@[i]@[j]@,
                        ),
                    forall|j: int| 0 <= j < c ==> made@.contains(#[trigger] row@[j]@),
                    forall|i: int, j: int, k: int, l: int|
                        0 <= i < r && 0 <= j < num_cols && 0 <= k < r && 0 <= l < num_cols && (i
                            != k || j != l) ==> #[trigger] rows@[i]@[j]@ != #[trigger] rows@[k]@[l]@,
                    forall|i: int, j: int, l: int|
                        0 <= i < r && 0 <= j < num_cols && 0 <= l < c ==> #[trigger] rows@[i]@[j]@
                            != #[trigger] row@[l]@,
                    forall|j: int, l: int|
                        0 <= j < c && 0 <= l < c && j != l ==> #[trigger] row@[j]@
                            != #[trigger] row@[l]@,
                decreases num_cols - c,
            {
                let ghost before = state@;
                let ghost chain = stack.head;
                let ghost made0 = made@;
                let ghost row0 = row@;
                proof {
                    state.lemma_wf();
                    assert((num_rows * num_cols - made@.len()) * size >= size) by (nonlinear_arith)
                        requires
                            num_rows * num_cols - made@.len() >= 1,
                            size >= 0,
                    {}
                    assert((num_rows * num_cols - made@.len()) * size == (num_rows * num_cols
                        - made@.len() - 1) * size + size) by (nonlinear_arith);
                }
                let frames = stack.push_roots(&made);
                proof {
                    if !(roots_of_chain(chain) is Ok) {
                        lemma_room_for(
                            before,
                            rooted_on_top(made0, chain),
                            0,
                            CellView::fresh(false, AnyTile::Empty(EmptyTile {  })),
                            num_rows * num_cols - made0.len(),
                        );
                    }
                }
                let tile = Gc::new(state, stack, AnyTile::Empty(EmptyTile {  }));
                stack.pop_frames(frames);
                proof {
                    let found = rooted_on_top(made0, chain);
                    if !(roots_of_chain(chain) is Ok) {
                        lemma_room_for(
                            before,
                            found,
                            tile@,
                            CellView::fresh(false, AnyTile::Empty(EmptyTile {  })),
                            num_rows * num_cols - made0.len(),
                        );
                    }
                    if found is Ok {
                        assert forall|k: int| 0 <= k < made0.len() implies root_addrs(
                            found->Ok_0,
                        ).contains(#[trigger] made0[k]) by {
                            lemma_rooted_on_top(made0, chain, k);
                        }
                    }
                    let cell = CellView::fresh(false, AnyTile::Empty(EmptyTile {  }));
                    lemma_rooted_cells_survive(before, state@, found, made0, tile@, cell);
                    lemma_allocation_bytes(before, state@, found, tile@, cell);
                    assert(made0.push(tile@).no_duplicates());
                }
                row.push(tile);
                made.push(tile.as_ptr());
                c = c + 1;
                proof {
                    assert(made@ == made0.push(tile@));
                    assert(row@ == row0.push(tile));
                    assert(made@ == made0 + seq![tile@]);
                    lemma_planted_prefix(
                        old(state)@,
                        chain,
                        made0,
                        seq![tile@],
                        made0.len() as int,
                    );
                    assert(made@.subrange(0, made0.len() as int) == made0);
                    assert(tile_addrs(row@) == tile_addrs(row0).push(tile@));
                    assert(made@ == flat(rows_addrs(rows@), r as int) + tile_addrs(row@));
                    assert forall|addr: usize| made0.contains(addr) implies made@.contains(
                        addr,
                    ) && addr != tile@ by {
                        let k = choose|k: int| 0 <= k < made0.len() && made0[k] == addr;
                        assert(made@[k] == addr);
                        assert(made@[made0.len() as int] == tile@);
                    }
                    assert forall|i: int, j: int|
                        0 <= i < r && 0 <= j < num_cols implies made@.contains(
                        #[trigger] rows@[i]@[j]@,
                    ) && rows@[i]@[j]@ != tile@ by {
                        assert(made0.contains(rows@[i]@[j]@));
                    }
                    assert forall|j: int| 0 <= j < c implies made@.contains(#[trigger] row@[j]@) by {
                        if j < c - 1 {
                            assert(row@[j] == row0[j]);
                            assert(made0.contains(row0[j]@));
                        } else {
                            assert(made@[made0.len() as int] == row@[j]@);
                        }
                    }
                    assert forall|j: int| 0 <= j < c - 1 implies row@[j]@ != tile@ by {
                        assert(row@[j] == row0[j]);
                        assert(made0.contains(row0[j]@));
                    }
                    assert forall|j: int, l: int|
                        0 <= j < c && 0 <= l < c && j != l implies #[trigger] row@[j]@
                        != #[trigger] row@[l]@ by {
                        if j < c - 1 {
                            assert(row@[j] == row0[j]);
                        }
                        if l < c - 1 {
                            assert(row@[l] == row0[l]);
                        }
                    }
                    assert forall|i: int, j: int, l: int|
                        0 <= i < r && 0 <= j < num_cols && 0 <= l < c implies #[trigger] rows@[i]@[j]@
                        != #[trigger] row@[l]@ by {
                        if l < c - 1 {
                            assert(row@[l] == row0[l]);
                        }
                    }
                }
            }
            let ghost rows0 = rows@;
            rows.push(row);
            proof {
                assert(rows_addrs(rows@) == rows_addrs(rows0) + seq![tile_addrs(row@)]);
                lemma_flat_prefix(rows_addrs(rows0), seq![tile_addrs(row@)], r as int);
            }
            r = r + 1;
        }
        let grid = Grid { rows };
        proof {
            assert forall|i: int| 0 <= i < num_rows implies (#[trigger] grid@[i]).len()
                == num_cols by {
                assert(grid@[i] == tile_addrs(grid.rows@[i]@));
            }
            assert forall|i: int, j: int|
                0 <= i < grid@.len() && 0 <= j < grid@[i].len() implies state@.holds(
                #[trigger] grid@[i][j],
            ) && state@.payload(grid@[i][j]) == AnyTile::Empty(EmptyTile {  }) by {
                assert(grid@[i] == tile_addrs(grid.rows@[i]@));
                assert(made@.contains(grid.rows@[i]@[j]@));
            }
            assert forall|i: int, j: int, k: int, l: int|
                0 <= i < grid@.len() && 0 <= j < grid@[i].len() && 0 <= k < grid@.len() && 0 <= l
                    < grid@[k].len() && (i != k || j != l) implies #[trigger] grid@[i][j]
                != #[trigger] grid@[k][l] by {
                assert(grid@[i] == tile_addrs(grid.rows@[i]@));
                assert(grid@[k] == tile_addrs(grid.rows@[k]@));
                assert(grid.rows@[i]@[j]@ != grid.rows@[k]@[l]@);
            }
        }
        grid
    }

    /// The addresses of the tiles, row by row.
    pub fn tile_addresses(&self) -> (addrs: Vec<usize>)
        ensures
            addrs@ == flat(self@, self@.len() as int),
    {
        let mut addrs: Vec<usize> = Vec::new();
        let mut r: usize = 0;
        while r < self.rows.len()
            invariant
                r <= self.rows@.len(),
                addrs@ == flat(self@, r as int),
            decreases self.rows@.len() - r,
        {
            let row = &self.rows[r];
            let ghost start = addrs@;
            assert(self@[r as int] == tile_addrs(row@));
            let mut c: usize = 0;
            while c < row.len()
                invariant
                    c <= row@.len(),
                    addrs@ == start + tile_addrs(row@).subrange(0, c as int),
                decreases row@.len() - c,
            {
                addrs.push(row[c].as_ptr());
                assert(tile_addrs(row@).subrange(0, c as int + 1) == tile_addrs(row@).subrange(
                    0,
                    c as int,
                ).push(row@[c as int]@));
                c = c + 1;
            }
            assert(tile_addrs(row@).subrange(0, row@.len() as int) == tile_addrs(row@));
            r = r + 1;
        }
        addrs
    }

    /// Gives the grid up for a walk over its tiles that starts at the first
    /// tile of the first row.
    pub fn into_iter(self) -> (walk: IntoIter)
        ensures
            walk.tiles() == self@,
            walk.position() == (Place { row: 0, col: 0 }),
    {
        IntoIter { next_col: 0, next_row: 0, grid: self }
    }

    /// A walk over the places of the grid that starts at the first tile of
    /// the first row.
    pub fn iter_mut(&mut self) -> (walk: IterMut)
        ensures
            *final(self) == *old(self),
            walk.position() == (Place { row: 0, col: 0 }),
    {
        IterMut { next_col: 0, next_row: 0 }
    }

    /// The grid as plain text: each row on a line of its own, after a line
    /// break, and a line break at the end.
    pub fn render(&self, state: &GcState<AnyTile>) -> (text: Vec<char>)
        requires
            all_held(state@, self@),
        ensures
            text@ == rows_text(state@, self@, self@.len() as int).push('\n'),
    {
        let mut text: Vec<char> = Vec::new();
        let mut r: usize = 0;
        while r < self.rows.len()
            invariant
                r <= self.rows@.len(),
                all_held(state@, self@),
                text@ == rows_text(state@, self@, r as int),
            decreases self.rows@.len() - r,
        {
            text.push('\n');
            let row = &self.rows[r];
            let ghost start = text@;
            let mut c: usize = 0;
            assert(self@[r as int] == tile_addrs(row@));
            while c < row.len()
                invariant
                    c <= row@.len(),
                    r < self.rows@.len(),
                    self@[r as int] == tile_addrs(row@),
                    all_held(state@, self@),
                    text@ == start + row_glyphs(state@, self@[r as int], c as int),
                decreases row@.len() - c,
            {
                assert(state@.holds(self@[r as int][c as int]));
                let tile = row[c].as_ref(state);
                text.push(tile.symbol());
                assert(text@ == start + row_glyphs(state@, self@[r as int], c as int + 1));
                c = c + 1;
            }
            r = r + 1;
        }
        text.push('\n');
        text
    }
}

/// The tiles of the first `n` rows, one row after the other.
pub open spec fn flat(tiles: Seq<Seq<usize>>, n: int) -> Seq<usize>
    decreases n,
{
    if n <= 0 {
        Seq::empty()
    } else {
        flat(tiles, n - 1) + tiles[n - 1]
    }
}

/// Every tile of the first `n` rows is among the tiles of those rows laid
/// end to end.
pub proof fn lemma_flat_contains(tiles: Seq<Seq<usize>>, n: int, i: int, j: int)
    requires
        0 <= i < n <= tiles.len(),
        0 <= j < tiles[i].len(),
    ensures
        flat(tiles, n).contains(tiles[i][j]),
    decreases n,
{
    if i == n - 1 {
        assert(flat(tiles, n)[flat(tiles, n - 1).len() + j] == tiles[i][j]);
    } else {
        lemma_flat_contains(tiles, n - 1, i, j);
        let shorter = flat(tiles, n - 1);
        let k = choose|k: int| 0 <= k < shorter.len() && shorter[k] == tiles[i][j];
        assert(flat(tiles, n)[k] == tiles[i][j]);
    }
}

/// Every tile of the rows laid end to end sits at some place of the grid.
pub proof fn lemma_flat_places(tiles: Seq<Seq<usize>>, n: int, k: int)
    requires
        0 <= n <= tiles.len(),
        0 <= k < flat(tiles, n).len(),
    ensures
        exists|i: int, j: int|
            0 <= i < n && 0 <= j < tiles[i].len() && #[trigger] tiles[i][j] == flat(tiles, n)[k],
    decreases n,
{
    if n > 0 {
        let before = flat(tiles, n - 1);
        if k < before.len() {
            lemma_flat_places(tiles, n - 1, k);
            let (i, j) = choose|i: int, j: int|
                0 <= i < n - 1 && 0 <= j < tiles[i].len() && #[trigger] tiles[i][j] == before[k];
            assert(tiles[i][j] == flat(tiles, n)[k]);
        } else {
            assert(tiles[n - 1][k - before.len()] == flat(tiles, n)[k]);
        }
    }
}

} // verus!
