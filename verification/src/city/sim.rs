//! The passing of time in the city: at every step, each tile of the plot has
//! one chance in five to be zoned.

use vstd::prelude::*;
use vstd::layout::size_of;
use crate::cell::{CellView, GcBox};
use crate::city::grid::{all_held, flat, lemma_flat_contains};
use crate::city::grid::{tile_addrs, Grid, Place};
use crate::city::tile::{AnyTile, DevelopmentLevel, ZonedTile};
use crate::gc::{allocation, lemma_allocation_bytes, lemma_room_for};
use crate::gc::{lemma_rooted_cells_survive, room_for, Gc};
use crate::heap::{GcState, HeapView};
use crate::random::{gen_below, thread_rng};
use crate::roots::{
    lemma_rooted_on_top,
    root_addrs,
    rooted_on_top,
    roots_of_chain,
    ShadowStack,
    StackEntry,
};

verus! {

/// One tile in this many is zoned at a step.
pub const ZONING_ODDS: u32 = 5;

/// The grid `after` is the grid `before` but for the tile at `place`, which
/// has become `tile`.
pub open spec fn replaced(
    before: Seq<Seq<usize>>,
    after: Seq<Seq<usize>>,
    place: Place,
    tile: usize,
) -> bool {
    after == before.update(
        place.row as int,
        before[place.row as int].update(place.col as int, tile),
    )
}

/// The heap after a tile, zoned and vacant, has been allocated at `tile`
/// while the tiles of a grid were rooted in frames on top of the chain at
/// `head`.
pub open spec fn zoned(
    heap: HeapView<AnyTile>,
    head: Option<Box<StackEntry>>,
    tiles: Seq<Seq<usize>>,
    tile: usize,
) -> HeapView<AnyTile> {
    allocation(
        heap,
        rooted_on_top(flat(tiles, tiles.len() as int), head),
        tile,
        CellView::fresh(
            false,
            AnyTile::Zoned(ZonedTile { development_level: DevelopmentLevel::Vacant }),
        ),
    )
}

/// Zones the tile at `place`: a new tile, zoned and vacant, takes its place
/// in the grid.
///
/// The new tile is allocated under the rules of `Gc::new`. For the time of
/// the allocation the tiles of the grid are rooted in frames of their own
/// on top of `stack`, which is left as it was found.
pub fn zone(
    state: &mut GcState<AnyTile>,
    stack: &mut ShadowStack,
    grid: &mut Grid,
    place: Place,
)
    requires
        old(state).wf(),
        all_held(old(state)@, old(grid)@),
        place.row < old(grid)@.len(),
        place.col < old(grid)@[place.row as int].len(),
        old(state)@.bytes_allocated + size_of::<GcBox<AnyTile>>() <= usize::MAX,
        old(state)@.collection_due() ==> roots_of_chain(old(stack).head) is Ok,
    ensures
        final(state).wf(),
        final(stack).head == old(stack).head,
        final(state)@.bytes_allocated <= old(state)@.bytes_allocated + size_of::<GcBox<AnyTile>>(),
        ({
            let tile = final(grid)@[place.row as int][place.col as int];
            &&& replaced(old(grid)@, final(grid)@, place, tile)
            &&& final(state)@ == zoned(old(state)@, old(stack).head, old(grid)@, tile)
            &&& !flat(old(grid)@, old(grid)@.len() as int).contains(tile)
            &&& final(state)@.holds(tile)
            &&& final(state)@.payload(tile) == AnyTile::Zoned(
                ZonedTile { development_level: DevelopmentLevel::Vacant },
            )
            &&& forall|i: int, j: int|
                0 <= i < old(grid)@.len() && 0 <= j < old(grid)@[i].len() ==> final(state)@.holds(#[trigger] old(grid)@[i][j]) && final(state)@.payload(old(grid)@[i][j])
                    == old(state)@.payload(old(grid)@[i][j])
        }),
{
    let ghost before = state@;
    let ghost chain = stack.head;
    let ghost tiles = grid@;
    let addrs = grid.tile_addresses();
    let frames = stack.push_roots(&addrs);
    let tile = Gc::new(state, stack, AnyTile::Zoned(ZonedTile::new()));
    stack.pop_frames(frames);
    proof {
        let found = rooted_on_top(addrs@, chain);
        if found is Ok {
            assert forall|k: int| 0 <= k < addrs@.len() implies root_addrs(found->Ok_0).contains(
                #[trigger] addrs@[k],
            ) by {
                lemma_rooted_on_top(addrs@, chain, k);
            }
        }
        assert forall|k: int| 0 <= k < addrs@.len() implies before.contains(
            #[trigger] addrs@[k],
        ) by {
            crate::city::grid::lemma_flat_places(tiles, tiles.len() as int, k);
        }
        let cell = CellView::fresh(
            false,
            AnyTile::Zoned(ZonedTile { development_level: DevelopmentLevel::Vacant }),
        );
        lemma_rooted_cells_survive(before, state@, found, addrs@, tile@, cell);
        state.lemma_wf();
        old(state).lemma_wf();
        lemma_allocation_bytes(before, state@, found, tile@, cell);
        assert forall|i: int, j: int|
            0 <= i < tiles.len() && 0 <= j < tiles[i].len() implies state@.holds(
            #[trigger] tiles[i][j],
        ) && state@.payload(tiles[i][j]) == before.payload(tiles[i][j]) by {
            lemma_flat_contains(tiles, tiles.len() as int, i, j);
            let k = choose|k: int| 0 <= k < addrs@.len() && addrs@[k] == tiles[i][j];
            assert(state@.contains(addrs@[k]));
        }
        if addrs@.contains(tile@) {
            let k = choose|k: int| 0 <= k < addrs@.len() && addrs@[k] == tile@;
            assert(addrs@[k] != tile@);
        }
    }
    let row = &mut grid.rows[place.row];
    row[place.col] = tile;
    proof {
        assert(grid@ =~= tiles.update(
            place.row as int,
            tiles[place.row as int].update(place.col as int, tile@),
        )) by {
            assert forall|i: int| 0 <= i < tiles.len() implies grid@[i] == tiles.update(
                place.row as int,
                tiles[place.row as int].update(place.col as int, tile@),
            )[i] by {
                if i == place.row {
                    assert(grid@[i] =~= tiles[i].update(place.col as int, tile@));
                } else {
                    assert(grid.rows@[i] == old(grid).rows@[i]);
                }
            }
        }
    }
}

/// Settles the fate of the tile at `place` for this step, given its draw:
/// on a draw of zero the tile is zoned, on any other it stays.
pub fn settle(
    state: &mut GcState<AnyTile>,
    stack: &mut ShadowStack,
    grid: &mut Grid,
    place: Place,
    draw: u32,
)
    requires
        old(state).wf(),
        all_held(old(state)@, old(grid)@),
        place.row < old(grid)@.len(),
        place.col < old(grid)@[place.row as int].len(),
        old(state)@.bytes_allocated + size_of::<GcBox<AnyTile>>() <= usize::MAX,
        draw == 0 && old(state)@.collection_due() ==> roots_of_chain(old(stack).head) is Ok,
    ensures
        final(state).wf(),
        final(stack).head == old(stack).head,
        final(state)@.bytes_allocated <= old(state)@.bytes_allocated + size_of::<GcBox<AnyTile>>(),
        draw != 0 ==> final(state)@ == old(state)@ && final(grid)@ == old(grid)@,
        draw == 0 ==> ({
            let tile = final(grid)@[place.row as int][place.col as int];
            &&& replaced(old(grid)@, final(grid)@, place, tile)
            &&& final(state)@ == zoned(old(state)@, old(stack).head, old(grid)@, tile)
            &&& !flat(old(grid)@, old(grid)@.len() as int).contains(tile)
            &&& final(state)@.holds(tile)
            &&& final(state)@.payload(tile) == AnyTile::Zoned(
                ZonedTile { development_level: DevelopmentLevel::Vacant },
            )
            &&& forall|i: int, j: int|
                0 <= i < old(grid)@.len() && 0 <= j < old(grid)@[i].len() ==> final(state)@.holds(#[trigger] old(grid)@[i][j]) && final(state)@.payload(old(grid)@[i][j])
                    == old(state)@.payload(old(grid)@[i][j])
        }),
{
    if draw == 0 {
        zone(state, stack, grid, place);
    }
}

/// The number of tiles in the first `n` rows.
pub open spec fn places(tiles: Seq<Seq<usize>>, n: int) -> int {
    flat(tiles, n).len() as int
}

/// Lets one step of time pass: every tile, row by row, is zoned with one
/// chance in five.
///
/// Whatever the draws, heap and grid end up as the zoning of some of the
/// places, in row order and one after the other, leaves them: see
/// `zoned_in_turn`. Unless the heap has room for a new tile at every place
/// without a collection, the chain has to be one that can be trusted.
pub fn step(state: &mut GcState<AnyTile>, stack: &mut ShadowStack, grid: &mut Grid)
    requires
        old(state).wf(),
        all_held(old(state)@, old(grid)@),
        old(state)@.bytes_allocated + places(old(grid)@, old(grid)@.len() as int) * size_of::<
            GcBox<AnyTile>,
        >() <= usize::MAX,
        roots_of_chain(old(stack).head) is Ok || room_for(
            old(state)@,
            places(old(grid)@, old(grid)@.len() as int),
        ),
    ensures
        final(state).wf(),
        final(stack).head == old(stack).head,
        all_held(final(state)@, final(grid)@),
        final(grid)@.len() == old(grid)@.len(),
        forall|i: int|
            0 <= i < old(grid)@.len() ==> (#[trigger] final(grid)@[i]).len() == old(grid)@[i].len(),
        forall|i: int, j: int|
            0 <= i < old(grid)@.len() && 0 <= j < old(grid)@[i].len() ==> {
                let tile = #[trigger] final(grid)@[i][j];
                ||| tile == old(grid)@[i][j] && final(state)@.payload(tile) == old(state)@.payload(tile)
                ||| final(state)@.payload(tile) == AnyTile::Zoned(
                    ZonedTile { development_level: DevelopmentLevel::Vacant },
                )
            },
        exists|zonings: Seq<(Place, usize)>|
            {
                &&& in_row_order(old(grid)@, zonings)
                &&& #[trigger] zoned_in_turn(
                    old(state)@,
                    old(stack).head,
                    old(grid)@,
                    zonings,
                    zonings.len() as int,
                ) == (final(state)@, final(grid)@)
            },
{
    let ghost size = size_of::<GcBox<AnyTile>>();
    let ghost total = places(grid@, grid@.len() as int);
    let ghost mut done: int = 0;
    let ghost mut zonings: Seq<(Place, usize)> = Seq::empty();
    let rows = grid.rows.len();
    let mut r: usize = 0;
    while r < rows
        invariant
            r <= rows,
            rows == grid@.len(),
            state.wf(),
            stack.head == old(stack).head,
            size == size_of::<GcBox<AnyTile>>(),
            all_held(state@, grid@),
            grid@.len() == old(grid)@.len(),
            forall|i: int|
                0 <= i < old(grid)@.len() ==> (#[trigger] grid@[i]).len() == old(grid)@[i].len(),
            total == places(grid@, grid@.len() as int),
            roots_of_chain(old(stack).head) is Ok || room_for(state@, total - done),
            in_row_order(old(grid)@, zonings),
            forall|k: int| 0 <= k < zonings.len() ==> earlier(#[trigger] zonings[k].0, r, 0),
            zoned_in_turn(
                old(state)@,
                old(stack).head,
                old(grid)@,
                zonings,
                zonings.len() as int,
            ) == (state@, grid@),
            done == places(grid@, r as int),
            state@.bytes_allocated + (total - done) * size <= usize::MAX,
            forall|i: int, j: int|
                0 <= i < old(grid)@.len() && 0 <= j < old(grid)@[i].len() ==> {
                    let tile = #[trigger] grid@[i][j];
                    ||| tile == old(grid)@[i][j] && state@.payload(tile) == old(state)@.payload(
                        tile,
                    )
                    ||| state@.payload(tile) == AnyTile::Zoned(
                        ZonedTile { development_level: DevelopmentLevel::Vacant },
                    )
                },
        decreases rows - r,
    {
        let cols = grid.rows[r].len();
        assert(grid@[r as int] == tile_addrs(grid.rows@[r as int]@));
        let mut c: usize = 0;
        proof {
            lemma_places_grow(grid@, r as int + 1, grid@.len() as int);
        }
        while c < cols
            invariant
                r < rows,
                c <= cols,
                rows == grid@.len(),
                cols == grid@[r as int].len(),
                state.wf(),
                stack.head == old(stack).head,
                size == size_of::<GcBox<AnyTile>>(),
                all_held(state@, grid@),
                grid@.len() == old(grid)@.len(),
                forall|i: int|
                    0 <= i < old(grid)@.len() ==> (#[trigger] grid@[i]).len() == old(grid)@[i].len(),
                total == places(grid@, grid@.len() as int),
                roots_of_chain(old(stack).head) is Ok || room_for(state@, total - done),
                in_row_order(old(grid)@, zonings),
                forall|k: int| 0 <= k < zonings.len() ==> earlier(#[trigger] zonings[k].0, r, c),
                zoned_in_turn(
                    old(state)@,
                    old(stack).head,
                    old(grid)@,
                    zonings,
                    zonings.len() as int,
                ) == (state@, grid@),
                places(grid@, r as int) + cols <= total,
                done == places(grid@, r as int) + c,
                state@.bytes_allocated + (total - done) * size <= usize::MAX,
                forall|i: int, j: int|
                    0 <= i < old(grid)@.len() && 0 <= j < old(grid)@[i].len() ==> {
                        let tile = #[trigger] grid@[i][j];
                        ||| tile == old(grid)@[i][j] && state@.payload(tile) == old(state)@.payload(tile)
                        ||| state@.payload(tile) == AnyTile::Zoned(
                            ZonedTile { development_level: DevelopmentLevel::Vacant },
                        )
                    },
            decreases cols - c,
        {
            let ghost before = state@;
            let ghost tiles = grid@;
            proof {
                assert((total - done) * size == (total - done - 1) * size + size)
                    by (nonlinear_arith);
                assert((total - done - 1) * size >= 0) by (nonlinear_arith)
                    requires
                        total - done - 1 >= 0,
                        size >= 0,
                {}
            }
            let mut rng = thread_rng();
            let draw = gen_below(&mut rng, ZONING_ODDS);
            proof {
                if !(roots_of_chain(old(stack).head) is Ok) {
                    lemma_room_for(
                        before,
                        rooted_on_top(flat(tiles, tiles.len() as int), old(stack).head),
                        0,
                        CellView::fresh(
                            false,
                            AnyTile::Zoned(
                                ZonedTile { development_level: DevelopmentLevel::Vacant },
                            ),
                        ),
                        total - done,
                    );
                }
            }
            settle(state, stack, grid, Place { row: r, col: c }, draw);
            proof {
                if !(roots_of_chain(old(stack).head) is Ok) && draw == 0 {
                    lemma_room_for(
                        before,
                        rooted_on_top(flat(tiles, tiles.len() as int), old(stack).head),
                        grid@[r as int][c as int],
                        CellView::fresh(
                            false,
                            AnyTile::Zoned(
                                ZonedTile { development_level: DevelopmentLevel::Vacant },
                            ),
                        ),
                        total - done,
                    );
                }
                lemma_places_same_shape(tiles, grid@, grid@.len() as int);
                lemma_places_same_shape(tiles, grid@, r as int);
                assert forall|i: int, j: int|
                    0 <= i < grid@.len() && 0 <= j < grid@[i].len() implies state@.holds(
                    #[trigger] grid@[i][j],
                ) by {
                    if draw == 0 && !(i == r && j == c) {
                        assert(state@.holds(tiles[i][j]));
                    }
                }
                assert forall|i: int, j: int|
                    0 <= i < old(grid)@.len() && 0 <= j < old(grid)@[i].len() implies {
                    let tile = #[trigger] grid@[i][j];
                    ||| tile == old(grid)@[i][j] && state@.payload(tile) == old(state)@.payload(
                        tile,
                    )
                    ||| state@.payload(tile) == AnyTile::Zoned(
                        ZonedTile { development_level: DevelopmentLevel::Vacant },
                    )
                } by {
                    if draw == 0 && !(i == r && j == c) {
                        assert(grid@[i][j] == tiles[i][j]);
                        assert(state@.payload(tiles[i][j]) == before.payload(tiles[i][j]));
                    }
                }
                if draw == 0 {
                    let place = Place { row: r, col: c };
                    let tile = grid@[r as int][c as int];
                    let longer = zonings.push((place, tile));
                    lemma_zoned_in_turn_prefix(
                        old(state)@,
                        old(stack).head,
                        old(grid)@,
                        zonings,
                        (place, tile),
                        zonings.len() as int,
                    );
                    assert(longer[zonings.len() as int] == (place, tile));
                    assert forall|i: int, j: int| 0 <= i < j < longer.len() implies earlier(
                        #[trigger] longer[i].0,
                        (#[trigger] longer[j]).0.row,
                        longer[j].0.col,
                    ) by {
                        if j < zonings.len() {
                            assert(earlier(zonings[i].0, zonings[j].0.row, zonings[j].0.col));
                        } else {
                            assert(earlier(zonings[i].0, r, c));
                        }
                    }
                    zonings = longer;
                }
                assert forall|k: int| 0 <= k < zonings.len() implies earlier(
                    #[trigger] zonings[k].0,
                    r,
                    (c + 1) as usize,
                ) by {
                    if draw != 0 || k < zonings.len() - 1 {
                        assert(earlier(zonings[k].0, r, c) ==> earlier(
                            zonings[k].0,
                            r,
                            (c + 1) as usize,
                        ));
                    }
                }
                done = done + 1;
            }
            c = c + 1;
        }
        proof {
            assert forall|k: int| 0 <= k < zonings.len() implies earlier(
                #[trigger] zonings[k].0,
                (r + 1) as usize,
                0,
            ) by {
                assert(earlier(zonings[k].0, r, c));
            }
        }
        r = r + 1;
    }
}

/// The place comes before the place at `row` and `col` in the order in which
/// a step visits the places: row by row, and from left to right in a row.
pub open spec fn earlier(place: Place, row: usize, col: usize) -> bool {
    place.row < row || (place.row == row && place.col < col)
}

/// The zonings name places of the grid, each after the one before it in the
/// order of a step.
pub open spec fn in_row_order(tiles: Seq<Seq<usize>>, zonings: Seq<(Place, usize)>) -> bool {
    &&& forall|k: int|
        0 <= k < zonings.len() ==> (#[trigger] zonings[k]).0.row < tiles.len() && zonings[k].0.col
            < tiles[zonings[k].0.row as int].len()
    &&& forall|i: int, j: int|
        0 <= i < j < zonings.len() ==> earlier(
            #[trigger] zonings[i].0,
            (#[trigger] zonings[j]).0.row,
            zonings[j].0.col,
        )
}

/// The heap and the grid after the first `n` of `zonings` have been carried
/// out, one after the other: each names a place and the address at which
/// the new tile of that place is allocated, while the tiles of the grid as
/// it then is are rooted in frames on top of the chain at `head`.
pub open spec fn zoned_in_turn(
    heap: HeapView<AnyTile>,
    head: Option<Box<StackEntry>>,
    tiles: Seq<Seq<usize>>,
    zonings: Seq<(Place, usize)>,
    n: int,
) -> (HeapView<AnyTile>, Seq<Seq<usize>>)
    decreases n,
{
    if n <= 0 {
        (heap, tiles)
    } else {
        let (before, grid) = zoned_in_turn(heap, head, tiles, zonings, n - 1);
        let (place, tile) = zonings[n - 1];
        (
            zoned(before, head, grid, tile),
            grid.update(place.row as int, grid[place.row as int].update(place.col as int, tile)),
        )
    }
}

/// What the first zonings have made of heap and grid does not depend on the
/// zonings that follow.
pub proof fn lemma_zoned_in_turn_prefix(
    heap: HeapView<AnyTile>,
    head: Option<Box<StackEntry>>,
    tiles: Seq<Seq<usize>>,
    zonings: Seq<(Place, usize)>,
    next: (Place, usize),
    n: int,
)
    requires
        0 <= n <= zonings.len(),
    ensures
        zoned_in_turn(heap, head, tiles, zonings.push(next), n) == zoned_in_turn(
            heap,
            head,
            tiles,
            zonings,
            n,
        ),
    decreases n,
{
    if n > 0 {
        lemma_zoned_in_turn_prefix(heap, head, tiles, zonings, next, n - 1);
    }
}

/// The more rows, the more tiles.
pub proof fn lemma_places_grow(tiles: Seq<Seq<usize>>, n: int, m: int)
    requires
        0 <= n <= m,
    ensures
        places(tiles, n) <= places(tiles, m),
    decreases m - n,
{
    if n < m {
        lemma_places_grow(tiles, n, m - 1);
    }
}

/// Grids of the same shape have the same number of tiles.
pub proof fn lemma_places_same_shape(before: Seq<Seq<usize>>, after: Seq<Seq<usize>>, n: int)
    requires
        0 <= n <= before.len(),
        after.len() == before.len(),
        forall|i: int| 0 <= i < before.len() ==> (#[trigger] after[i]).len() == before[i].len(),
    ensures
        places(after, n) == places(before, n),
    decreases n,
{
    if n > 0 {
        lemma_places_same_shape(before, after, n - 1);
    }
}

} // verus!
