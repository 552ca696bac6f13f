//! The simulation state machine: a 20x10 occupancy grid, the active
//! falling piece, per-tick gravity, landing, row clearing, and cyclic
//! piece succession.

use crate::piece::{lemma_offsets_bounded, next_piece, next_piece_exec, offsets, offsets_spec,
    Piece};
use vstd::prelude::*;

verus! {

/// Number of grid columns.
pub const NCOLS: usize = 10;

/// Number of grid rows.
pub const NROWS: usize = 20;

/// A movement or rotation intent forwarded by the driver. Accepted as
/// an explicit extension point: the simulation currently applies no
/// transition for any intent.
#[derive(Debug, PartialEq, Eq, Structural, Copy, Clone)]
pub enum Event {
    Left,
    Right,
    Clock,
    CounterClock,
}

/// The mathematical view of a grid: a sequence of rows, each a
/// sequence of cells, a cell being 1 (filled) or 0 (empty).
pub open spec fn grid_view(g: Vec<Vec<i32>>) -> Seq<Seq<i32>> {
    Seq::new(g@.len(), |r: int| g@[r]@)
}

/// The grid has exactly 20 rows of exactly 10 cells.
pub open spec fn grid_dims(g: Seq<Seq<i32>>) -> bool {
    &&& g.len() == NROWS
    &&& forall|r: int| 0 <= r < NROWS ==> (#[trigger] g[r]).len() == NCOLS
}

/// Every cell is a binary occupancy flag.
pub open spec fn grid_cells_binary(g: Seq<Seq<i32>>) -> bool {
    forall|r: int, c: int|
        0 <= r < NROWS && 0 <= c < NCOLS ==> #[trigger] g[r][c] == 0 || g[r][c] == 1
}

/// A well-formed grid: right dimensions, binary cells.
pub open spec fn grid_wf(g: Seq<Seq<i32>>) -> bool {
    grid_dims(g) && grid_cells_binary(g)
}

/// The four absolute grid positions occupied by a piece at the given
/// rotation and anchor.
pub open spec fn positions(p: Piece, rot: int, ar: int, ac: int) -> Seq<(int, int)> {
    Seq::new(4, |i: int| (ar + offsets_spec(p, rot)[i].0, ac + offsets_spec(p, rot)[i].1))
}

/// All four positions of the placement lie inside the grid.
pub open spec fn placement_in_bounds(p: Piece, rot: int, ar: int, ac: int) -> bool {
    forall|i: int|
        0 <= i < 4 ==> {
            let pos = #[trigger] positions(p, rot, ar, ac)[i];
            0 <= pos.0 < NROWS && 0 <= pos.1 < NCOLS
        }
}

/// All four positions of the placement are filled in the grid.
pub open spec fn footprint_painted(g: Seq<Seq<i32>>, p: Piece, rot: int, ar: int, ac: int) -> bool {
    forall|i: int|
        0 <= i < 4 ==> {
            let pos = #[trigger] positions(p, rot, ar, ac)[i];
            g[pos.0][pos.1] == 1
        }
}

/// The grid with every cell of the placement's footprint set to `v`
/// and every other cell unchanged.
pub open spec fn painted(
    g: Seq<Seq<i32>>,
    p: Piece,
    rot: int,
    ar: int,
    ac: int,
    v: i32,
) -> Seq<Seq<i32>> {
    Seq::new(
        g.len(),
        |r: int|
            Seq::new(
                g[r].len(),
                |c: int|
                    if positions(p, rot, ar, ac).contains((r, c)) {
                        v
                    } else {
                        g[r][c]
                    },
            ),
    )
}

/// The placement overlaps no filled cell of the grid.
pub open spec fn fits_spec(g: Seq<Seq<i32>>, p: Piece, row: int, col: int, rot: int) -> bool {
    forall|i: int|
        0 <= i < 4 ==> {
            let pos = #[trigger] positions(p, rot, row, col)[i];
            g[pos.0][pos.1] != 1
        }
}

/// The falling piece can drop one row: no footprint cell sits on the
/// bottom row, and each cell one row below is either part of the
/// piece's own footprint or empty.
pub open spec fn can_drop_spec(g: Seq<Seq<i32>>, p: Piece, rot: int, ar: int, ac: int) -> bool {
    forall|i: int|
        0 <= i < 4 ==> {
            let pos = #[trigger] positions(p, rot, ar, ac)[i];
            &&& pos.0 + 1 < NROWS
            &&& (positions(p, rot, ar, ac).contains((pos.0 + 1, pos.1)) || g[pos.0 + 1][pos.1]
                != 1)
        }
}

/// Every cell of the row is filled.
pub open spec fn row_full(g: Seq<Seq<i32>>, r: int) -> bool {
    forall|c: int| 0 <= c < NCOLS ==> #[trigger] g[r][c] == 1
}

/// An all-empty row.
pub open spec fn empty_row() -> Seq<i32> {
    Seq::new(NCOLS as nat, |c: int| 0i32)
}

/// The grid after clearing row `row`: each row from `row` down to 1
/// takes the contents of the row above it, and row 0 becomes empty.
/// Rows below `row` are unchanged.
pub open spec fn shifted(g: Seq<Seq<i32>>, row: int) -> Seq<Seq<i32>> {
    Seq::new(
        g.len(),
        |r: int|
            if r == 0 {
                empty_row()
            } else if r <= row {
                g[r - 1]
            } else {
                g[r]
            },
    )
}

/// The grid after the row-clear pass over rows `lo..=hi` in ascending
/// order: each row that is completely filled at the moment it is
/// examined triggers an immediate shift.
pub open spec fn cleared(g: Seq<Seq<i32>>, lo: int, hi: int) -> Seq<Seq<i32>>
    decreases hi + 1 - lo,
{
    if lo > hi {
        g
    } else {
        let g1 = if row_full(g, lo) {
            shifted(g, lo)
        } else {
            g
        };
        cleared(g1, lo + 1, hi)
    }
}

/// The smaller of two integers.
pub open spec fn min_int(a: int, b: int) -> int {
    if a <= b {
        a
    } else {
        b
    }
}

/// The larger of two integers.
pub open spec fn max_int(a: int, b: int) -> int {
    if a >= b {
        a
    } else {
        b
    }
}

/// The lowest row index touched by the placement's footprint.
pub open spec fn span_min(p: Piece, rot: int, ar: int, ac: int) -> int {
    let ps = positions(p, rot, ar, ac);
    min_int(min_int(ps[0].0, ps[1].0), min_int(ps[2].0, ps[3].0))
}

/// The highest row index touched by the placement's footprint.
pub open spec fn span_max(p: Piece, rot: int, ar: int, ac: int) -> int {
    let ps = positions(p, rot, ar, ac);
    max_int(max_int(ps[0].0, ps[1].0), max_int(ps[2].0, ps[3].0))
}

/// The mathematical view of a whole simulation state.
#[verifier::ext_equal]
pub ghost struct TetrisView {
    pub grid: Seq<Seq<i32>>,
    pub piece: Piece,
    pub rotation: int,
    pub anchor_row: int,
    pub anchor_col: int,
    pub game_over: bool,
}

impl TetrisView {
    /// Well-formedness: the grid is a binary 20x10 matrix, the
    /// rotation index is one of the four states and, while the game is
    /// running, the active piece's footprint lies inside the grid and
    /// is marked occupied.
    pub open spec fn wf(self) -> bool {
        &&& grid_wf(self.grid)
        &&& 0 <= self.rotation < 4
        &&& !self.game_over ==> {
            &&& placement_in_bounds(self.piece, self.rotation, self.anchor_row, self.anchor_col)
            &&& footprint_painted(
                self.grid,
                self.piece,
                self.rotation,
                self.anchor_row,
                self.anchor_col,
            )
        }
    }
}

/// The all-empty grid.
pub open spec fn empty_grid() -> Seq<Seq<i32>> {
    Seq::new(NROWS as nat, |r: int| empty_row())
}

/// The state after a one-row drop: the old footprint is erased, the
/// anchor row grows by one, and the footprint is repainted there.
pub open spec fn drop_step(v: TetrisView) -> TetrisView {
    TetrisView {
        grid: painted(
            painted(v.grid, v.piece, v.rotation, v.anchor_row, v.anchor_col, 0),
            v.piece,
            v.rotation,
            v.anchor_row + 1,
            v.anchor_col,
            1,
        ),
        anchor_row: v.anchor_row + 1,
        ..v
    }
}

/// The grid after the landed piece's row span has been examined for
/// complete rows, in ascending order.
pub open spec fn land_grid(v: TetrisView) -> Seq<Seq<i32>> {
    cleared(
        v.grid,
        span_min(v.piece, v.rotation, v.anchor_row, v.anchor_col),
        span_max(v.piece, v.rotation, v.anchor_row, v.anchor_col),
    )
}

/// The state one tick later. A stopped game is left untouched. While
/// the piece can drop, it drops one row. Otherwise the piece has
/// landed: complete rows in its span are cleared, and the successor
/// piece spawns at the fixed anchor if it fits there; if it does not,
/// the game is over and nothing is painted for the failed spawn.
pub open spec fn tick_next(v: TetrisView) -> TetrisView {
    if v.game_over {
        v
    } else if can_drop_spec(v.grid, v.piece, v.rotation, v.anchor_row, v.anchor_col) {
        drop_step(v)
    } else {
        let g1 = land_grid(v);
        let p2 = next_piece(v.piece);
        if fits_spec(g1, p2, 0, 4, 0) {
            TetrisView {
                grid: painted(g1, p2, 0, 0, 4, 1),
                piece: p2,
                rotation: 0,
                anchor_row: 0,
                anchor_col: 4,
                game_over: false,
            }
        } else {
            TetrisView { grid: g1, game_over: true, ..v }
        }
    }
}

/// Whether the game may continue after a tick from state `v`.
pub open spec fn tick_result(v: TetrisView) -> bool {
    !tick_next(v).game_over
}

/// The state a fresh simulation starts in: an empty grid with the
/// first piece painted at the fixed spawn anchor.
pub open spec fn initial_view() -> TetrisView {
    TetrisView {
        grid: painted(empty_grid(), Piece::O, 0, 0, 4, 1),
        piece: Piece::O,
        rotation: 0,
        anchor_row: 0,
        anchor_col: 4,
        game_over: false,
    }
}

/// The simulation state: the grid plus the identity, rotation and
/// anchor of the active falling piece, and whether the game has
/// reached its terminal state.
#[derive(Clone, PartialEq, Eq)]
pub struct Tetris {
    /// The current NROWS x NCOLS grid of occupancy flags.
    pub grid: Vec<Vec<i32>>,
    /// The type of the current falling piece.
    pub piece: Piece,
    /// The rotation state of the current falling piece.
    pub rotation: usize,
    /// The anchor row coordinate of the falling piece.
    pub anchor_row: usize,
    /// The anchor col coordinate of the falling piece.
    pub anchor_col: usize,
    /// Whether a successor piece failed to spawn: the terminal state.
    pub game_over: bool,
}

impl View for Tetris {
    type V = TetrisView;

    open spec fn view(&self) -> TetrisView {
        TetrisView {
            grid: grid_view(self.grid),
            piece: self.piece,
            rotation: self.rotation as int,
            anchor_row: self.anchor_row as int,
            anchor_col: self.anchor_col as int,
            game_over: self.game_over,
        }
    }
}

/// Whether the position list holds the given (row, col) pair.
fn contains_pos(ps: &Vec<(usize, usize)>, row: usize, col: usize) -> (b: bool)
    ensures
        b == ps@.contains((row, col)),
{
    let n = ps.len();
    let mut i: usize = 0;
    while i < n
        invariant
            i <= n,
            n == ps@.len(),
            forall|j: int| 0 <= j < i ==> #[trigger] ps@[j] != (row, col),
        decreases n - i,
    {
        let (r, c) = ps[i];
        if r == row && c == col {
            proof {
                assert(ps@[i as int] == (row, col));
            }
            return true;
        }
        i += 1;
    }
    false
}

/// Paint (fill = true) or clear (fill = false) the grid cells of the
/// given piece's footprint at the given rotation and anchor.
pub(crate) fn update(
    grid: &mut Vec<Vec<i32>>,
    piece: Piece,
    rotation: usize,
    anchor_row: usize,
    anchor_col: usize,
    fill: bool,
)
    requires
        grid_dims(grid_view(*old(grid))),
        rotation < 4,
        placement_in_bounds(piece, rotation as int, anchor_row as int, anchor_col as int),
    ensures
        grid_view(*final(grid)) == painted(
            grid_view(*old(grid)),
            piece,
            rotation as int,
            anchor_row as int,
            anchor_col as int,
            if fill {
                1i32
            } else {
                0i32
            },
        ),
{
    let ghost rot = rotation as int;
    let ghost ar = anchor_row as int;
    let ghost ac = anchor_col as int;
    let ghost g0 = grid_view(*grid);
    let ghost v: i32 = if fill { 1i32 } else { 0i32 };
    let offs = offsets(piece, rotation);
    let mut i: usize = 0;
    while i < 4
        invariant
            i <= 4,
            rot == rotation as int,
            ar == anchor_row as int,
            ac == anchor_col as int,
            rotation < 4,
            offs@.len() == 4,
            forall|j: int|
                0 <= j < 4 ==> ((#[trigger] offs@[j]).0 as int, offs@[j].1 as int) == offsets_spec(
                    piece,
                    rot,
                )[j],
            placement_in_bounds(piece, rot, ar, ac),
            v == (if fill { 1i32 } else { 0i32 }),
            g0 == grid_view(*old(grid)),
            grid_view(*grid).len() == g0.len(),
            grid_dims(g0),
            forall|r: int| 0 <= r < g0.len() ==> (#[trigger] grid_view(*grid)[r]).len()
                == g0[r].len(),
            forall|r: int, c: int|
                0 <= r < g0.len() && 0 <= c < g0[r].len() ==> #[trigger] grid_view(*grid)[r][c] == (
                if exists|j: int| 0 <= j < i && positions(piece, rot, ar, ac)[j] == (r, c) {
                    v
                } else {
                    g0[r][c]
                }),
        decreases 4 - i,
    {
        let (off_row, off_col) = offs[i];
        proof {
            let pos = positions(piece, rot, ar, ac)[i as int];
            assert(pos == (
                ar + offsets_spec(piece, rot)[i as int].0,
                ac + offsets_spec(piece, rot)[i as int].1,
            ));
            assert(0 <= pos.0 < NROWS && 0 <= pos.1 < NCOLS);
            assert((off_row, off_col) == offs@[i as int]);
            assert(((#[trigger] offs@[i as int]).0 as int, offs@[i as int].1 as int)
                == offsets_spec(piece, rot)[i as int]);
            assert(off_row as int == offsets_spec(piece, rot)[i as int].0);
            assert(off_col as int == offsets_spec(piece, rot)[i as int].1);
            assert(anchor_row + off_row == pos.0);
            assert(anchor_col + off_col == pos.1);
        }
        let row = anchor_row + off_row;
        let col = anchor_col + off_col;
        let ghost gprev = grid_view(*grid);
        let ghost vprev = (*grid)@;
        proof {
            assert(vprev.len() == gprev.len());
            assert(grid_view(*grid)[row as int].len() == g0[row as int].len());
            assert(vprev[row as int]@.len() == NCOLS);
        }
        if fill {
            grid[row][col] = 1;
        } else {
            grid[row][col] = 0;
        }
        proof {
            assert forall|r: int| 0 <= r < gprev.len() && r != row as int implies #[trigger] grid_view(
                *grid,
            )[r] == gprev[r] by {
                assert((*grid)@[r] == vprev[r]);
            }
            assert((*grid)@[row as int]@ =~= vprev[row as int]@.update(col as int, v));
            assert(grid_view(*grid)[row as int] =~= gprev[row as int].update(col as int, v));
        }
        proof {
            let gi = i as int;
            assert forall|r: int, c: int|
                0 <= r < g0.len() && 0 <= c < g0[r].len() implies #[trigger] grid_view(*grid)[r][c]
                == (if exists|j: int| 0 <= j <= gi && positions(piece, rot, ar, ac)[j] == (r, c) {
                v
            } else {
                g0[r][c]
            }) by {
                if r == row as int && c == col as int {
                    assert(positions(piece, rot, ar, ac)[gi] == (r, c));
                } else {
                    assert(grid_view(*grid)[r][c] == gprev[r][c]);
                    if exists|j: int| 0 <= j <= gi && positions(piece, rot, ar, ac)[j] == (r, c) {
                        let j = choose|j: int|
                            0 <= j <= gi && positions(piece, rot, ar, ac)[j] == (r, c);
                        assert(j < gi);
                    }
                }
            }
        }
        i += 1;
    }
    proof {
        let gp = painted(g0, piece, rot, ar, ac, v);
        assert forall|r: int| 0 <= r < g0.len() implies (#[trigger] grid_view(*grid)[r]) =~= gp[r]
        by {
            assert forall|c: int| 0 <= c < g0[r].len() implies grid_view(*grid)[r][c] == gp[r][c]
            by {
                if positions(piece, rot, ar, ac).contains((r, c)) {
                    let j = choose|j: int|
                        0 <= j < 4 && positions(piece, rot, ar, ac)[j] == (r, c);
                    assert(grid_view(*grid)[r][c] == v);
                } else {
                    assert(forall|j: int|
                        0 <= j < 4 ==> positions(piece, rot, ar, ac)[j] != (r, c));
                    assert(grid_view(*grid)[r][c] == g0[r][c]);
                }
            }
        }
        assert(grid_view(*grid) =~~= gp);
    }
}

/// Painting a footprint with a binary value keeps the grid
/// well-formed.
pub proof fn lemma_painted_preserves_wf(
    g: Seq<Seq<i32>>,
    p: Piece,
    rot: int,
    ar: int,
    ac: int,
    v: i32,
)
    requires
        grid_wf(g),
        v == 0 || v == 1,
    ensures
        grid_wf(painted(g, p, rot, ar, ac, v)),
{
    let gp = painted(g, p, rot, ar, ac, v);
    assert forall|r: int| 0 <= r < NROWS implies (#[trigger] gp[r]).len() == NCOLS by {
        assert(g[r].len() == NCOLS);
    }
    assert forall|r: int, c: int| 0 <= r < NROWS && 0 <= c < NCOLS implies #[trigger] gp[r][c] == 0
        || gp[r][c] == 1 by {
        assert(g[r][c] == 0 || g[r][c] == 1);
    }
}

/// After painting a footprint with 1, that footprint is marked
/// occupied.
pub proof fn lemma_painted_footprint(g: Seq<Seq<i32>>, p: Piece, rot: int, ar: int, ac: int)
    requires
        grid_dims(g),
        placement_in_bounds(p, rot, ar, ac),
    ensures
        footprint_painted(painted(g, p, rot, ar, ac, 1), p, rot, ar, ac),
{
    let gp = painted(g, p, rot, ar, ac, 1);
    let ps = positions(p, rot, ar, ac);
    assert forall|i: int| 0 <= i < 4 implies {
        let pos = #[trigger] ps[i];
        gp[pos.0][pos.1] == 1
    } by {
        let pos = ps[i];
        assert(0 <= pos.0 < NROWS && 0 <= pos.1 < NCOLS);
        assert(ps.contains(pos));
        assert(g[pos.0].len() == NCOLS);
    }
}

/// Clearing a row keeps the grid well-formed.
pub proof fn lemma_shifted_wf(g: Seq<Seq<i32>>, row: int)
    requires
        grid_wf(g),
        0 <= row < NROWS,
    ensures
        grid_wf(shifted(g, row)),
{
    let gs = shifted(g, row);
    assert forall|r: int| 0 <= r < NROWS implies (#[trigger] gs[r]).len() == NCOLS by {
        if r == 0 {
        } else if r <= row {
            assert(g[r - 1].len() == NCOLS);
        } else {
            assert(g[r].len() == NCOLS);
        }
    }
    assert forall|r: int, c: int| 0 <= r < NROWS && 0 <= c < NCOLS implies #[trigger] gs[r][c] == 0
        || gs[r][c] == 1 by {
        if r == 0 {
            assert(gs[r][c] == empty_row()[c]);
        } else if r <= row {
            assert(g[r - 1][c] == 0 || g[r - 1][c] == 1);
        } else {
            assert(g[r][c] == 0 || g[r][c] == 1);
        }
    }
}

/// Every piece's footprint lies inside the grid at the fixed spawn
/// placement: anchor (0, 4), rotation 0.
pub proof fn lemma_spawn_in_bounds(p: Piece)
    ensures
        placement_in_bounds(p, 0, 0, 4),
{
    assert forall|i: int| 0 <= i < 4 implies {
        let pos = #[trigger] positions(p, 0, 0, 4)[i];
        0 <= pos.0 < NROWS && 0 <= pos.1 < NCOLS
    } by {
        lemma_offsets_bounded(p, 0, i);
    }
}

impl Tetris {
    /// Fetch all positions of the current falling piece.
    fn falling_piece_positions(&self) -> (r: Vec<(usize, usize)>)
        requires
            self.rotation < 4,
            placement_in_bounds(self@.piece, self@.rotation, self@.anchor_row, self@.anchor_col),
        ensures
            r@.len() == 4,
            forall|i: int|
                0 <= i < 4 ==> ((#[trigger] r@[i]).0 as int, r@[i].1 as int) == positions(
                    self@.piece,
                    self@.rotation,
                    self@.anchor_row,
                    self@.anchor_col,
                )[i],
            forall|pr: usize, pc: usize|
                #![trigger r@.contains((pr, pc))]
                r@.contains((pr, pc)) <==> positions(
                    self@.piece,
                    self@.rotation,
                    self@.anchor_row,
                    self@.anchor_col,
                ).contains((pr as int, pc as int)),
    {
        let ghost rot = self@.rotation;
        let ghost ar = self@.anchor_row;
        let ghost ac = self@.anchor_col;
        let offs = offsets(self.piece, self.rotation);
        let mut results: Vec<(usize, usize)> = Vec::new();
        let mut i: usize = 0;
        while i < 4
            invariant
                i <= 4,
                rot == self.rotation as int,
                ar == self.anchor_row as int,
                ac == self.anchor_col as int,
                self.rotation < 4,
                offs@.len() == 4,
                forall|j: int|
                    0 <= j < 4 ==> ((#[trigger] offs@[j]).0 as int, offs@[j].1 as int)
                        == offsets_spec(self.piece, rot)[j],
                placement_in_bounds(self.piece, rot, ar, ac),
                results@.len() == i,
                forall|j: int|
                    0 <= j < i ==> ((#[trigger] results@[j]).0 as int, results@[j].1 as int)
                        == positions(self.piece, rot, ar, ac)[j],
            decreases 4 - i,
        {
            let (off_row, off_col) = offs[i];
            proof {
                let pos = positions(self.piece, rot, ar, ac)[i as int];
                assert(pos == (
                    ar + offsets_spec(self.piece, rot)[i as int].0,
                    ac + offsets_spec(self.piece, rot)[i as int].1,
                ));
                assert(0 <= pos.0 < NROWS && 0 <= pos.1 < NCOLS);
                assert((off_row, off_col) == offs@[i as int]);
                assert(self.anchor_row + off_row == pos.0);
                assert(self.anchor_col + off_col == pos.1);
            }
            results.push((self.anchor_row + off_row, self.anchor_col + off_col));
            i += 1;
        }
        proof {
            let ps = positions(self@.piece, rot, ar, ac);
            assert forall|pr: usize, pc: usize| #[trigger]
                results@.contains((pr, pc)) <==> ps.contains((pr as int, pc as int)) by {
                if results@.contains((pr, pc)) {
                    let j = choose|j: int| 0 <= j < results@.len() && results@[j] == (pr, pc);
                    assert(ps[j] == (pr as int, pc as int));
                    assert(ps.contains((pr as int, pc as int)));
                }
                if ps.contains((pr as int, pc as int)) {
                    let j = choose|j: int| 0 <= j < ps.len() && ps[j] == (pr as int, pc as int);
                    assert((results@[j].0 as int, results@[j].1 as int) == ps[j]);
                    assert(results@[j] == (pr, pc));
                    assert(results@.contains((pr, pc)));
                }
            }
        }
        results
    }

    /// Checks if a new piece at the given row, col, and rotation
    /// overlaps with any existing cells.
    fn fits(grid: &Vec<Vec<i32>>, piece: Piece, row: usize, col: usize, rotation: usize) -> (b:
        bool)
        requires
            grid_dims(grid_view(*grid)),
            rotation < 4,
            placement_in_bounds(piece, rotation as int, row as int, col as int),
        ensures
            b == fits_spec(grid_view(*grid), piece, row as int, col as int, rotation as int),
    {
        let ghost rot = rotation as int;
        let offs = offsets(piece, rotation);
        let mut i: usize = 0;
        while i < 4
            invariant
                i <= 4,
                rot == rotation as int,
                rotation < 4,
                offs@.len() == 4,
                forall|j: int|
                    0 <= j < 4 ==> ((#[trigger] offs@[j]).0 as int, offs@[j].1 as int)
                        == offsets_spec(piece, rot)[j],
                placement_in_bounds(piece, rot, row as int, col as int),
                grid_dims(grid_view(*grid)),
                forall|j: int|
                    0 <= j < i ==> {
                        let pos = #[trigger] positions(piece, rot, row as int, col as int)[j];
                        grid_view(*grid)[pos.0][pos.1] != 1
                    },
            decreases 4 - i,
        {
            let (off_row, off_col) = offs[i];
            proof {
                let pos = positions(piece, rot, row as int, col as int)[i as int];
                assert(pos == (
                    row + offsets_spec(piece, rot)[i as int].0,
                    col + offsets_spec(piece, rot)[i as int].1,
                ));
                assert(0 <= pos.0 < NROWS && 0 <= pos.1 < NCOLS);
                assert((off_row, off_col) == offs@[i as int]);
                assert(row + off_row == pos.0);
                assert(col + off_col == pos.1);
            }
            let this_row = off_row + row;
            let this_col = off_col + col;
            proof {
                assert(grid_view(*grid)[this_row as int].len() == NCOLS);
            }
            if grid[this_row][this_col] == 1 {
                proof {
                    let pos = positions(piece, rot, row as int, col as int)[i as int];
                    assert(grid_view(*grid)[pos.0][pos.1] == 1);
                }
                return false;
            }
            i += 1;
        }
        true
    }

    /// Tests whether current falling piece can drop one more unit or
    /// not.
    fn can_drop(&self) -> (b: bool)
        requires
            self@.wf(),
            !self@.game_over,
        ensures
            b == can_drop_spec(
                self@.grid,
                self@.piece,
                self@.rotation,
                self@.anchor_row,
                self@.anchor_col,
            ),
    {
        let ghost rot = self@.rotation;
        let ghost ar = self@.anchor_row;
        let ghost ac = self@.anchor_col;
        let ghost ps_spec = positions(self@.piece, rot, ar, ac);
        let positions_vec = self.falling_piece_positions();
        let mut i: usize = 0;
        while i < 4
            invariant
                i <= 4,
                rot == self.rotation as int,
                ar == self.anchor_row as int,
                ac == self.anchor_col as int,
                ps_spec == positions(self@.piece, rot, ar, ac),
                self@.wf(),
                !self@.game_over,
                positions_vec@.len() == 4,
                forall|j: int|
                    0 <= j < 4 ==> ((#[trigger] positions_vec@[j]).0 as int,
                    positions_vec@[j].1 as int) == ps_spec[j],
                forall|pr: usize, pc: usize|
                    #![trigger positions_vec@.contains((pr, pc))]
                    positions_vec@.contains((pr, pc)) <==> ps_spec.contains(
                        (pr as int, pc as int),
                    ),
                forall|j: int|
                    0 <= j < i ==> {
                        let pos = #[trigger] ps_spec[j];
                        &&& pos.0 + 1 < NROWS
                        &&& (ps_spec.contains((pos.0 + 1, pos.1)) || self@.grid[pos.0 + 1][pos.1]
                            != 1)
                    },
            decreases 4 - i,
        {
            let (row, col) = positions_vec[i];
            proof {
                let pos = ps_spec[i as int];
                assert((row as int, col as int) == pos);
                assert(0 <= pos.0 < NROWS && 0 <= pos.1 < NCOLS) by {
                    assert(placement_in_bounds(self@.piece, rot, ar, ac));
                    assert(positions(self@.piece, rot, ar, ac)[i as int] == pos);
                }
            }
            let next_row = row + 1;
            if next_row == NROWS {
                proof {
                    let pos = ps_spec[i as int];
                    assert(pos.0 + 1 == NROWS);
                    assert(!can_drop_spec(self@.grid, self@.piece, rot, ar, ac));
                }
                return false;
            }
            proof {
                assert(self.grid@.len() == grid_view(self.grid).len());
                assert(self.grid@[next_row as int]@.len() == grid_view(self.grid)[next_row as int].len());
                assert(grid_view(self.grid)[next_row as int].len() == NCOLS);
            }
            // if the cell 1 unit down is not part of the piece
            // itself, and that the cell is filled, then we cannot
            // drop further.
            if !contains_pos(&positions_vec, next_row, col) && self.grid[next_row][col] == 1 {
                proof {
                    let pos = ps_spec[i as int];
                    assert((next_row as int, col as int) == (pos.0 + 1, pos.1));
                    assert(!ps_spec.contains((pos.0 + 1, pos.1)));
                    assert(grid_view(self.grid)[pos.0 + 1][pos.1] == 1);
                    assert(!can_drop_spec(self@.grid, self@.piece, rot, ar, ac));
                }
                return false;
            }
            proof {
                let pos = ps_spec[i as int];
                if !ps_spec.contains((pos.0 + 1, pos.1)) {
                    assert(self@.grid[pos.0 + 1][pos.1] != 1);
                }
            }
            i += 1;
        }
        true
    }

    /// Whether every cell of the given row is filled.
    fn row_filled(&self, row: usize) -> (b: bool)
        requires
            grid_dims(grid_view(self.grid)),
            row < NROWS,
        ensures
            b == row_full(grid_view(self.grid), row as int),
    {
        let mut c: usize = 0;
        proof {
            assert(self.grid@.len() == NROWS);
            assert(self.grid@[row as int]@.len() == grid_view(self.grid)[row as int].len());
        }
        while c < NCOLS
            invariant
                c <= NCOLS,
                row < NROWS,
                grid_dims(grid_view(self.grid)),
                self.grid@.len() == NROWS,
                self.grid@[row as int]@.len() == NCOLS,
                forall|j: int| 0 <= j < c ==> #[trigger] grid_view(self.grid)[row as int][j] == 1,
            decreases NCOLS - c,
        {
            if self.grid[row][c] != 1 {
                proof {
                    assert(grid_view(self.grid)[row as int][c as int] != 1);
                }
                return false;
            }
            c += 1;
        }
        true
    }

    /// Shift everything above `row` down by 1: each row from `row`
    /// down to 1 takes the contents of the row above it, and row 0 is
    /// cleared.
    fn shift_down(&mut self, row: usize)
        requires
            grid_dims(grid_view(old(self).grid)),
            row < NROWS,
        ensures
            grid_view(final(self).grid) == shifted(grid_view(old(self).grid), row as int),
            final(self).piece == old(self).piece,
            final(self).rotation == old(self).rotation,
            final(self).anchor_row == old(self).anchor_row,
            final(self).anchor_col == old(self).anchor_col,
            final(self).game_over == old(self).game_over,
    {
        let ghost g0 = grid_view(old(self).grid);
        let mut r: usize = row;
        while r >= 1
            invariant
                r <= row,
                row < NROWS,
                g0 == grid_view(old(self).grid),
                grid_dims(g0),
                grid_dims(grid_view(self.grid)),
                self.grid@.len() == NROWS,
                forall|rr: int|
                    0 <= rr < NROWS ==> #[trigger] grid_view(self.grid)[rr] == (if r < rr
                        && rr <= row {
                        g0[rr - 1]
                    } else {
                        g0[rr]
                    }),
                self.piece == old(self).piece,
                self.rotation == old(self).rotation,
                self.anchor_row == old(self).anchor_row,
                self.anchor_col == old(self).anchor_col,
                self.game_over == old(self).game_over,
            decreases r,
        {
            let ghost gcur = grid_view(self.grid);
            let mut c: usize = 0;
            proof {
                assert(self.grid@[r as int]@.len() == grid_view(self.grid)[r as int].len());
                assert(self.grid@[r - 1]@.len() == grid_view(self.grid)[r - 1].len());
            }
            while c < NCOLS
                invariant
                    c <= NCOLS,
                    1 <= r <= row,
                    row < NROWS,
                    gcur.len() == NROWS,
                    forall|rr: int| 0 <= rr < NROWS ==> (#[trigger] gcur[rr]).len() == NCOLS,
                    grid_dims(grid_view(self.grid)),
                    self.grid@.len() == NROWS,
                    forall|rr: int|
                        0 <= rr < NROWS && rr != r ==> #[trigger] grid_view(self.grid)[rr]
                            == gcur[rr],
                    forall|cc: int|
                        0 <= cc < NCOLS ==> #[trigger] grid_view(self.grid)[r as int][cc] == (if cc
                            < c {
                            gcur[r - 1][cc]
                        } else {
                            gcur[r as int][cc]
                        }),
                    self.piece == old(self).piece,
                    self.rotation == old(self).rotation,
                    self.anchor_row == old(self).anchor_row,
                    self.anchor_col == old(self).anchor_col,
                    self.game_over == old(self).game_over,
                decreases NCOLS - c,
            {
                proof {
                    assert(self.grid@[r - 1]@.len() == grid_view(self.grid)[r - 1].len());
                    assert(self.grid@[r as int]@.len() == grid_view(self.grid)[r as int].len());
                }
                let ghost gprev = grid_view(self.grid);
                let ghost vprev = self.grid@;
                let x = self.grid[r - 1][c];
                self.grid[r][c] = x;
                proof {
                    assert(x == gcur[r - 1][c as int]);
                    assert forall|rr: int| 0 <= rr < NROWS && rr != r as int implies #[trigger] grid_view(
                        self.grid,
                    )[rr] == gprev[rr] by {
                        assert(self.grid@[rr] == vprev[rr]);
                    }
                    assert(self.grid@[r as int]@ =~= vprev[r as int]@.update(c as int, x));
                    assert forall|cc: int| 0 <= cc < NCOLS implies #[trigger] grid_view(
                        self.grid,
                    )[r as int][cc] == (if cc < c + 1 {
                        gcur[r - 1][cc]
                    } else {
                        gcur[r as int][cc]
                    }) by {
                        assert(grid_view(self.grid)[r as int][cc] == vprev[r as int]@.update(
                            c as int,
                            x,
                        )[cc]);
                    }
                }
                c += 1;
            }
            proof {
                assert(grid_view(self.grid)[r as int] =~= gcur[r - 1]);
                assert(gcur[r - 1] == g0[r - 1]);
                assert forall|rr: int| 0 <= rr < NROWS implies #[trigger] grid_view(self.grid)[rr]
                    == (if r - 1 < rr && rr <= row {
                    g0[rr - 1]
                } else {
                    g0[rr]
                }) by {
                    if rr != r as int {
                        assert(grid_view(self.grid)[rr] == gcur[rr]);
                    }
                }
            }
            r -= 1;
        }
        // clear row 0
        let ghost gmid = grid_view(self.grid);
        let mut c: usize = 0;
        proof {
            assert(self.grid@[0]@.len() == grid_view(self.grid)[0].len());
        }
        while c < NCOLS
            invariant
                c <= NCOLS,
                row < NROWS,
                gmid.len() == NROWS,
                forall|rr: int| 0 <= rr < NROWS ==> (#[trigger] gmid[rr]).len() == NCOLS,
                grid_dims(grid_view(self.grid)),
                self.grid@.len() == NROWS,
                forall|rr: int|
                    0 < rr < NROWS ==> #[trigger] grid_view(self.grid)[rr] == gmid[rr],
                forall|cc: int|
                    0 <= cc < NCOLS ==> #[trigger] grid_view(self.grid)[0][cc] == (if cc < c {
                        0i32
                    } else {
                        gmid[0][cc]
                    }),
                self.piece == old(self).piece,
                self.rotation == old(self).rotation,
                self.anchor_row == old(self).anchor_row,
                self.anchor_col == old(self).anchor_col,
                self.game_over == old(self).game_over,
            decreases NCOLS - c,
        {
            proof {
                assert(self.grid@[0]@.len() == grid_view(self.grid)[0].len());
            }
            let ghost gprev = grid_view(self.grid);
            let ghost vprev = self.grid@;
            self.grid[0][c] = 0;
            proof {
                assert forall|rr: int| 0 < rr < NROWS implies #[trigger] grid_view(self.grid)[rr]
                    == gprev[rr] by {
                    assert(self.grid@[rr] == vprev[rr]);
                }
                assert(self.grid@[0]@ =~= vprev[0]@.update(c as int, 0i32));
                assert forall|cc: int| 0 <= cc < NCOLS implies #[trigger] grid_view(self.grid)[0][cc]
                    == (if cc < c + 1 {
                    0i32
                } else {
                    gmid[0][cc]
                }) by {
                    assert(grid_view(self.grid)[0][cc] == vprev[0]@.update(c as int, 0i32)[cc]);
                }
            }
            c += 1;
        }
        proof {
            let gs = shifted(g0, row as int);
            assert forall|rr: int| 0 <= rr < NROWS implies #[trigger] grid_view(self.grid)[rr]
                =~= gs[rr] by {
                if rr == 0 {
                    assert forall|cc: int| 0 <= cc < NCOLS implies grid_view(self.grid)[0][cc]
                        == empty_row()[cc] by {}
                } else if rr <= row {
                    assert(grid_view(self.grid)[rr] == gmid[rr]);
                    assert(gmid[rr] == g0[rr - 1]);
                } else {
                    assert(grid_view(self.grid)[rr] == gmid[rr]);
                    assert(gmid[rr] == g0[rr]);
                }
            }
            assert(grid_view(self.grid) =~~= gs);
        }
    }

    /// Create a new simulation state: an empty grid with the first
    /// piece spawned at the fixed anchor.
    pub fn new() -> (t: Self)
        ensures
            t@ == initial_view(),
            t@.wf(),
    {
        let mut grid: Vec<Vec<i32>> = Vec::new();
        let mut r: usize = 0;
        while r < NROWS
            invariant
                r <= NROWS,
                grid@.len() == r,
                forall|rr: int| 0 <= rr < r ==> (#[trigger] grid@[rr])@.len() == NCOLS,
                forall|rr: int, cc: int|
                    0 <= rr < r && 0 <= cc < NCOLS ==> #[trigger] grid@[rr]@[cc] == 0i32,
            decreases NROWS - r,
        {
            let mut rowv: Vec<i32> = Vec::new();
            let mut c: usize = 0;
            while c < NCOLS
                invariant
                    c <= NCOLS,
                    rowv@.len() == c,
                    forall|cc: int| 0 <= cc < c ==> #[trigger] rowv@[cc] == 0i32,
                decreases NCOLS - c,
            {
                rowv.push(0);
                c += 1;
            }
            grid.push(rowv);
            r += 1;
        }
        proof {
            assert(grid_view(grid) =~~= empty_grid());
            lemma_spawn_in_bounds(Piece::O);
        }
        update(&mut grid, Piece::O, 0, 0, 4, true);
        let t = Tetris {
            grid,
            piece: Piece::O,
            rotation: 0,
            anchor_row: 0,
            anchor_col: 4,
            game_over: false,
        };
        proof {
            assert(t@ =~~= initial_view());
            assert(grid_wf(empty_grid()));
            lemma_painted_preserves_wf(empty_grid(), Piece::O, 0, 0, 4, 1);
            lemma_painted_footprint(empty_grid(), Piece::O, 0, 0, 4);
        }
        t
    }

    /// Read-only access to the occupancy grid, for rendering.
    pub fn grid(&self) -> (g: &Vec<Vec<i32>>)
        ensures
            grid_view(*g) == self@.grid,
    {
        &self.grid
    }

    /// Simulate "gravity" for 1 unit of time. Returns true if the game
    /// can still continue otherwise returns false. On a stopped game
    /// this is a no-op that keeps returning false.
    pub fn tick(&mut self) -> (r: bool)
        requires
            old(self)@.wf(),
        ensures
            final(self)@ == tick_next(old(self)@),
            r == tick_result(old(self)@),
            final(self)@.wf(),
    {
        let ghost v0 = old(self)@;
        if self.game_over {
            return false;
        }
        // 1. if we can drop, then just drop
        // 2. if we cannot drop, then check if there are complete rows
        // 3. check if there is enough space for new piece
        if self.can_drop() {
            let ghost p = self.piece;
            let ghost rot = self.rotation as int;
            let ghost ar = self.anchor_row as int;
            let ghost ac = self.anchor_col as int;
            proof {
                assert forall|i: int| 0 <= i < 4 implies {
                    let pos = #[trigger] positions(p, rot, ar + 1, ac)[i];
                    0 <= pos.0 < NROWS && 0 <= pos.1 < NCOLS
                } by {
                    let pos0 = positions(p, rot, ar, ac)[i];
                    assert(positions(p, rot, ar + 1, ac)[i] == (pos0.0 + 1, pos0.1));
                    assert(0 <= pos0.0 < NROWS && 0 <= pos0.1 < NCOLS);
                    assert(pos0.0 + 1 < NROWS);
                }
                lemma_offsets_bounded(p, rot, 0);
                assert(positions(p, rot, ar, ac)[0].0 == ar + offsets_spec(p, rot)[0].0);
                assert(ar < NROWS);
            }
            update(
                &mut self.grid,
                self.piece,
                self.rotation,
                self.anchor_row,
                self.anchor_col,
                false,
            );
            proof {
                lemma_painted_preserves_wf(v0.grid, p, rot, ar, ac, 0);
            }
            self.anchor_row = self.anchor_row + 1;
            update(
                &mut self.grid,
                self.piece,
                self.rotation,
                self.anchor_row,
                self.anchor_col,
                true,
            );
            proof {
                let g1 = painted(v0.grid, p, rot, ar, ac, 0);
                lemma_painted_preserves_wf(g1, p, rot, ar + 1, ac, 1);
                lemma_painted_footprint(g1, p, rot, ar + 1, ac);
                assert(self@ =~~= tick_next(v0));
            }
            true
        } else {
            // 2. check for complete rows
            let ghost p = self.piece;
            let ghost rot = self.rotation as int;
            let ghost ar = self.anchor_row as int;
            let ghost ac = self.anchor_col as int;
            let ps = self.falling_piece_positions();
            let mut min_row: usize = ps[0].0;
            let mut max_row: usize = ps[0].0;
            let (r1, _) = ps[1];
            if r1 < min_row {
                min_row = r1;
            }
            if r1 > max_row {
                max_row = r1;
            }
            let (r2, _) = ps[2];
            if r2 < min_row {
                min_row = r2;
            }
            if r2 > max_row {
                max_row = r2;
            }
            let (r3, _) = ps[3];
            if r3 < min_row {
                min_row = r3;
            }
            if r3 > max_row {
                max_row = r3;
            }
            proof {
                assert(min_row as int == span_min(p, rot, ar, ac));
                assert(max_row as int == span_max(p, rot, ar, ac));
                assert(positions(p, rot, ar, ac)[0].0 < NROWS);
                assert(positions(p, rot, ar, ac)[1].0 < NROWS);
                assert(positions(p, rot, ar, ac)[2].0 < NROWS);
                assert(positions(p, rot, ar, ac)[3].0 < NROWS);
                assert(max_row < NROWS);
            }
            // shift things down by 1 if there are complete rows.
            let ghost gl = v0.grid;
            let mut row = min_row;
            while row <= max_row
                invariant
                    row <= max_row + 1,
                    max_row < NROWS,
                    grid_wf(grid_view(self.grid)),
                    cleared(grid_view(self.grid), row as int, max_row as int) == cleared(
                        gl,
                        min_row as int,
                        max_row as int,
                    ),
                    self.piece == old(self).piece,
                    self.rotation == old(self).rotation,
                    self.anchor_row == old(self).anchor_row,
                    self.anchor_col == old(self).anchor_col,
                    self.game_over == old(self).game_over,
                    self.rotation < 4,
                decreases max_row + 1 - row,
            {
                let ghost gprev = grid_view(self.grid);
                if self.row_filled(row) {
                    self.shift_down(row);
                    proof {
                        lemma_shifted_wf(gprev, row as int);
                        assert(cleared(gprev, row as int, max_row as int) == cleared(
                            shifted(gprev, row as int),
                            row as int + 1,
                            max_row as int,
                        ));
                    }
                } else {
                    proof {
                        assert(cleared(gprev, row as int, max_row as int) == cleared(
                            gprev,
                            row as int + 1,
                            max_row as int,
                        ));
                    }
                }
                row += 1;
            }
            proof {
                assert(cleared(grid_view(self.grid), row as int, max_row as int) == grid_view(
                    self.grid,
                ));
                assert(grid_view(self.grid) == land_grid(v0));
            }
            let new_piece = next_piece_exec(self.piece);
            proof {
                lemma_spawn_in_bounds(new_piece);
            }
            if Self::fits(&self.grid, new_piece, 0, 4, 0) {
                let ghost g1 = grid_view(self.grid);
                self.piece = new_piece;
                self.rotation = 0;
                self.anchor_row = 0;
                self.anchor_col = 4;
                update(&mut self.grid, self.piece, self.rotation, self.anchor_row, self.anchor_col, true);
                proof {
                    lemma_painted_preserves_wf(g1, new_piece, 0, 0, 4, 1);
                    lemma_painted_footprint(g1, new_piece, 0, 0, 4);
                    assert(self@ =~~= tick_next(v0));
                }
                true
            } else {
                self.game_over = true;
                proof {
                    assert(self@ =~~= tick_next(v0));
                }
                false
            }
        }
    }

    /// Accepts a movement or rotation intent. The source of movement
    /// rules is an open extension point: no transition is applied for
    /// any intent, and the state is left unchanged.
    pub fn event(&mut self, _evt: Event)
        ensures
            *final(self) == *old(self),
    {
    }
}

} // verus!
