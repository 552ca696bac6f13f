//! The laws of the simulation: proved statements that relate the
//! transition function's pieces across states and calls.

use crate::game_state::{can_drop_spec, cleared, empty_grid, fits_spec, footprint_painted,
    grid_dims, initial_view, land_grid, lemma_painted_footprint, painted, positions, row_full,
    shifted, tick_next, tick_result, TetrisView, NCOLS, NROWS};
use crate::piece::{next_piece, Piece};
use vstd::prelude::*;

verus! {

/// A fresh simulation starts with the first piece, rotation 0, anchor
/// (0, 4), and a grid that is empty except for that piece's footprint
/// at the spawn placement.
pub proof fn lemma_initial_state()
    ensures
        initial_view().piece == Piece::O,
        initial_view().rotation == 0,
        initial_view().anchor_row == 0,
        initial_view().anchor_col == 4,
        !initial_view().game_over,
        forall|r: int, c: int|
            0 <= r < NROWS && 0 <= c < NCOLS ==> initial_view().grid[r][c] == (if positions(
                Piece::O,
                0,
                0,
                4,
            ).contains((r, c)) {
                1i32
            } else {
                0i32
            }),
{
    assert forall|r: int, c: int| 0 <= r < NROWS && 0 <= c < NCOLS implies initial_view().grid[r][c]
        == (if positions(Piece::O, 0, 0, 4).contains((r, c)) {
        1i32
    } else {
        0i32
    }) by {
        assert(empty_grid()[r].len() == NCOLS);
        assert(empty_grid()[r][c] == 0i32);
    }
}

/// The drop invariant: while the piece can drop, a tick moves its
/// footprint exactly one row lower. The new footprint is painted, a
/// cell of the old footprint that is not under the new one becomes
/// empty, and every cell outside both footprints keeps its value.
pub proof fn lemma_tick_drop(v: TetrisView)
    requires
        v.wf(),
        !v.game_over,
        can_drop_spec(v.grid, v.piece, v.rotation, v.anchor_row, v.anchor_col),
    ensures
        tick_result(v),
        !tick_next(v).game_over,
        tick_next(v).piece == v.piece,
        tick_next(v).rotation == v.rotation,
        tick_next(v).anchor_col == v.anchor_col,
        tick_next(v).anchor_row == v.anchor_row + 1,
        footprint_painted(tick_next(v).grid, v.piece, v.rotation, v.anchor_row + 1, v.anchor_col),
        forall|r: int, c: int|
            0 <= r < NROWS && 0 <= c < NCOLS && positions(
                v.piece,
                v.rotation,
                v.anchor_row,
                v.anchor_col,
            ).contains((r, c)) && !positions(
                v.piece,
                v.rotation,
                v.anchor_row + 1,
                v.anchor_col,
            ).contains((r, c)) ==> tick_next(v).grid[r][c] == 0,
        forall|r: int, c: int|
            0 <= r < NROWS && 0 <= c < NCOLS && !positions(
                v.piece,
                v.rotation,
                v.anchor_row,
                v.anchor_col,
            ).contains((r, c)) && !positions(
                v.piece,
                v.rotation,
                v.anchor_row + 1,
                v.anchor_col,
            ).contains((r, c)) ==> tick_next(v).grid[r][c] == v.grid[r][c],
{
    let p = v.piece;
    let rot = v.rotation;
    let ar = v.anchor_row;
    let ac = v.anchor_col;
    assert forall|i: int| 0 <= i < 4 implies {
        let pos = #[trigger] positions(p, rot, ar + 1, ac)[i];
        0 <= pos.0 < NROWS && 0 <= pos.1 < NCOLS
    } by {
        let pos0 = positions(p, rot, ar, ac)[i];
        assert(positions(p, rot, ar + 1, ac)[i] == (pos0.0 + 1, pos0.1));
        assert(0 <= pos0.0 < NROWS && 0 <= pos0.1 < NCOLS);
        assert(pos0.0 + 1 < NROWS);
    }
    let g1 = painted(v.grid, p, rot, ar, ac, 0);
    lemma_painted_footprint(g1, p, rot, ar + 1, ac);
    assert forall|r: int, c: int|
        0 <= r < NROWS && 0 <= c < NCOLS && positions(p, rot, ar, ac).contains((r, c))
            && !positions(p, rot, ar + 1, ac).contains((r, c)) implies tick_next(v).grid[r][c]
        == 0 by {
        assert(g1[r].len() == NCOLS);
        assert(g1[r][c] == 0);
    }
    assert forall|r: int, c: int|
        0 <= r < NROWS && 0 <= c < NCOLS && !positions(p, rot, ar, ac).contains((r, c))
            && !positions(p, rot, ar + 1, ac).contains((r, c)) implies tick_next(v).grid[r][c]
        == v.grid[r][c] by {
        assert(g1[r].len() == NCOLS);
        assert(g1[r][c] == v.grid[r][c]);
    }
}

/// A landing tick whose successor piece fits at the spawn placement
/// continues the game with that successor, freshly spawned at anchor
/// (0, 4) with rotation 0.
pub proof fn lemma_tick_landing_spawn(v: TetrisView)
    requires
        v.wf(),
        !v.game_over,
        !can_drop_spec(v.grid, v.piece, v.rotation, v.anchor_row, v.anchor_col),
        fits_spec(land_grid(v), next_piece(v.piece), 0, 4, 0),
    ensures
        tick_result(v),
        !tick_next(v).game_over,
        tick_next(v).piece == next_piece(v.piece),
        tick_next(v).rotation == 0,
        tick_next(v).anchor_row == 0,
        tick_next(v).anchor_col == 4,
{
}

/// Game over: a landing tick whose successor piece does not fit at
/// the spawn placement stops the game and leaves the grid exactly as
/// it stood after the row-clear pass, with the piece fields untouched
/// and nothing painted for the failed spawn.
pub proof fn lemma_tick_game_over(v: TetrisView)
    requires
        v.wf(),
        !v.game_over,
        !can_drop_spec(v.grid, v.piece, v.rotation, v.anchor_row, v.anchor_col),
        !fits_spec(land_grid(v), next_piece(v.piece), 0, 4, 0),
    ensures
        !tick_result(v),
        tick_next(v).game_over,
        tick_next(v).grid == land_grid(v),
        tick_next(v).piece == v.piece,
        tick_next(v).rotation == v.rotation,
        tick_next(v).anchor_row == v.anchor_row,
        tick_next(v).anchor_col == v.anchor_col,
{
}

/// A row-clear pass over a span with no complete row leaves the grid
/// untouched.
pub proof fn lemma_cleared_no_full(g: Seq<Seq<i32>>, lo: int, hi: int)
    requires
        forall|r: int| lo <= r <= hi ==> !row_full(g, r),
    ensures
        cleared(g, lo, hi) == g,
    decreases hi + 1 - lo,
{
    if lo > hi {
    } else {
        lemma_cleared_no_full(g, lo + 1, hi);
    }
}

/// When exactly one row of the examined span is complete, the pass
/// amounts to a single shift at that row: every row above it moves
/// down by one, row 0 becomes empty, and rows below it are untouched
/// — that is what `shifted` says cell by cell.
pub proof fn lemma_cleared_single_full(g: Seq<Seq<i32>>, lo: int, hi: int, r: int)
    requires
        0 <= lo <= r <= hi < NROWS,
        grid_dims(g),
        row_full(g, r),
        forall|r2: int| lo <= r2 <= hi && r2 != r ==> !row_full(g, r2),
    ensures
        cleared(g, lo, hi) == shifted(g, r),
    decreases r - lo,
{
    if lo == r {
        let gs = shifted(g, r);
        assert forall|r2: int| r + 1 <= r2 <= hi implies !row_full(gs, r2) by {
            assert(gs[r2] == g[r2]);
            assert(!row_full(g, r2));
            let c = choose|c: int| 0 <= c < NCOLS && g[r2][c] != 1;
            assert(gs[r2][c] != 1);
        }
        lemma_cleared_no_full(gs, r + 1, hi);
    } else {
        lemma_cleared_single_full(g, lo + 1, hi, r);
    }
}

/// A tick on a stopped (game-over) simulation is an explicit no-op
/// that keeps reporting game over.
pub proof fn lemma_tick_stopped(v: TetrisView)
    requires
        v.game_over,
    ensures
        tick_next(v) == v,
        !tick_result(v),
{
}

/// The piece reached after `k` successive successor steps.
pub open spec fn iterated_next(p: Piece, k: nat) -> Piece
    decreases k,
{
    if k == 0 {
        p
    } else {
        next_piece(iterated_next(p, (k - 1) as nat))
    }
}

/// The successor relation walks the fixed enumeration order and wraps
/// from the last piece back to the first.
pub proof fn lemma_next_piece_order()
    ensures
        next_piece(Piece::O) == Piece::L,
        next_piece(Piece::L) == Piece::J,
        next_piece(Piece::J) == Piece::T,
        next_piece(Piece::T) == Piece::Z,
        next_piece(Piece::Z) == Piece::S,
        next_piece(Piece::S) == Piece::I,
        next_piece(Piece::I) == Piece::O,
{
}

/// The succession order is a single 7-cycle: from any piece, seven
/// successor steps return to it, and the first seven pieces visited
/// are pairwise distinct — the succession walks the whole fixed order
/// and wraps after the 7th.
#[verifier::rlimit(50)]
pub proof fn lemma_succession_cycles(p: Piece)
    ensures
        iterated_next(p, 7) == p,
        forall|k1: nat, k2: nat| k1 < k2 < 7 ==> iterated_next(p, k1) != iterated_next(p, k2),
{
    reveal_with_fuel(iterated_next, 8);
    lemma_next_piece_order();
    let a1 = iterated_next(p, 1);
    let a2 = iterated_next(p, 2);
    let a3 = iterated_next(p, 3);
    let a4 = iterated_next(p, 4);
    let a5 = iterated_next(p, 5);
    let a6 = iterated_next(p, 6);
    assert(a1 == next_piece(p));
    assert(a2 == next_piece(a1));
    assert(a3 == next_piece(a2));
    assert(a4 == next_piece(a3));
    assert(a5 == next_piece(a4));
    assert(a6 == next_piece(a5));
    assert(iterated_next(p, 7) == next_piece(a6));
    match p {
        Piece::O => {},
        Piece::L => {},
        Piece::J => {},
        Piece::T => {},
        Piece::Z => {},
        Piece::S => {},
        Piece::I => {},
    }
    assert forall|k1: nat, k2: nat| k1 < k2 < 7 implies iterated_next(p, k1) != iterated_next(
        p,
        k2,
    ) by {
        assert(k1 == 0 || k1 == 1 || k1 == 2 || k1 == 3 || k1 == 4 || k1 == 5);
        assert(k2 == 1 || k2 == 2 || k2 == 3 || k2 == 4 || k2 == 5 || k2 == 6);
        match p {
            Piece::O => {},
            Piece::L => {},
            Piece::J => {},
            Piece::T => {},
            Piece::Z => {},
            Piece::S => {},
            Piece::I => {},
        }
    }
}

} // verus!
