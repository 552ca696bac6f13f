//! The piece catalog: the seven piece shapes and, for each shape and
//! rotation state, the four cell offsets the piece occupies within its
//! bounding square.

use vstd::prelude::*;

verus! {

/// The seven piece shapes, in the fixed succession order.
#[derive(Debug, PartialEq, Eq, Structural, PartialOrd, Ord, Copy, Clone, Hash)]
pub enum Piece {
    O,
    L,
    J,
    T,
    Z,
    S,
    I,
}

/// The position of a piece in the fixed succession order.
pub open spec fn piece_index(p: Piece) -> int {
    match p {
        Piece::O => 0,
        Piece::L => 1,
        Piece::J => 2,
        Piece::T => 3,
        Piece::Z => 4,
        Piece::S => 5,
        Piece::I => 6,
    }
}

/// The piece at a given position of the succession order.
pub open spec fn piece_at(i: int) -> Piece {
    if i == 0 {
        Piece::O
    } else if i == 1 {
        Piece::L
    } else if i == 2 {
        Piece::J
    } else if i == 3 {
        Piece::T
    } else if i == 4 {
        Piece::Z
    } else if i == 5 {
        Piece::S
    } else {
        Piece::I
    }
}

/// The successor in the cyclic succession order: the next piece in the
/// enumeration, wrapping back to the first after the last.
pub open spec fn next_piece(p: Piece) -> Piece {
    piece_at((piece_index(p) + 1) % 7)
}

/// Executable successor lookup.
pub fn next_piece_exec(p: Piece) -> (n: Piece)
    ensures
        n == next_piece(p),
{
    match p {
        Piece::O => Piece::L,
        Piece::L => Piece::J,
        Piece::J => Piece::T,
        Piece::T => Piece::Z,
        Piece::Z => Piece::S,
        Piece::S => Piece::I,
        Piece::I => Piece::O,
    }
}

/// For each piece and rotation state (0, 90, 180, 270 degrees
/// clockwise), the four (row, col) offsets the piece occupies relative
/// to its anchor. Geometry is pre-baked per piece rather than computed
/// by a rotation transform.
pub open spec fn offsets_spec(p: Piece, rot: int) -> Seq<(int, int)> {
    match p {
        // ##
        // ##
        Piece::O => seq![(0int, 0int), (0int, 1int), (1int, 0int), (1int, 1int)],
        // #        ##
        // #   ###   #    #
        // ##, #  ,  #, ###
        Piece::L => {
            if rot == 0 {
                seq![(0int, 0int), (1int, 0int), (2int, 0int), (2int, 1int)]
            } else if rot == 1 {
                seq![(1int, 0int), (1int, 1int), (1int, 2int), (2int, 0int)]
            } else if rot == 2 {
                seq![(0int, 0int), (0int, 1int), (1int, 1int), (2int, 1int)]
            } else {
                seq![(2int, 0int), (2int, 1int), (2int, 2int), (1int, 1int)]
            }
        },
        //  #       ##
        //  #  #    #   ###
        // ##, ###, # ,   #
        Piece::J => {
            if rot == 0 {
                seq![(2int, 0int), (2int, 1int), (0int, 1int), (1int, 1int)]
            } else if rot == 1 {
                seq![(1int, 0int), (2int, 0int), (2int, 1int), (2int, 2int)]
            } else if rot == 2 {
                seq![(0int, 0int), (1int, 0int), (2int, 0int), (0int, 1int)]
            } else {
                seq![(1int, 0int), (1int, 1int), (1int, 2int), (2int, 2int)]
            }
        },
        // ###   #   #   #
        //  #   ##  ###  ##
        //    ,  #,    , #
        Piece::T => {
            if rot == 0 {
                seq![(0int, 0int), (0int, 1int), (0int, 2int), (1int, 1int)]
            } else if rot == 1 {
                seq![(1int, 0int), (0int, 1int), (1int, 1int), (2int, 1int)]
            } else if rot == 2 {
                seq![(1int, 0int), (0int, 1int), (1int, 1int), (1int, 2int)]
            } else {
                seq![(0int, 0int), (1int, 0int), (2int, 0int), (1int, 1int)]
            }
        },
        // ##     #   ##     #
        //  ##   ##    ##   ##
        //    ,  #  ,     , #
        Piece::Z => {
            if rot == 0 || rot == 2 {
                seq![(0int, 0int), (0int, 1int), (1int, 1int), (1int, 2int)]
            } else {
                seq![(1int, 0int), (0int, 1int), (1int, 1int), (2int, 0int)]
            }
        },
        //  ##  #     ##   #
        // ##   ##   ##    ##
        //    ,  # ,     ,  #
        Piece::S => {
            if rot == 0 || rot == 2 {
                seq![(1int, 0int), (0int, 1int), (1int, 1int), (0int, 2int)]
            } else {
                seq![(0int, 0int), (1int, 0int), (1int, 1int), (2int, 1int)]
            }
        },
        // #         #
        // #  #####  #  ####
        // #         #
        // #,      , #,
        Piece::I => {
            if rot == 0 || rot == 2 {
                seq![(0int, 0int), (1int, 0int), (2int, 0int), (3int, 0int)]
            } else {
                seq![(1int, 0int), (1int, 1int), (1int, 2int), (1int, 3int)]
            }
        },
    }
}

/// Builds a four-entry offset list.
fn quad(a: (usize, usize), b: (usize, usize), c: (usize, usize), d: (usize, usize)) -> (r: Vec<
    (usize, usize),
>)
    ensures
        r@.len() == 4,
        r@[0] == a,
        r@[1] == b,
        r@[2] == c,
        r@[3] == d,
{
    let mut r: Vec<(usize, usize)> = Vec::new();
    r.push(a);
    r.push(b);
    r.push(c);
    r.push(d);
    r
}

/// Executable offset lookup, mirroring `offsets_spec`.
pub fn offsets(p: Piece, rot: usize) -> (r: Vec<(usize, usize)>)
    requires
        rot < 4,
    ensures
        r@.len() == 4,
        forall|i: int|
            0 <= i < 4 ==> ((#[trigger] r@[i]).0 as int, r@[i].1 as int) == offsets_spec(
                p,
                rot as int,
            )[i],
{
    match p {
        Piece::O => quad((0, 0), (0, 1), (1, 0), (1, 1)),
        Piece::L => {
            if rot == 0 {
                quad((0, 0), (1, 0), (2, 0), (2, 1))
            } else if rot == 1 {
                quad((1, 0), (1, 1), (1, 2), (2, 0))
            } else if rot == 2 {
                quad((0, 0), (0, 1), (1, 1), (2, 1))
            } else {
                quad((2, 0), (2, 1), (2, 2), (1, 1))
            }
        },
        Piece::J => {
            if rot == 0 {
                quad((2, 0), (2, 1), (0, 1), (1, 1))
            } else if rot == 1 {
                quad((1, 0), (2, 0), (2, 1), (2, 2))
            } else if rot == 2 {
                quad((0, 0), (1, 0), (2, 0), (0, 1))
            } else {
                quad((1, 0), (1, 1), (1, 2), (2, 2))
            }
        },
        Piece::T => {
            if rot == 0 {
                quad((0, 0), (0, 1), (0, 2), (1, 1))
            } else if rot == 1 {
                quad((1, 0), (0, 1), (1, 1), (2, 1))
            } else if rot == 2 {
                quad((1, 0), (0, 1), (1, 1), (1, 2))
            } else {
                quad((0, 0), (1, 0), (2, 0), (1, 1))
            }
        },
        Piece::Z => {
            if rot == 0 || rot == 2 {
                quad((0, 0), (0, 1), (1, 1), (1, 2))
            } else {
                quad((1, 0), (0, 1), (1, 1), (2, 0))
            }
        },
        Piece::S => {
            if rot == 0 || rot == 2 {
                quad((1, 0), (0, 1), (1, 1), (0, 2))
            } else {
                quad((0, 0), (1, 0), (1, 1), (2, 1))
            }
        },
        Piece::I => {
            if rot == 0 || rot == 2 {
                quad((0, 0), (1, 0), (2, 0), (3, 0))
            } else {
                quad((1, 0), (1, 1), (1, 2), (1, 3))
            }
        },
    }
}

/// Every offset in the catalog is non-negative and at most 3 in each
/// coordinate: each piece fits a 4x4 bounding square.
pub proof fn lemma_offsets_bounded(p: Piece, rot: int, i: int)
    requires
        0 <= rot < 4,
        0 <= i < 4,
    ensures
        0 <= offsets_spec(p, rot)[i].0 <= 3,
        0 <= offsets_spec(p, rot)[i].1 <= 3,
{
    match p {
        Piece::O => {},
        Piece::L => {},
        Piece::J => {},
        Piece::T => {},
        Piece::Z => {},
        Piece::S => {},
        Piece::I => {},
    }
}

} // verus!
