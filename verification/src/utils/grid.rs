//! Row-major addressing of a rectangular grid.

use crate::utils::Vec2;
use vstd::prelude::*;

verus! {

/// Whether `pos` lies inside a grid of the given size.
pub open spec fn in_bounds(pos: Vec2<usize>, size: Vec2<usize>) -> bool {
    pos.x < size.x && pos.y < size.y
}

/// The place of `pos` in the row-major array of a grid `width` cells wide.
pub open spec fn cell_index(pos: Vec2<usize>, width: usize) -> int {
    pos.x + pos.y * width
}

/// Whether `pos` lies inside the grid and its cell exists in an array of `len`
/// cells.
pub open spec fn addressable(pos: Vec2<usize>, size: Vec2<usize>, len: nat) -> bool {
    in_bounds(pos, size) && cell_index(pos, size.x) < len
}

/// A position inside the grid has its place among the grid's cells.
pub proof fn lemma_index_in_range(pos: Vec2<usize>, size: Vec2<usize>)
    requires
        in_bounds(pos, size),
    ensures
        0 <= cell_index(pos, size.x) < size.x * size.y,
{
    assert(pos.y * size.x <= (size.y - 1) * size.x) by (nonlinear_arith)
        requires
            pos.y <= size.y - 1,
            0 <= size.x,
    ;
    assert((size.y - 1) * size.x == size.y * size.x - size.x) by (nonlinear_arith);
    assert(size.x * size.y == size.y * size.x) by (nonlinear_arith);
    assert(0 <= pos.y * size.x) by (nonlinear_arith)
        requires
            0 <= pos.y,
            0 <= size.x,
    ;
}

/// Two positions inside the grid share a cell only if they are equal.
pub proof fn lemma_index_injective(p: Vec2<usize>, q: Vec2<usize>, size: Vec2<usize>)
    requires
        in_bounds(p, size),
        in_bounds(q, size),
        cell_index(p, size.x) == cell_index(q, size.x),
    ensures
        p == q,
{
    if p.y < q.y {
        assert((p.y + 1) * size.x <= q.y * size.x) by (nonlinear_arith)
            requires
                p.y + 1 <= q.y,
                0 <= size.x,
        ;
        assert((p.y + 1) * size.x == p.y * size.x + size.x) by (nonlinear_arith);
    } else if q.y < p.y {
        assert((q.y + 1) * size.x <= p.y * size.x) by (nonlinear_arith)
            requires
                q.y + 1 <= p.y,
                0 <= size.x,
        ;
        assert((q.y + 1) * size.x == q.y * size.x + size.x) by (nonlinear_arith);
    }
}

/// The cell of `pos` and back: division and remainder by the width recover
/// the coordinates.
pub proof fn lemma_index_round_trip(pos: Vec2<usize>, size: Vec2<usize>)
    requires
        in_bounds(pos, size),
    ensures
        cell_index(pos, size.x) % (size.x as int) == pos.x,
        cell_index(pos, size.x) / (size.x as int) == pos.y,
{
    vstd::arithmetic::div_mod::lemma_fundamental_div_mod_converse(
        cell_index(pos, size.x),
        size.x as int,
        pos.y as int,
        pos.x as int,
    );
    assert(size.x * pos.y == pos.y * size.x) by (nonlinear_arith);
}

/// The position whose cell is the `i`-th of the grid's cells.
pub open spec fn position_of(i: int, width: usize) -> Vec2<usize> {
    Vec2 { x: (i % (width as int)) as usize, y: (i / (width as int)) as usize }
}

/// Every cell of the grid is the cell of a position inside the grid.
pub proof fn lemma_position_of(i: int, size: Vec2<usize>)
    requires
        0 <= i < size.x * size.y,
    ensures
        in_bounds(position_of(i, size.x), size),
        cell_index(position_of(i, size.x), size.x) == i,
{
    let w = size.x as int;
    assert(w > 0) by (nonlinear_arith)
        requires
            0 <= i < w * size.y,
            w >= 0,
    ;
    vstd::arithmetic::div_mod::lemma_fundamental_div_mod(i, w);
    vstd::arithmetic::div_mod::lemma_mod_bound(i, w);
    vstd::arithmetic::div_mod::lemma_div_pos_is_pos(i, w);
    assert(i / w < size.y) by (nonlinear_arith)
        requires
            i == w * (i / w) + i % w,
            0 <= i % w,
            i < w * size.y,
            w > 0,
    ;
    assert(w * (i / w) == (i / w) * w) by (nonlinear_arith);
}

/// The place of a position inside the grid in the grid's array of `len`
/// cells.
pub fn index_in(pos: Vec2<usize>, size: Vec2<usize>, len: usize) -> (at: usize)
    requires
        in_bounds(pos, size),
        len == size.x * size.y,
    ensures
        at == cell_index(pos, size.x),
        at < len,
{
    proof {
        lemma_index_in_range(pos, size);
        assert(0 <= pos.y * size.x) by (nonlinear_arith)
            requires
                0 <= pos.y,
                0 <= size.x,
        ;
    }
    pos.x + pos.y * size.x
}

/// The place of `pos` in an array of `len` cells, if `pos` lies inside the
/// grid and the array reaches that far.
pub fn tile_index(pos: Vec2<usize>, size: Vec2<usize>, len: usize) -> (res: Option<usize>)
    ensures
        res.is_some() == addressable(pos, size, len as nat),
        res matches Some(i) ==> i == cell_index(pos, size.x),
{
    if pos.x < size.x && pos.y < size.y {
        match pos.y.checked_mul(size.x) {
            Some(row) => match row.checked_add(pos.x) {
                Some(i) => {
                    if i < len {
                        Some(i)
                    } else {
                        None
                    }
                },
                None => None,
            },
            None => {
                assert(0 <= pos.x);
                None
            },
        }
    } else {
        None
    }
}

} // verus!
