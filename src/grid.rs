//! Cell layout of a batch of bodies spawned as a square grid.
use vstd::prelude::*;

verus! {

/// Bodies per side of a spawned grid.
pub const GRID_SIDE: usize = 10;

/// Largest side accepted by `grid_cells`.
pub const MAX_GRID_SIDE: usize = 4096;

/// The cells of a `side` by `side` grid as `(column, row)` pairs counted
/// from one, row by row: cell `k` is `(k % side + 1, k / side + 1)`.
pub fn grid_cells(side: usize) -> (r: Vec<(usize, usize)>)
    requires
        side <= MAX_GRID_SIDE,
    ensures
        r@.len() == side * side,
        forall|k: int| 0 <= k < r@.len() ==> #[trigger] r@[k] == ((k % side as int + 1) as usize, (k / side as int + 1) as usize),
{
    let mut r: Vec<(usize, usize)> = Vec::new();
    let mut y: usize = 0;
    while y < side
        invariant
            side <= MAX_GRID_SIDE,
            y <= side,
            r@.len() == y * side,
            forall|k: int| 0 <= k < r@.len() ==> #[trigger] r@[k] == ((k % side as int + 1) as usize, (k / side as int + 1) as usize),
        decreases side - y,
    {
        let mut x: usize = 0;
        while x < side
            invariant
                side <= MAX_GRID_SIDE,
                y < side,
                x <= side,
                r@.len() == y * side + x,
                forall|k: int| 0 <= k < r@.len() ==> #[trigger] r@[k] == ((k % side as int + 1) as usize, (k / side as int + 1) as usize),
            decreases side - x,
        {
            proof {
                assert((y * side + x) % side as int == x as int && (y * side + x) / side as int == y as int) by (nonlinear_arith)
                    requires x < side;
                assert(y * side + x < MAX_GRID_SIDE * MAX_GRID_SIDE) by (nonlinear_arith)
                    requires x < side, y < side, side <= MAX_GRID_SIDE;
            }
            r.push((x + 1, y + 1));
            x = x + 1;
        }
        proof {
            assert(y * side + side == (y + 1) * side) by (nonlinear_arith);
        }
        y = y + 1;
    }
    r
}

} // verus!
