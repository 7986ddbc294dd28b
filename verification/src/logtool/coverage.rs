//! Which cells of the field the cameras cover, and where they overlap.
//!
//! Cells are numbered row by row: cell `k` is in column `k % nx` and row
//! `k / nx`.
use vstd::prelude::*;

verus! {

/// How many of the first `n` cells of a mask are set.
pub open spec fn set_cells(mask: Seq<bool>, n: nat) -> nat
    decreases n,
{
    if n == 0 {
        0
    } else {
        set_cells(mask, (n - 1) as nat) + if mask[n - 1] {
            1nat
        } else {
            0nat
        }
    }
}

/// The cells a camera covers: how many, and the columns and rows they span.
#[derive(Clone, Copy, Debug, PartialEq, Eq, Structural)]
pub struct Coverage {
    /// Number of cells.
    pub cells: u64,
    /// First column.
    pub min_x: usize,
    /// Last column.
    pub max_x: usize,
    /// First row.
    pub min_y: usize,
    /// Last row.
    pub max_y: usize,
}

/// Every set cell among the first `n` is inside the box, and each side of the box
/// is touched by one.
pub open spec fn bounds(c: Coverage, mask: Seq<bool>, nx: int, n: int) -> bool {
    &&& forall|k: int|
        #![trigger mask[k]]
        0 <= k < n && mask[k] ==> c.min_x <= k % nx <= c.max_x && c.min_y <= k / nx <= c.max_y
    &&& exists|k: int| #![trigger mask[k]] 0 <= k < n && mask[k] && k % nx == c.min_x
    &&& exists|k: int| #![trigger mask[k]] 0 <= k < n && mask[k] && k % nx == c.max_x
    &&& exists|k: int| #![trigger mask[k]] 0 <= k < n && mask[k] && k / nx == c.min_y
    &&& exists|k: int| #![trigger mask[k]] 0 <= k < n && mask[k] && k / nx == c.max_y
}

/// Count and bound the set cells of a mask with `nx` columns; none if no cell is
/// set.
pub fn coverage(mask: &Vec<bool>, nx: usize) -> (res: Option<Coverage>)
    requires
        nx > 0,
    ensures
        match res {
            Some(c) => c.cells == set_cells(mask@, mask@.len()) && c.cells > 0 && bounds(
                c,
                mask@,
                nx as int,
                mask@.len() as int,
            ),
            None => set_cells(mask@, mask@.len()) == 0 && forall|k: int|
                0 <= k < mask@.len() ==> !#[trigger] mask@[k],
        },
{
    let total: usize = mask.len();
    let mut res: Option<Coverage> = None;
    let mut k: usize = 0;
    while k < total
        invariant
            k <= total,
            total == mask@.len(),
            nx > 0,
            set_cells(mask@, k as nat) <= k,
            match res {
                Some(c) => c.cells == set_cells(mask@, k as nat) && c.cells > 0 && bounds(
                    c,
                    mask@,
                    nx as int,
                    k as int,
                ),
                None => set_cells(mask@, k as nat) == 0 && forall|j: int|
                    0 <= j < k ==> !#[trigger] mask@[j],
            },
        decreases total - k,
    {
        if mask[k] {
            let x: usize = k % nx;
            let y: usize = k / nx;
            res = match res {
                Some(c) => {
                    let n = Coverage {
                        cells: c.cells + 1,
                        min_x: if x < c.min_x {
                            x
                        } else {
                            c.min_x
                        },
                        max_x: if x > c.max_x {
                            x
                        } else {
                            c.max_x
                        },
                        min_y: if y < c.min_y {
                            y
                        } else {
                            c.min_y
                        },
                        max_y: if y > c.max_y {
                            y
                        } else {
                            c.max_y
                        },
                    };
                    Some(n)
                },
                None => Some(Coverage { cells: 1, min_x: x, max_x: x, min_y: y, max_y: y }),
            };
            proof {
                assert(mask@[k as int]);
            }
        }
        k += 1;
    }
    res
}

/// How many cameras cover a cell.
pub open spec fn depth(masks: Seq<Vec<bool>>, k: int) -> nat
    decreases masks.len(),
{
    if masks.len() == 0 {
        0
    } else {
        depth(masks.drop_last(), k) + if masks.last()@[k] {
            1nat
        } else {
            0nat
        }
    }
}

/// How many of the cells from `from` up to `to` are covered by more than
/// `cameras` cameras.
pub open spec fn deeper(masks: Seq<Vec<bool>>, cameras: nat, from: int, to: int) -> nat
    decreases to - from,
{
    if to <= from {
        0
    } else {
        deeper(masks, cameras, from, to - 1) + if depth(masks, to - 1) > cameras {
            1nat
        } else {
            0nat
        }
    }
}

/// Of the first `n` rows, the number of cells covered at least twice in each row
/// that has one.
pub open spec fn bands(masks: Seq<Vec<bool>>, nx: int, n: nat) -> Seq<int>
    decreases n,
{
    if n == 0 {
        seq![]
    } else {
        let before = bands(masks, nx, (n - 1) as nat);
        let row = deeper(masks, 1, (n - 1) * nx, (n - 1) * nx + nx);
        if row > 0 {
            before.push(row as int)
        } else {
            before
        }
    }
}

/// Where cameras overlap.
#[derive(Clone, Debug)]
pub struct Overlap {
    /// Cells that any camera covers.
    pub covered: u64,
    /// Cells that several cameras cover.
    pub multi: u64,
    /// For each row with cells that several cameras cover, how many there are.
    pub rows: Vec<u64>,
}

fn depth_at(masks: &Vec<Vec<bool>>, k: usize) -> (res: usize)
    requires
        forall|i: int| 0 <= i < masks@.len() ==> k < (#[trigger] masks@[i])@.len(),
    ensures
        res == depth(masks@, k as int),
{
    let total: usize = masks.len();
    let mut n: usize = 0;
    let mut i: usize = 0;
    while i < total
        invariant
            i <= total,
            total == masks@.len(),
            n <= i,
            n == depth(masks@.take(i as int), k as int),
            forall|j: int| 0 <= j < masks@.len() ==> k < (#[trigger] masks@[j])@.len(),
        decreases total - i,
    {
        assert(masks@.take(i + 1).drop_last() =~= masks@.take(i as int));
        assert(k < masks@[i as int]@.len());
        if masks[i][k] {
            n += 1;
        }
        i += 1;
    }
    assert(masks@.take(i as int) =~= masks@);
    n
}

/// The overlap of masks with `nx` columns and `ny` rows.
pub fn overlap(masks: &Vec<Vec<bool>>, nx: usize, ny: usize) -> (res: Overlap)
    requires
        nx * ny <= usize::MAX,
        forall|i: int| 0 <= i < masks@.len() ==> (#[trigger] masks@[i])@.len() == nx * ny,
    ensures
        res.covered == deeper(masks@, 0, 0, nx * ny),
        res.multi == deeper(masks@, 1, 0, nx * ny),
        res.rows@.map_values(|n: u64| n as int) == bands(masks@, nx as int, ny as nat),
{
    let ghost as_int = |n: u64| n as int;
    let mut covered: u64 = 0;
    let mut multi: u64 = 0;
    let mut rows: Vec<u64> = Vec::new();
    let mut k: usize = 0;
    let mut iy: usize = 0;
    proof {
        assert(0 * nx == 0) by (nonlinear_arith);
        assert(rows@.map_values(as_int) =~= bands(masks@, nx as int, 0));
    }
    while iy < ny
        invariant
            iy <= ny,
            as_int == (|n: u64| n as int),
            nx * ny <= usize::MAX,
            k == iy * nx,
            forall|i: int| 0 <= i < masks@.len() ==> (#[trigger] masks@[i])@.len() == nx * ny,
            covered == deeper(masks@, 0, 0, k as int),
            multi == deeper(masks@, 1, 0, k as int),
            covered <= k,
            multi <= k,
            rows@.map_values(as_int) == bands(masks@, nx as int, iy as nat),
        decreases ny - iy,
    {
        let ghost start = k as int;
        proof {
            assert((iy + 1) * nx == iy * nx + nx) by (nonlinear_arith);
            assert((iy + 1) * nx <= nx * ny) by (nonlinear_arith)
                requires
                    iy + 1 <= ny,
            ;
        }
        let mut row: u64 = 0;
        let mut ix: usize = 0;
        while ix < nx
            invariant
                ix <= nx,
                k == start + ix,
                start + nx <= nx * ny <= usize::MAX,
                0 <= start,
                forall|i: int| 0 <= i < masks@.len() ==> (#[trigger] masks@[i])@.len() == nx * ny,
                covered == deeper(masks@, 0, 0, k as int),
                multi == deeper(masks@, 1, 0, k as int),
                row == deeper(masks@, 1, start, k as int),
                covered <= k,
                multi <= k,
                row <= ix,
            decreases nx - ix,
        {
            let n: usize = depth_at(masks, k);
            if n > 0 {
                covered += 1;
            }
            if n > 1 {
                multi += 1;
                row += 1;
            }
            k += 1;
            ix += 1;
        }
        let ghost before = rows@;
        if row > 0 {
            rows.push(row);
            assert(rows@.map_values(as_int) =~= before.map_values(as_int).push(row as int));
        }
        iy += 1;
    }
    proof {
        assert(ny * nx == nx * ny) by (nonlinear_arith);
    }
    Overlap { covered, multi, rows }
}

/// A cell that several cameras cover is covered: the overlap is part of the
/// coverage.
pub proof fn law_overlap_is_covered(masks: Seq<Vec<bool>>, from: int, to: int)
    ensures
        deeper(masks, 1, from, to) <= deeper(masks, 0, from, to),
    decreases to - from,
{
    if from < to {
        law_overlap_is_covered(masks, from, to - 1);
    }
}

/// As many cells are set as the mask has flags set.
pub proof fn law_set_cells_are_counted(mask: Seq<bool>, n: nat)
    requires
        n <= mask.len(),
    ensures
        set_cells(mask, n) == mask.take(n as int).filter(|c: bool| c).len(),
    decreases n,
{
    reveal(Seq::filter);
    if n > 0 {
        law_set_cells_are_counted(mask, (n - 1) as nat);
        assert(mask.take(n as int).drop_last() =~= mask.take(n - 1));
    }
}

/// A set cell lies inside the box by its column, the rest of its number divided by the
/// columns, and by its row, the quotient; each side of the box is that of some set cell.
pub proof fn law_boxes_fit_tightly(c: Coverage, mask: Seq<bool>, nx: int, n: int, k: int)
    requires
        bounds(c, mask, nx, n),
    ensures
        0 <= k < n && mask[k] ==> c.min_x <= k % nx && k % nx <= c.max_x && c.min_y <= k / nx && k / nx
            <= c.max_y,
        exists|k: int| #![trigger mask[k]] 0 <= k < n && mask[k] && k % nx == c.min_x,
        exists|k: int| #![trigger mask[k]] 0 <= k < n && mask[k] && k % nx == c.max_x,
        exists|k: int| #![trigger mask[k]] 0 <= k < n && mask[k] && k / nx == c.min_y,
        exists|k: int| #![trigger mask[k]] 0 <= k < n && mask[k] && k / nx == c.max_y,
{
}

/// A cell's depth is the number of masks in which it is set.
pub proof fn law_depth_counts_masks(masks: Seq<Vec<bool>>, k: int)
    ensures
        depth(masks, k) == masks.filter(|m: Vec<bool>| m@[k]).len(),
    decreases masks.len(),
{
    reveal(Seq::filter);
    if masks.len() > 0 {
        law_depth_counts_masks(masks.drop_last(), k);
    }
}

/// The cells counted are those set in more masks than asked for.
pub proof fn law_deeper_cells_are_counted(masks: Seq<Vec<bool>>, cameras: nat, from: int, to: int)
    requires
        from <= to,
    ensures
        deeper(masks, cameras, from, to) == Seq::new((to - from) as nat, |k: int| from + k).filter(
            |k: int| depth(masks, k) > cameras,
        ).len(),
    decreases to - from,
{
    reveal(Seq::filter);
    let all = Seq::new((to - from) as nat, |k: int| from + k);
    if to > from {
        law_deeper_cells_are_counted(masks, cameras, from, to - 1);
        assert(all.drop_last() =~= Seq::new((to - 1 - from) as nat, |k: int| from + k));
        assert(all.last() == to - 1);
    }
}

/// The rows listed are those in which cameras overlap, in order, each with its number
/// of cells that several cameras cover; together they hold all such cells.
pub proof fn law_bands_are_the_rows_with_overlap(masks: Seq<Vec<bool>>, nx: int, n: nat)
    requires
        nx >= 0,
    ensures
        bands(masks, nx, n) == Seq::new(
            n,
            |r: int| deeper(masks, 1, r * nx, r * nx + nx) as int,
        ).filter(|c: int| c > 0),
        bands(masks, nx, n).fold_left(0, |a: int, c: int| a + c) == deeper(masks, 1, 0, n * nx),
    decreases n,
{
    reveal(Seq::filter);
    let row = |r: int| deeper(masks, 1, r * nx, r * nx + nx) as int;
    let rows = Seq::new(n, row);
    let add_up = |a: int, c: int| a + c;
    if n > 0 {
        law_bands_are_the_rows_with_overlap(masks, nx, (n - 1) as nat);
        let b = bands(masks, nx, n);
        let before = bands(masks, nx, (n - 1) as nat);
        assert(rows.drop_last() =~= Seq::new((n - 1) as nat, row));
        assert(rows.last() == row(n - 1));
        assert(n * nx == (n - 1) * nx + nx) by (nonlinear_arith)
            requires
                n > 0,
        ;
        assert(0 <= (n - 1) * nx) by (nonlinear_arith)
            requires
                n > 0,
                nx >= 0,
        ;
        lemma_deeper_adds(masks, 1, 0, (n - 1) * nx, n * nx);
        if row(n - 1) > 0 {
            assert(b.drop_last() =~= before);
        }
    } else {
        assert(0 * nx == 0) by (nonlinear_arith);
    }
}

proof fn lemma_deeper_adds(masks: Seq<Vec<bool>>, cameras: nat, from: int, mid: int, to: int)
    requires
        from <= mid <= to,
    ensures
        deeper(masks, cameras, from, to) == deeper(masks, cameras, from, mid) + deeper(
            masks,
            cameras,
            mid,
            to,
        ),
    decreases to - mid,
{
    if to > mid {
        lemma_deeper_adds(masks, cameras, from, mid, to - 1);
    }
}

} // verus!
