use vstd::prelude::*;

use crate::game::Woodoku;
use crate::placement::lemma_cell_split;

verus! {

/// The cells of board row `r`, left to right.
pub open spec fn row_cells(r: int) -> Seq<usize> {
    Seq::new(9, |c: int| (r * 9 + c) as usize)
}

/// The cells of board column `c`, top to bottom.
pub open spec fn column_cells(c: int) -> Seq<usize> {
    Seq::new(9, |r: int| (r * 9 + c) as usize)
}

/// The `k`-th cell, in row-major order, of the 3x3 grid `g`; grids are
/// numbered row-major too.
pub open spec fn grid_cell(g: int, k: int) -> int {
    (g / 3) * 27 + (g % 3) * 3 + (k / 3) * 9 + k % 3
}

/// The cells of the 3x3 grid `g`.
pub open spec fn grid_cells(g: int) -> Seq<usize> {
    Seq::new(9, |k: int| grid_cell(g, k) as usize)
}

pub open spec fn rows() -> Seq<Seq<usize>> {
    Seq::new(9, |r: int| row_cells(r))
}

pub open spec fn columns() -> Seq<Seq<usize>> {
    Seq::new(9, |c: int| column_cells(c))
}

pub open spec fn grids() -> Seq<Seq<usize>> {
    Seq::new(9, |g: int| grid_cells(g))
}

/// Every listed cell is occupied.
pub open spec fn all_set(board: Seq<bool>, cells: Seq<usize>) -> bool {
    forall|k: int| 0 <= k < cells.len() ==> board[#[trigger] cells[k] as int]
}

/// The cells of the fully occupied sets among the first `n` of `sets`, set after set.
pub open spec fn full_sets(board: Seq<bool>, sets: Seq<Seq<usize>>, n: int) -> Seq<usize>
    decreases n,
{
    if n <= 0 {
        Seq::empty()
    } else {
        full_sets(board, sets, n - 1) + if all_set(board, sets[n - 1]) {
            sets[n - 1]
        } else {
            Seq::empty()
        }
    }
}

/// The cells to clear: those of the full rows, then of the full columns, then
/// of the full grids. A cell in several full sets is listed once per set.
pub open spec fn clear_list(board: Seq<bool>) -> Seq<usize> {
    full_sets(board, rows(), 9) + full_sets(board, columns(), 9) + full_sets(board, grids(), 9)
}

/// The board once every full row, column and grid is emptied.
pub open spec fn cleared(board: Seq<bool>) -> Seq<bool> {
    Seq::new(81, |b: int| board[b] && !clear_list(board).contains(b as usize))
}

/// How many sets a clear counts: the listed cells, duplicates included, over nine.
pub open spec fn sets_cleared(board: Seq<bool>) -> nat {
    clear_list(board).len() / 9
}

proof fn lemma_split3(q: int, r: int)
    requires
        0 <= q,
        0 <= r < 3,
    ensures
        (q * 3 + r) / 3 == q,
        (q * 3 + r) % 3 == r,
{
    vstd::arithmetic::div_mod::lemma_fundamental_div_mod_converse(q * 3 + r, 3, q, r);
}

proof fn lemma_full_sets_len(board: Seq<bool>, sets: Seq<Seq<usize>>, n: int)
    requires
        0 <= n <= sets.len(),
        forall|i: int| 0 <= i < sets.len() ==> (#[trigger] sets[i]).len() == 9,
    ensures
        full_sets(board, sets, n).len() <= 9 * n,
        full_sets(board, sets, n).len() % 9 == 0,
    decreases n,
{
    if n > 0 {
        lemma_full_sets_len(board, sets, n - 1);
    }
}

proof fn lemma_grid_cell_bound(g: int, k: int)
    requires
        0 <= g < 9,
        0 <= k < 9,
    ensures
        0 <= grid_cell(g, k) < 81,
{
}

proof fn lemma_full_sets_in_board(board: Seq<bool>, sets: Seq<Seq<usize>>, n: int)
    requires
        0 <= n <= sets.len(),
        forall|i: int, k: int| 0 <= i < sets.len() && 0 <= k < sets[i].len() ==> #[trigger] sets[i][k] < 81,
    ensures
        forall|j: int| 0 <= j < full_sets(board, sets, n).len() ==> #[trigger] full_sets(board, sets, n)[j] < 81,
    decreases n,
{
    if n > 0 {
        lemma_full_sets_in_board(board, sets, n - 1);
        let prev = full_sets(board, sets, n - 1);
        let last = if all_set(board, sets[n - 1]) { sets[n - 1] } else { Seq::empty() };
        assert forall|j: int| 0 <= j < full_sets(board, sets, n).len() implies #[trigger] full_sets(board, sets, n)[j] < 81 by {
            if j >= prev.len() {
                assert(full_sets(board, sets, n)[j] == last[j - prev.len()]);
            } else {
                assert(full_sets(board, sets, n)[j] == prev[j]);
            }
        }
    }
}

/// Every listed cell lies on the board, and the list holds at most 27 sets of nine.
proof fn lemma_indices_to_clear_facts(board: Seq<bool>)
    ensures
        forall|j: int| 0 <= j < clear_list(board).len() ==> #[trigger] clear_list(board)[j] < 81,
        clear_list(board).len() <= 243,
{
    assert forall|g: int, k: int| 0 <= g < 9 && 0 <= k < 9 implies #[trigger] grids()[g][k] < 81 by {
        lemma_grid_cell_bound(g, k);
    }
    lemma_full_sets_in_board(board, rows(), 9);
    lemma_full_sets_in_board(board, columns(), 9);
    lemma_full_sets_in_board(board, grids(), 9);
    lemma_full_sets_len(board, rows(), 9);
    lemma_full_sets_len(board, columns(), 9);
    lemma_full_sets_len(board, grids(), 9);
    let a = full_sets(board, rows(), 9);
    let b = full_sets(board, columns(), 9);
    let c = full_sets(board, grids(), 9);
    assert forall|j: int| 0 <= j < clear_list(board).len() implies #[trigger] clear_list(board)[j] < 81 by {
        if j < a.len() {
            assert(clear_list(board)[j] == a[j]);
        } else if j < a.len() + b.len() {
            assert(clear_list(board)[j] == b[j - a.len()]);
        } else {
            assert(clear_list(board)[j] == c[j - a.len() - b.len()]);
        }
    }
}

/// The 3x3 grid `g` is exactly the block of cells whose row lies in the
/// `g / 3`-th band of three rows and whose column lies in the `g % 3`-th band
/// of three columns.
pub proof fn lemma_grid_is_block(g: int, b: int)
    requires
        0 <= g < 9,
        0 <= b < 81,
    ensures
        grid_cells(g).contains(b as usize) <==> ((b / 9) / 3 == g / 3 && (b % 9) / 3 == g % 3),
{
    if grid_cells(g).contains(b as usize) {
        let k = choose|k: int| 0 <= k < 9 && grid_cells(g)[k] == b as usize;
        lemma_grid_cell_bound(g, k);
        let row = 3 * (g / 3) + k / 3;
        let col = 3 * (g % 3) + k % 3;
        assert(b == row * 9 + col);
        lemma_cell_split(row, col);
        lemma_split3(g / 3, k / 3);
        lemma_split3(g % 3, k % 3);
    }
    if (b / 9) / 3 == g / 3 && (b % 9) / 3 == g % 3 {
        let k = 3 * ((b / 9) % 3) + (b % 9) % 3;
        lemma_split3((b / 9) % 3, (b % 9) % 3);
        assert(grid_cell(g, k) == b);
        assert(grid_cells(g)[k] == b as usize);
    }
}

/// Every board cell lies in exactly one 3x3 grid.
pub proof fn lemma_grids_partition_board(b: int)
    requires
        0 <= b < 81,
    ensures
        grid_cells(3 * ((b / 9) / 3) + (b % 9) / 3).contains(b as usize),
        forall|g: int| 0 <= g < 9 && #[trigger] grid_cells(g).contains(b as usize) ==> g == 3 * ((b / 9) / 3) + (b % 9) / 3,
{
    let h = 3 * ((b / 9) / 3) + (b % 9) / 3;
    lemma_split3((b / 9) / 3, (b % 9) / 3);
    lemma_grid_is_block(h, b);
    assert forall|g: int| 0 <= g < 9 && #[trigger] grid_cells(g).contains(b as usize) implies g == h by {
        lemma_grid_is_block(g, b);
    }
}

/// How many of the first `n` of `sets` are fully occupied.
pub open spec fn full_count(board: Seq<bool>, sets: Seq<Seq<usize>>, n: int) -> nat
    decreases n,
{
    if n <= 0 {
        0
    } else {
        full_count(board, sets, n - 1) + if all_set(board, sets[n - 1]) {
            1nat
        } else {
            0nat
        }
    }
}

proof fn lemma_full_sets_count(board: Seq<bool>, sets: Seq<Seq<usize>>, n: int)
    requires
        0 <= n <= sets.len(),
        forall|i: int| 0 <= i < sets.len() ==> (#[trigger] sets[i]).len() == 9,
    ensures
        full_sets(board, sets, n).len() == 9 * full_count(board, sets, n),
    decreases n,
{
    if n > 0 {
        lemma_full_sets_count(board, sets, n - 1);
    }
}

/// A clear counts one set for each full row, each full column and each full
/// grid, even where two of them share cells.
pub proof fn lemma_sets_cleared_counts_full_sets(board: Seq<bool>)
    ensures
        sets_cleared(board) == full_count(board, rows(), 9) + full_count(board, columns(), 9)
            + full_count(board, grids(), 9),
{
    lemma_full_sets_count(board, rows(), 9);
    lemma_full_sets_count(board, columns(), 9);
    lemma_full_sets_count(board, grids(), 9);
    let total = full_count(board, rows(), 9) + full_count(board, columns(), 9) + full_count(board, grids(), 9);
    assert(clear_list(board).len() == 9 * total);
    vstd::arithmetic::div_mod::lemma_fundamental_div_mod_converse((9 * total) as int, 9, total as int, 0);
}

impl Woodoku {
    /// Appends `cells` to `indices_to_clear` when every one of them is occupied.
    fn extend_if_full(board: &[bool], cells: &Vec<usize>, indices_to_clear: &mut Vec<usize>)
        requires
            forall|k: int| 0 <= k < cells.len() ==> #[trigger] cells@[k] < board@.len(),
        ensures
            final(indices_to_clear)@ == old(indices_to_clear)@ + if all_set(board@, cells@) {
                cells@
            } else {
                Seq::empty()
            },
    {
        let mut full = true;
        let mut k: usize = 0;
        while k < cells.len()
            invariant
                k <= cells.len(),
                forall|j: int| 0 <= j < cells.len() ==> #[trigger] cells@[j] < board@.len(),
                full == forall|j: int| 0 <= j < k ==> board@[#[trigger] cells@[j] as int],
            decreases cells.len() - k,
        {
            if !board[cells[k]] {
                full = false;
            }
            k = k + 1;
        }
        let ghost before = indices_to_clear@;
        if full {
            let mut k: usize = 0;
            while k < cells.len()
                invariant
                    k <= cells.len(),
                    indices_to_clear@ == before + cells@.subrange(0, k as int),
                decreases cells.len() - k,
            {
                indices_to_clear.push(cells[k]);
                assert(cells@.subrange(0, k + 1) == cells@.subrange(0, k as int).push(cells@[k as int]));
                k = k + 1;
            }
            assert(cells@.subrange(0, cells.len() as int) == cells@);
        } else {
            assert(before + Seq::<usize>::empty() == before);
        }
    }

    /// Appends, row after row, the cells of every full row of `board`.
    pub fn get_rows_indices_to_clear(board: &[bool], indices_to_clear: &mut Vec<usize>)
        requires
            board@.len() == 81,
        ensures
            final(indices_to_clear)@ == old(indices_to_clear)@ + full_sets(board@, rows(), 9),
    {
        let ghost start = indices_to_clear@;
        let mut row_ix: usize = 0;
        while row_ix < 9
            invariant
                row_ix <= 9,
                board@.len() == 81,
                indices_to_clear@ == start + full_sets(board@, rows(), row_ix as int),
            decreases 9 - row_ix,
        {
            let mut cells: Vec<usize> = Vec::new();
            let mut c: usize = 0;
            while c < 9
                invariant
                    row_ix < 9,
                    c <= 9,
                    cells@ == row_cells(row_ix as int).subrange(0, c as int),
                decreases 9 - c,
            {
                cells.push(row_ix * 9 + c);
                assert(cells@ =~= row_cells(row_ix as int).subrange(0, c + 1));
                c = c + 1;
            }
            assert(cells@ =~= rows()[row_ix as int]);
            let ghost mid = indices_to_clear@;
            Self::extend_if_full(board, &cells, indices_to_clear);
            assert(indices_to_clear@ =~= start + full_sets(board@, rows(), row_ix + 1));
            row_ix = row_ix + 1;
        }
    }

    /// Appends, column after column, the cells of every full column of `board`.
    pub fn get_columns_indices_to_clear(board: &[bool], indices_to_clear: &mut Vec<usize>)
        requires
            board@.len() == 81,
        ensures
            final(indices_to_clear)@ == old(indices_to_clear)@ + full_sets(board@, columns(), 9),
    {
        let ghost start = indices_to_clear@;
        let mut col_ix: usize = 0;
        while col_ix < 9
            invariant
                col_ix <= 9,
                board@.len() == 81,
                indices_to_clear@ == start + full_sets(board@, columns(), col_ix as int),
            decreases 9 - col_ix,
        {
            let mut cells: Vec<usize> = Vec::new();
            let mut r: usize = 0;
            while r < 9
                invariant
                    col_ix < 9,
                    r <= 9,
                    cells@ == column_cells(col_ix as int).subrange(0, r as int),
                decreases 9 - r,
            {
                cells.push(r * 9 + col_ix);
                assert(cells@ =~= column_cells(col_ix as int).subrange(0, r + 1));
                r = r + 1;
            }
            assert(cells@ =~= columns()[col_ix as int]);
            Self::extend_if_full(board, &cells, indices_to_clear);
            assert(indices_to_clear@ =~= start + full_sets(board@, columns(), col_ix + 1));
            col_ix = col_ix + 1;
        }
    }
    /// The nine 3x3 grids of the board, in row-major grid order, each listing
    /// its cells in row-major order.
    pub fn get_grid_indices() -> (r: Vec<Vec<usize>>)
        ensures
            r@.len() == 9,
            forall|g: int| 0 <= g < 9 ==> (#[trigger] r@[g])@ == grid_cells(g),
    {
        let mut grids_indices: Vec<Vec<usize>> = Vec::new();
        let mut grid_ix_0: usize = 0;
        while grid_ix_0 < 3
            invariant
                grid_ix_0 <= 3,
                grids_indices@.len() == grid_ix_0 * 3,
                forall|g: int| 0 <= g < grids_indices@.len() ==> (#[trigger] grids_indices@[g])@ == grid_cells(g),
            decreases 3 - grid_ix_0,
        {
            let q1 = grid_ix_0 * 27;
            let mut grid_ix_1: usize = 0;
            while grid_ix_1 < 3
                invariant
                    grid_ix_0 < 3,
                    grid_ix_1 <= 3,
                    q1 == grid_ix_0 * 27,
                    grids_indices@.len() == grid_ix_0 * 3 + grid_ix_1,
                    forall|g: int| 0 <= g < grids_indices@.len() ==> (#[trigger] grids_indices@[g])@ == grid_cells(g),
                decreases 3 - grid_ix_1,
            {
                let ghost g = grid_ix_0 * 3 + grid_ix_1;
                proof {
                    lemma_split3(grid_ix_0 as int, grid_ix_1 as int);
                }
                let q2 = grid_ix_1 * 3;
                let mut grid_indices: Vec<usize> = Vec::new();
                let mut grid_row: usize = 0;
                while grid_row < 3
                    invariant
                        grid_ix_0 < 3,
                        grid_ix_1 < 3,
                        grid_row <= 3,
                        q1 == grid_ix_0 * 27,
                        q2 == grid_ix_1 * 3,
                        g == grid_ix_0 * 3 + grid_ix_1,
                        g / 3 == grid_ix_0,
                        g % 3 == grid_ix_1,
                        grid_indices@ == grid_cells(g).subrange(0, grid_row * 3),
                    decreases 3 - grid_row,
                {
                    let q3 = grid_row * 9;
                    let mut grid_col: usize = 0;
                    while grid_col < 3
                        invariant
                            grid_ix_0 < 3,
                            grid_ix_1 < 3,
                            grid_row < 3,
                            grid_col <= 3,
                            q1 == grid_ix_0 * 27,
                            q2 == grid_ix_1 * 3,
                            q3 == grid_row * 9,
                            g == grid_ix_0 * 3 + grid_ix_1,
                            g / 3 == grid_ix_0,
                            g % 3 == grid_ix_1,
                            grid_indices@ == grid_cells(g).subrange(0, grid_row * 3 + grid_col),
                        decreases 3 - grid_col,
                    {
                        proof {
                            lemma_split3(grid_row as int, grid_col as int);
                        }
                        grid_indices.push(q1 + q2 + q3 + grid_col);
                        assert(grid_indices@ =~= grid_cells(g).subrange(0, grid_row * 3 + grid_col + 1));
                        grid_col = grid_col + 1;
                    }
                    grid_row = grid_row + 1;
                }
                assert(grid_indices@ =~= grid_cells(g));
                grids_indices.push(grid_indices);
                grid_ix_1 = grid_ix_1 + 1;
            }
            grid_ix_0 = grid_ix_0 + 1;
        }
        grids_indices
    }

    /// Appends, grid after grid, the cells of every full 3x3 grid of `board`.
    pub fn get_grids_indices_to_clear(board: &[bool], indices_to_clear: &mut Vec<usize>)
        requires
            board@.len() == 81,
        ensures
            final(indices_to_clear)@ == old(indices_to_clear)@ + full_sets(board@, grids(), 9),
    {
        let grids_indices = Self::get_grid_indices();
        let ghost start = indices_to_clear@;
        let mut g: usize = 0;
        while g < 9
            invariant
                g <= 9,
                board@.len() == 81,
                grids_indices@.len() == 9,
                forall|h: int| 0 <= h < 9 ==> (#[trigger] grids_indices@[h])@ == grid_cells(h),
                indices_to_clear@ == start + full_sets(board@, grids(), g as int),
            decreases 9 - g,
        {
            let cells = &grids_indices[g];
            assert(cells@ =~= grids()[g as int]);
            assert forall|k: int| 0 <= k < cells.len() implies #[trigger] cells@[k] < board@.len() by {
                lemma_grid_cell_bound(g as int, k);
            }
            Self::extend_if_full(board, cells, indices_to_clear);
            assert(indices_to_clear@ =~= start + full_sets(board@, grids(), g + 1));
            g = g + 1;
        }
    }

    /// The cells of every full row, then every full column, then every full
    /// grid of `board`; a cell in several full sets is listed once per set.
    pub fn get_indices_to_clear_with_duplicates(board: &[bool]) -> (r: Vec<usize>)
        requires
            board@.len() == 81,
        ensures
            r@ == clear_list(board@),
    {
        let mut indices_to_clear: Vec<usize> = Vec::new();
        Self::get_rows_indices_to_clear(board, &mut indices_to_clear);
        Self::get_columns_indices_to_clear(board, &mut indices_to_clear);
        Self::get_grids_indices_to_clear(board, &mut indices_to_clear);
        assert(indices_to_clear@ =~= clear_list(board@));
        indices_to_clear
    }

    /// Empties every full row, column and grid of `board` and returns how many
    /// sets that counts: the listed cells, duplicates included, over nine.
    pub fn clear_indices(board: &mut Vec<bool>) -> (r: usize)
        requires
            old(board)@.len() == 81,
        ensures
            final(board)@ == cleared(old(board)@),
            r == sets_cleared(old(board)@),
            r <= 27,
    {
        let indices_to_clear = Self::get_indices_to_clear_with_duplicates(board.as_slice());
        let ghost before = board@;
        proof {
            lemma_indices_to_clear_facts(before);
        }
        let mut i: usize = 0;
        while i < indices_to_clear.len()
            invariant
                i <= indices_to_clear.len(),
                board@.len() == 81,
                before.len() == 81,
                indices_to_clear@ == clear_list(before),
                forall|j: int| 0 <= j < indices_to_clear.len() ==> #[trigger] indices_to_clear@[j] < 81,
                forall|b: int| 0 <= b < 81 ==> #[trigger] board@[b] == (before[b] && !exists|j: int| 0 <= j < i && indices_to_clear@[j] == b),
            decreases indices_to_clear.len() - i,
        {
            let ix = indices_to_clear[i];
            board.set(ix, false);
            proof {
                assert forall|b: int| 0 <= b < 81 implies #[trigger] board@[b] == (before[b] && !exists|j: int| 0 <= j < i + 1 && indices_to_clear@[j] == b) by {
                    if b == ix as int {
                        assert(indices_to_clear@[i as int] == b);
                    }
                }
            }
            i = i + 1;
        }
        proof {
            assert forall|b: int| 0 <= b < 81 implies #[trigger] board@[b] == cleared(before)[b] by {
                if indices_to_clear@.contains(b as usize) {
                    let j = choose|j: int| 0 <= j < indices_to_clear.len() && indices_to_clear@[j] == b as usize;
                    assert(indices_to_clear@[j] == b);
                }
            }
            assert(board@ =~= cleared(before));
        }
        indices_to_clear.len() / 9
    }
}

} // verus!
