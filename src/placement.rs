use vstd::prelude::*;

use crate::error::MoveError;
use crate::game::Woodoku;

verus! {

/// The cell of a 5x5 mask at local row `lr` and local column `lc`.
pub open spec fn mask_at(shape: Seq<bool>, lr: int, lc: int) -> bool {
    shape[lr * 5 + lc]
}

/// Whether the local cell `(lr, lc)` of a shape anchored at `position` falls
/// outside the board: below its last row or past its right edge.
pub open spec fn off_board(position: int, lr: int, lc: int) -> bool {
    position / 9 + lr >= 9 || position % 9 + lc >= 9
}

/// Every occupied cell of the shape lands on the board when anchored at `position`.
pub open spec fn fits(shape: Seq<bool>, position: int) -> bool {
    forall|lr: int, lc: int|
        0 <= lr < 5 && 0 <= lc < 5 && #[trigger] mask_at(shape, lr, lc) ==> !off_board(
            position,
            lr,
            lc,
        )
}

/// Board cell `b` is covered by an occupied cell of the shape anchored at `position`.
pub open spec fn covers(shape: Seq<bool>, position: int, b: int) -> bool {
    &&& 0 <= b < 81
    &&& position / 9 <= b / 9 < position / 9 + 5
    &&& position % 9 <= b % 9 < position % 9 + 5
    &&& mask_at(shape, b / 9 - position / 9, b % 9 - position % 9)
}

/// No cell covered by the shape is occupied on the board.
pub open spec fn free_for(board: Seq<bool>, shape: Seq<bool>, position: int) -> bool {
    forall|b: int| #[trigger] covers(shape, position, b) ==> !board[b]
}

/// The shape can be placed at `position`: it fits and overlaps nothing.
pub open spec fn can_place(board: Seq<bool>, shape: Seq<bool>, position: int) -> bool {
    fits(shape, position) && free_for(board, shape, position)
}

/// The board after the shape is placed at `position`.
pub open spec fn placed(board: Seq<bool>, shape: Seq<bool>, position: int) -> Seq<bool> {
    Seq::new(81, |b: int| board[b] || covers(shape, position, b))
}

/// What placing the shape at `position` gives: the new board, or why it fails.
pub open spec fn placement_result(board: Seq<bool>, shape: Seq<bool>, position: int) -> Result<
    Seq<bool>,
    MoveError,
> {
    if !fits(shape, position) {
        Err(MoveError::OutOfRange)
    } else if !free_for(board, shape, position) {
        Err(MoveError::Overlap)
    } else {
        Ok(placed(board, shape, position))
    }
}

pub open spec fn strictly_increasing(s: Seq<usize>) -> bool {
    forall|i: int, j: int| 0 <= i < j < s.len() ==> s[i] < s[j]
}

/// A cell index splits into its row and column.
pub(crate) proof fn lemma_cell_split(row: int, col: int)
    requires
        0 <= row,
        0 <= col < 9,
    ensures
        (row * 9 + col) / 9 == row,
        (row * 9 + col) % 9 == col,
{
    vstd::arithmetic::div_mod::lemma_fundamental_div_mod_converse(row * 9 + col, 9, row, col);
}

proof fn lemma_cell_join(b: int)
    requires
        0 <= b,
    ensures
        b == (b / 9) * 9 + b % 9,
        0 <= b % 9 < 9,
{
}

/// A shape that fits on the board but covers an occupied cell is refused as
/// an overlap.
pub proof fn lemma_overlap_rejected(board: Seq<bool>, shape: Seq<bool>, position: int, b: int)
    requires
        fits(shape, position),
        covers(shape, position, b),
        board[b],
    ensures
        placement_result(board, shape, position) == Err::<Seq<bool>, MoveError>(MoveError::Overlap),
{
}

/// A shape with an occupied cell that would cross the right edge of the board
/// is refused as out of range, whatever the board holds.
pub proof fn lemma_right_edge_rejected(board: Seq<bool>, shape: Seq<bool>, position: int, lr: int, lc: int)
    requires
        0 <= position < 81,
        0 <= lr < 5,
        0 <= lc < 5,
        mask_at(shape, lr, lc),
        position % 9 + lc >= 9,
    ensures
        placement_result(board, shape, position) == Err::<Seq<bool>, MoveError>(MoveError::OutOfRange),
{
    assert(!fits(shape, position));
}

/// A shape whose occupied cells all stay within the board from `position`,
/// over free cells, is placed without error.
pub proof fn lemma_contained_shape_placed(board: Seq<bool>, shape: Seq<bool>, position: int)
    requires
        0 <= position < 81,
        forall|lr: int, lc: int|
            0 <= lr < 5 && 0 <= lc < 5 && #[trigger] mask_at(shape, lr, lc) ==> position / 9 + lr < 9
                && position % 9 + lc < 9,
        free_for(board, shape, position),
    ensures
        placement_result(board, shape, position) == Ok::<Seq<bool>, MoveError>(placed(board, shape, position)),
{
}

impl Woodoku {
    /// Whether local row `lr` of the mask holds an occupied cell at column `lc` or later.
    fn row_tail_has_cell(shape: &[bool], lr: usize, lc: usize) -> (r: bool)
        requires
            shape@.len() == 25,
            lr < 5,
            lc < 5,
        ensures
            r == exists|k: int| lc <= k < 5 && #[trigger] mask_at(shape@, lr as int, k),
    {
        let mut k: usize = lc;
        while k < 5
            invariant
                lc <= k <= 5,
                lr < 5,
                shape@.len() == 25,
                forall|j: int| lc <= j < k ==> !#[trigger] mask_at(shape@, lr as int, j),
            decreases 5 - k,
        {
            if shape[lr * 5 + k] {
                assert(mask_at(shape@, lr as int, k as int));
                return true;
            }
            k = k + 1;
        }
        false
    }

    /// The board cells covered by the occupied cells of `shape` anchored at
    /// `position`, in increasing order, or `OutOfRange` when one of them
    /// would fall off the board.
    pub fn get_impacted_board_indices(shape: &[bool], position: usize) -> (r: Result<
        Vec<usize>,
        MoveError,
    >)
        requires
            shape@.len() == 25,
            position < 81,
        ensures
            r is Err ==> !fits(shape@, position as int),
            r is Err ==> r->Err_0 == MoveError::OutOfRange,
            r is Ok ==> fits(shape@, position as int),
            r matches Ok(v) ==> {
                &&& strictly_increasing(v@)
                &&& forall|i: int| 0 <= i < v.len() ==> covers(shape@, position as int, #[trigger] v@[i] as int)
                &&& forall|b: int| #[trigger] covers(shape@, position as int, b) ==> v@.contains(b as usize)
            },
    {
        let ghost pos = position as int;
        let pr: usize = position / 9;
        let pc: usize = position % 9;
        proof {
            lemma_cell_join(pos);
        }
        let mut board_indices: Vec<usize> = Vec::new();
        let mut lr: usize = 0;
        while lr < 5
            invariant
                lr <= 5,
                shape@.len() == 25,
                pr == pos / 9,
                pc == pos % 9,
                pos == pr * 9 + pc,
                pos == position as int,
                pc < 9,
                pr < 9,
                strictly_increasing(board_indices@),
                forall|i: int| 0 <= i < board_indices.len() ==> covers(shape@, pos, #[trigger] board_indices@[i] as int),
                forall|i: int| 0 <= i < board_indices.len() ==> #[trigger] board_indices@[i] < (pr + lr) * 9 + pc,
                forall|l: int, c: int| 0 <= l < lr && 0 <= c < 5 && #[trigger] mask_at(shape@, l, c) ==> !off_board(pos, l, c),
                forall|b: int| #[trigger] covers(shape@, pos, b) && b / 9 - pr < lr ==> board_indices@.contains(b as usize),
            decreases 5 - lr,
        {
            let mut lc: usize = 0;
            while lc < 5
                invariant
                    lr < 5,
                    lc <= 5,
                    shape@.len() == 25,
                    pr == pos / 9,
                    pc == pos % 9,
                    pos == pr * 9 + pc,
                    pos == position as int,
                    pc < 9,
                    pr < 9,
                    strictly_increasing(board_indices@),
                    forall|i: int| 0 <= i < board_indices.len() ==> covers(shape@, pos, #[trigger] board_indices@[i] as int),
                    forall|i: int| 0 <= i < board_indices.len() ==> #[trigger] board_indices@[i] < (pr + lr) * 9 + pc + lc,
                    forall|i: int| 0 <= i < board_indices.len() ==> #[trigger] board_indices@[i] < (pr + lr) * 9 + 9,
                    forall|l: int, c: int| 0 <= l < lr && 0 <= c < 5 && #[trigger] mask_at(shape@, l, c) ==> !off_board(pos, l, c),
                    forall|c: int| 0 <= c < lc && #[trigger] mask_at(shape@, lr as int, c) ==> !off_board(pos, lr as int, c),
                    forall|b: int| #[trigger] covers(shape@, pos, b) && b / 9 - pr < lr ==> board_indices@.contains(b as usize),
                    forall|b: int| #[trigger] covers(shape@, pos, b) && b / 9 - pr == lr && b % 9 - pc < lc ==> board_indices@.contains(b as usize),
                decreases 5 - lc,
            {
                let shape_ix = lr * 5 + lc;
                let q1 = pr * 9;
                let q2 = lr * 9;
                let q3 = pc;
                let q4 = lc;
                let board_ix = q1 + q2 + q3 + q4;
                if board_ix >= 81 || q3 + q4 >= 9 {
                    assert(off_board(pos, lr as int, lc as int)) by {
                        if q3 + q4 < 9 {
                            assert(board_ix == (pr + lr) * 9 + (pc + lc));
                        }
                    }
                    if Self::row_tail_has_cell(shape, lr, lc) {
                        let ghost k = choose|k: int| lc <= k < 5 && #[trigger] mask_at(shape@, lr as int, k);
                        assert(mask_at(shape@, lr as int, k));
                        assert(off_board(pos, lr as int, k));
                        assert(!fits(shape@, pos));
                        return Err(MoveError::OutOfRange);
                    }
                    proof {
                        assert forall|c: int| 0 <= c < 5 && #[trigger] mask_at(shape@, lr as int, c) implies !off_board(pos, lr as int, c) by {
                            if c >= lc {
                                assert(mask_at(shape@, lr as int, c));
                            }
                        }
                        assert forall|b: int| #[trigger] covers(shape@, pos, b) && b / 9 - pr == lr implies board_indices@.contains(b as usize) by {
                            lemma_cell_join(b);
                            if b % 9 - pc >= lc {
                                assert(mask_at(shape@, lr as int, b % 9 - pc));
                            }
                        }
                    }
                    lc = 5;
                } else {
                    proof {
                        lemma_cell_split(pr + lr, pc + lc);
                    }
                    let ghost before = board_indices@;
                    if shape[shape_ix] {
                        assert(covers(shape@, pos, board_ix as int));
                        board_indices.push(board_ix);
                    }
                    proof {
                        assert forall|x: usize| before.contains(x) implies board_indices@.contains(x) by {
                            let i = choose|i: int| 0 <= i < before.len() && before[i] == x;
                            assert(board_indices@[i] == x);
                        }
                    }
                    proof {
                        assert forall|b: int| #[trigger] covers(shape@, pos, b) && b / 9 - pr == lr && b % 9 - pc < lc + 1 implies board_indices@.contains(b as usize) by {
                            lemma_cell_join(b);
                            if b % 9 - pc == lc {
                                assert(b == board_ix);
                                assert(board_indices@[board_indices.len() - 1] == board_ix);
                            } else {
                                assert(before.contains(b as usize));
                            }
                        }
                    }
                    lc = lc + 1;
                }
            }
            proof {
                assert forall|b: int| #[trigger] covers(shape@, pos, b) && b / 9 - pr < lr + 1 implies board_indices@.contains(b as usize) by {
                    if b / 9 - pr == lr {
                        assert(b % 9 - pc < 5);
                    }
                }
            }
            lr = lr + 1;
        }
        Ok(board_indices)
    }

    /// Places `shape` at `position` on `board`. The move is checked whole
    /// before any cell is written: on failure the board is left as it was.
    pub fn apply_move(board: &mut Vec<bool>, shape: &[bool], position: usize) -> (r: Result<
        (),
        MoveError,
    >)
        requires
            old(board)@.len() == 81,
            shape@.len() == 25,
            position < 81,
        ensures
            r is Ok <==> placement_result(old(board)@, shape@, position as int) is Ok,
            r is Ok ==> final(board)@ == placed(old(board)@, shape@, position as int),
            r is Err ==> r->Err_0 == placement_result(old(board)@, shape@, position as int)->Err_0,
            r is Err ==> final(board)@ == old(board)@,
    {
        let board_indices = match Self::get_impacted_board_indices(shape, position) {
            Ok(v) => v,
            Err(e) => {
                return Err(e);
            },
        };
        let ghost pos = position as int;
        let mut i: usize = 0;
        while i < board_indices.len()
            invariant
                i <= board_indices.len(),
                board@.len() == 81,
                board@ == old(board)@,
                pos == position as int,
                fits(shape@, pos),
                forall|k: int| 0 <= k < board_indices.len() ==> covers(shape@, pos, #[trigger] board_indices@[k] as int),
                forall|k: int| 0 <= k < i ==> !board@[#[trigger] board_indices@[k] as int],
            decreases board_indices.len() - i,
        {
            let board_ix = board_indices[i];
            if board[board_ix] {
                assert(covers(shape@, pos, board_ix as int));
                return Err(MoveError::Overlap);
            }
            i = i + 1;
        }
        assert(free_for(board@, shape@, pos)) by {
            assert forall|b: int| #[trigger] covers(shape@, pos, b) implies !board@[b] by {
                assert(board_indices@.contains(b as usize));
                let k = choose|k: int| 0 <= k < board_indices.len() && board_indices@[k] == b as usize;
                assert(!board@[board_indices@[k] as int]);
            }
        }
        let ghost before = board@;
        let mut i: usize = 0;
        while i < board_indices.len()
            invariant
                i <= board_indices.len(),
                board@.len() == 81,
                before.len() == 81,
                forall|k: int| 0 <= k < board_indices.len() ==> covers(shape@, pos, #[trigger] board_indices@[k] as int),
                forall|b: int| 0 <= b < 81 ==> #[trigger] board@[b] == (before[b] || exists|k: int| 0 <= k < i && board_indices@[k] == b),
            decreases board_indices.len() - i,
        {
            let board_ix = board_indices[i];
            board.set(board_ix, true);
            proof {
                assert forall|b: int| 0 <= b < 81 implies #[trigger] board@[b] == (before[b] || exists|k: int| 0 <= k < i + 1 && board_indices@[k] == b) by {
                    if b == board_ix as int {
                        assert(board_indices@[i as int] == b);
                    }
                }
            }
            i = i + 1;
        }
        proof {
            assert forall|b: int| 0 <= b < 81 implies #[trigger] board@[b] == placed(before, shape@, pos)[b] by {
                if covers(shape@, pos, b) {
                    assert(board_indices@.contains(b as usize));
                    let k = choose|k: int| 0 <= k < board_indices.len() && board_indices@[k] == b as usize;
                    assert(board_indices@[k] == b);
                }
            }
            assert(board@ =~= placed(before, shape@, pos));
        }
        Ok(())
    }
}

} // verus!
