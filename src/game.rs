use vstd::prelude::*;

use crate::batch::{consumed, count_cells, dealt, others_used, template};
use crate::clearing::{cleared, sets_cleared};
use crate::error::MoveError;
use crate::placement::{can_place, placement_result};

verus! {

/// One slot of the batch of shapes offered to the player.
#[derive(Clone, Debug, PartialEq)]
pub struct Shape {
    /// Index of the template in the catalog.
    pub id: usize,
    /// The 5x5 mask of the shape, row-major.
    pub data: Vec<bool>,
    /// Whether the slot can still be played.
    pub to_be_placed: bool,
}

/// What a slot holds, as mathematical values.
pub struct SlotView {
    pub id: usize,
    pub mask: Seq<bool>,
    pub to_be_placed: bool,
}

impl View for Shape {
    type V = SlotView;

    open spec fn view(&self) -> SlotView {
        SlotView { id: self.id, mask: self.data@, to_be_placed: self.to_be_placed }
    }
}

/// The batch as mathematical values.
pub open spec fn batch_view(batch: Seq<Shape>) -> Seq<SlotView> {
    batch.map_values(|s: Shape| s@)
}

/// A snapshot of a game.
#[derive(Clone, Debug)]
pub struct Woodoku {
    pub score: usize,
    /// The 81 cells of the board, row-major.
    pub board: Vec<bool>,
    /// The three shapes offered to the player.
    pub shapes_batch: Vec<Shape>,
    pub game_over: bool,
    /// Number of consecutive moves, up to the last one, that cleared a set.
    pub clear_streak: usize,
}

impl Woodoku {
    pub const BOARD_SIZE: usize = 81;
    pub const BOARD_SIDE_SIZE: usize = 9;
    pub const GRID_SIDE_SIZE: usize = 3;
    pub const SHAPES_BATCH_SIZE: usize = 3;
    pub const SHAPE_SIZE: usize = 25;
    pub const SHAPE_SIDE_SIZE: usize = 5;
}

impl Default for Woodoku {
    fn default() -> (r: Self)
        ensures
            r.wf(),
            r.board@ == Seq::new(81, |b: int| false),
            dealt(r.shapes_batch@),
            r.score == 0,
            r.clear_streak == 0,
            !r.game_over,
    {
        Self::new()
    }
}

/// Every playable slot holds a 5x5 mask.
pub open spec fn masks_ok(batch: Seq<Shape>) -> bool {
    forall|i: int| 0 <= i < batch.len() && (#[trigger] batch[i]).to_be_placed ==> batch[i].data@.len() == 25
}

/// The slot is playable and its shape fits somewhere on the board.
pub open spec fn placeable(board: Seq<bool>, shape: Shape) -> bool {
    shape.to_be_placed && exists|p: int| 0 <= p < 81 && #[trigger] can_place(board, shape.data@, p)
}

/// No slot of the batch can be played anywhere on the board.
pub open spec fn no_move_left(board: Seq<bool>, batch: Seq<Shape>) -> bool {
    forall|i: int| 0 <= i < batch.len() ==> !placeable(board, #[trigger] batch[i])
}

/// The streak after a move that cleared `sets` sets.
pub open spec fn streak_after(streak: nat, sets: nat) -> nat {
    if sets > 0 {
        streak + 1
    } else {
        0
    }
}

/// Points earned by a move: the shape's size, 18 per cleared set, 10 per set
/// beyond the first, and 10 per streak step beyond the first.
pub open spec fn score_gain(size: nat, sets: nat, new_streak: nat) -> nat {
    size + 18 * sets + 10 * (if sets > 0 {
        (sets - 1) as nat
    } else {
        0
    }) + 10 * (if new_streak > 0 {
        (new_streak - 1) as nat
    } else {
        0
    })
}

/// A preview depends on the board and on the chosen slot alone: two games
/// that agree on them give the same preview, so repeating a preview on an
/// unchanged game always gives the same answer.
pub proof fn lemma_preview_depends_only_on_board_and_slot(
    a: Woodoku,
    b: Woodoku,
    shape_ix: int,
    position: int,
)
    requires
        0 <= shape_ix < 3,
        a.wf(),
        b.wf(),
        a.board@ == b.board@,
        a.shapes_batch@[shape_ix]@ == b.shapes_batch@[shape_ix]@,
    ensures
        a.preview_result(shape_ix, position) == b.preview_result(shape_ix, position),
{
    assert(a.shapes_batch@[shape_ix].to_be_placed == b.shapes_batch@[shape_ix].to_be_placed);
    assert(a.shapes_batch@[shape_ix].data@ == b.shapes_batch@[shape_ix].data@);
}

/// Once no slot fits anywhere, every move is refused: a game that is over
/// stays over.
pub proof fn lemma_no_move_after_game_over(w: Woodoku, shape_ix: int, position: int)
    requires
        w.wf(),
        no_move_left(w.board@, w.shapes_batch@),
        0 <= shape_ix < 3,
        0 <= position < 81,
    ensures
        w.preview_result(shape_ix, position) is Err,
{
    assert(!placeable(w.board@, w.shapes_batch@[shape_ix]));
    if w.shapes_batch@[shape_ix].to_be_placed {
        assert(!can_place(w.board@, w.shapes_batch@[shape_ix].data@, position));
    }
}

impl Woodoku {
    /// The board has 81 cells, the batch three slots, and each playable slot a 5x5 mask.
    pub open spec fn wf(&self) -> bool {
        &&& self.board@.len() == 81
        &&& self.shapes_batch@.len() == 3
        &&& masks_ok(self.shapes_batch@)
    }

    /// The score has room for the points of one more move.
    pub open spec fn score_has_room(&self) -> bool {
        self.score + 10 * self.clear_streak + 800 <= usize::MAX
    }

    /// What a preview of slot `shape_ix` at `position` gives.
    pub open spec fn preview_result(&self, shape_ix: int, position: int) -> Result<Seq<bool>, MoveError> {
        if !self.shapes_batch@[shape_ix].to_be_placed {
            Err(MoveError::ShapeAlreadyUsed)
        } else {
            placement_result(self.board@, self.shapes_batch@[shape_ix].data@, position)
        }
    }

    /// The move engine's result: the board after placement, clearing excluded.
    pub open spec fn placed_board(&self, shape_ix: int, position: int) -> Seq<bool> {
        self.preview_result(shape_ix, position)->Ok_0
    }

    /// What a successful move of slot `shape_ix` at `position` leads to.
    pub open spec fn move_outcome(&self, shape_ix: int, position: int, next: Woodoku) -> bool {
        let placed = self.placed_board(shape_ix, position);
        let sets = sets_cleared(placed);
        let shape = self.shapes_batch@[shape_ix];
        &&& next.wf()
        &&& next.board@ == cleared(placed)
        &&& next.clear_streak == streak_after(self.clear_streak as nat, sets)
        &&& next.score == self.score + score_gain(count_cells(shape.data@), sets, next.clear_streak as nat)
        &&& others_used(self.shapes_batch@, shape_ix) ==> dealt(next.shapes_batch@)
        &&& !others_used(self.shapes_batch@, shape_ix) ==> batch_view(next.shapes_batch@) == batch_view(
            self.shapes_batch@,
        ).update(shape_ix, consumed(shape))
        &&& next.game_over == no_move_left(next.board@, next.shapes_batch@)
    }

    /// A new game: empty board, freshly dealt batch, no score.
    pub fn new() -> (r: Self)
        ensures
            r.wf(),
            r.board@ == Seq::new(81, |b: int| false),
            dealt(r.shapes_batch@),
            r.score == 0,
            r.clear_streak == 0,
            !r.game_over,
    {
        let mut board: Vec<bool> = Vec::new();
        let mut i: usize = 0;
        while i < Self::BOARD_SIZE
            invariant
                i <= 81,
                board@ == Seq::new(i as nat, |b: int| false),
            decreases 81 - i,
        {
            board.push(false);
            assert(board@ =~= Seq::new((i + 1) as nat, |b: int| false));
            i = i + 1;
        }
        Self {
            score: 0,
            board,
            shapes_batch: Self::get_new_shapes_batch(),
            game_over: false,
            clear_streak: 0,
        }
    }

    /// The slot `shape_ix`, unless it has already been played.
    fn get_shape_if_not_used(&self, shape_ix: usize) -> (r: Option<&Shape>)
        requires
            shape_ix < self.shapes_batch@.len(),
        ensures
            r is Some <==> self.shapes_batch@[shape_ix as int].to_be_placed,
            r matches Some(s) ==> *s == self.shapes_batch@[shape_ix as int],
    {
        let shape = &self.shapes_batch[shape_ix];
        if shape.to_be_placed {
            Some(shape)
        } else {
            None
        }
    }

    /// The new streak and score after slot `shape_ix` was played and
    /// `number_of_cleared_sets` sets were cleared.
    fn update_score(&self, number_of_cleared_sets: usize, shape_ix: usize) -> (r: (usize, usize))
        requires
            self.wf(),
            self.score_has_room(),
            shape_ix < 3,
            self.shapes_batch@[shape_ix as int].to_be_placed,
            number_of_cleared_sets <= 27,
        ensures
            r.0 == streak_after(self.clear_streak as nat, number_of_cleared_sets as nat),
            r.1 == self.score + score_gain(
                count_cells(self.shapes_batch@[shape_ix as int].data@),
                number_of_cleared_sets as nat,
                r.0 as nat,
            ),
    {
        let clear_streak = if number_of_cleared_sets > 0 {
            self.clear_streak + 1
        } else {
            0
        };
        let size_bonus = self.shapes_batch[shape_ix].size();
        let clear_bonus = 18 * number_of_cleared_sets;
        let combo_bonus = 10 * number_of_cleared_sets.saturating_sub(1);
        let streak_bonus = 10 * clear_streak.saturating_sub(1);
        let score = self.score + size_bonus + clear_bonus + combo_bonus + streak_bonus;
        (clear_streak, score)
    }
    /// For each slot of the batch, whether it is playable and its shape fits
    /// somewhere on `board`.
    pub fn get_placeable_shapes(board: &[bool], shapes_batch: &[Shape]) -> (r: Vec<bool>)
        requires
            board@.len() == 81,
            masks_ok(shapes_batch@),
        ensures
            r.len() == shapes_batch@.len(),
            forall|i: int| 0 <= i < r.len() ==> r@[i] == placeable(board@, #[trigger] shapes_batch@[i]),
    {
        let mut placeable_shapes: Vec<bool> = Vec::new();
        let mut i: usize = 0;
        while i < shapes_batch.len()
            invariant
                i <= shapes_batch@.len(),
                board@.len() == 81,
                masks_ok(shapes_batch@),
                placeable_shapes.len() == i,
                forall|k: int| 0 <= k < i ==> placeable_shapes@[k] == placeable(board@, #[trigger] shapes_batch@[k]),
            decreases shapes_batch@.len() - i,
        {
            let shape = &shapes_batch[i];
            let mut shape_can_be_placed = false;
            if shape.to_be_placed {
                assert(shape.data@.len() == 25);
                let mut board_ix: usize = 0;
                while !shape_can_be_placed && board_ix < Self::BOARD_SIZE
                    invariant
                        board_ix <= 81,
                        board@.len() == 81,
                        shape.data@.len() == 25,
                        shape_can_be_placed == exists|p: int| 0 <= p < board_ix && #[trigger] can_place(board@, shape.data@, p),
                    decreases 81 - board_ix,
                {
                    let mut trial = vstd::slice::slice_to_vec(board);
                    if Self::apply_move(&mut trial, shape.data.as_slice(), board_ix).is_ok() {
                        assert(can_place(board@, shape.data@, board_ix as int));
                        shape_can_be_placed = true;
                    }
                    board_ix = board_ix + 1;
                }
            }
            placeable_shapes.push(shape_can_be_placed);
            i = i + 1;
        }
        placeable_shapes
    }

    /// Whether no slot of the batch can be played anywhere on `board`.
    pub fn is_game_over(board: &[bool], shapes_batch: &[Shape]) -> (r: bool)
        requires
            board@.len() == 81,
            masks_ok(shapes_batch@),
        ensures
            r == no_move_left(board@, shapes_batch@),
    {
        let placeable_shapes = Self::get_placeable_shapes(board, shapes_batch);
        let mut i: usize = 0;
        while i < placeable_shapes.len()
            invariant
                i <= placeable_shapes.len(),
                placeable_shapes.len() == shapes_batch@.len(),
                forall|k: int| 0 <= k < placeable_shapes.len() ==> placeable_shapes@[k] == placeable(board@, #[trigger] shapes_batch@[k]),
                forall|k: int| 0 <= k < i ==> !placeable(board@, #[trigger] shapes_batch@[k]),
            decreases placeable_shapes.len() - i,
        {
            if placeable_shapes[i] {
                assert(placeable(board@, shapes_batch@[i as int]));
                return false;
            }
            i = i + 1;
        }
        true
    }

    /// The board that playing slot `shape_ix` at `position` would give, before
    /// any clearing; the game itself is left as it is.
    pub fn move_preview(&self, shape_ix: usize, position: usize) -> (r: Result<Vec<bool>, MoveError>)
        requires
            self.wf(),
            shape_ix < 3,
            position < 81,
        ensures
            r is Ok <==> self.preview_result(shape_ix as int, position as int) is Ok,
            r matches Ok(b) ==> b@ == self.preview_result(shape_ix as int, position as int)->Ok_0,
            r matches Err(e) ==> e == self.preview_result(shape_ix as int, position as int)->Err_0,
    {
        let shape = match self.get_shape_if_not_used(shape_ix) {
            Some(s) => s,
            None => {
                return Err(MoveError::ShapeAlreadyUsed);
            },
        };
        let mut board = vstd::slice::slice_to_vec(self.board.as_slice());
        match Self::apply_move(&mut board, shape.data.as_slice(), position) {
            Ok(()) => Ok(board),
            Err(e) => Err(e),
        }
    }

    /// Plays slot `shape_ix` at `position` and returns the next game: the
    /// shape is placed, full rows, columns and grids are cleared, the score
    /// and streak are updated, the slot is spent (the batch is dealt anew
    /// once all three are), and the end of the game is detected. A refused
    /// move returns why and leaves nothing changed.
    pub fn play_move(&self, shape_ix: usize, position: usize) -> (r: Result<Self, MoveError>)
        requires
            self.wf(),
            self.score_has_room(),
            shape_ix < 3,
            position < 81,
        ensures
            r is Ok <==> self.preview_result(shape_ix as int, position as int) is Ok,
            r matches Err(e) ==> e == self.preview_result(shape_ix as int, position as int)->Err_0,
            r matches Ok(next) ==> self.move_outcome(shape_ix as int, position as int, next),
    {
        let shape = match self.get_shape_if_not_used(shape_ix) {
            Some(s) => s,
            None => {
                return Err(MoveError::ShapeAlreadyUsed);
            },
        };
        let mut board = vstd::slice::slice_to_vec(self.board.as_slice());
        match Self::apply_move(&mut board, shape.data.as_slice(), position) {
            Ok(()) => {},
            Err(e) => {
                return Err(e);
            },
        }
        let number_of_cleared_sets = Self::clear_indices(&mut board);
        let (clear_streak, score) = self.update_score(number_of_cleared_sets, shape_ix);
        let mut shapes_batch: Vec<Shape> = Vec::new();
        let mut i: usize = 0;
        while i < self.shapes_batch.len()
            invariant
                i <= self.shapes_batch@.len(),
                shapes_batch@.len() == i,
                forall|k: int| 0 <= k < i ==> (#[trigger] shapes_batch@[k])@ == self.shapes_batch@[k]@,
            decreases self.shapes_batch@.len() - i,
        {
            shapes_batch.push(self.shapes_batch[i].duplicate());
            i = i + 1;
        }
        let ghost copied = shapes_batch@;
        assert(batch_view(copied) =~= batch_view(self.shapes_batch@));
        assert(others_used(copied, shape_ix as int) == others_used(self.shapes_batch@, shape_ix as int)) by {
            assert forall|k: int| 0 <= k < 3 implies (#[trigger] copied[k]).to_be_placed == self.shapes_batch@[k].to_be_placed by {
                assert(copied[k]@ == self.shapes_batch@[k]@);
            }
            assert forall|k: int| 0 <= k < 3 implies copied[k].to_be_placed == (#[trigger] self.shapes_batch@[k]).to_be_placed by {
                assert(copied[k]@ == self.shapes_batch@[k]@);
            }
        }
        Self::update_shapes_batch(&mut shapes_batch, shape_ix);
        assert(masks_ok(shapes_batch@)) by {
            if others_used(self.shapes_batch@, shape_ix as int) {
                assert forall|k: int| 0 <= k < shapes_batch@.len() && (#[trigger] shapes_batch@[k]).to_be_placed implies shapes_batch@[k].data@.len() == 25 by {
                    assert(shapes_batch@[k].data@ == template(shapes_batch@[k].id));
                }
            } else {
                assert(shapes_batch@.len() == batch_view(shapes_batch@).len());
                assert forall|k: int| 0 <= k < shapes_batch@.len() && (#[trigger] shapes_batch@[k]).to_be_placed implies shapes_batch@[k].data@.len() == 25 by {
                    assert(batch_view(shapes_batch@)[k] == batch_view(copied).update(shape_ix as int, consumed(copied[shape_ix as int]))[k]);
                    assert(batch_view(copied)[k] == batch_view(self.shapes_batch@)[k]);
                    assert(batch_view(self.shapes_batch@)[k] == self.shapes_batch@[k]@);
                }
            }
        }
        let game_over = Self::is_game_over(board.as_slice(), shapes_batch.as_slice());
        Ok(Self { score, board, shapes_batch, game_over, clear_streak })
    }
}

} // verus!
