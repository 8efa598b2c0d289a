use vstd::prelude::*;

use rand::seq::IteratorRandom;

use crate::game::{batch_view, Shape, SlotView, Woodoku};

verus! {

/// Number of templates in the catalog.
pub const SHAPES_COUNT: usize = 57;

/// The occupied cells, as indices `row * 5 + column` of a 5x5 mask, of each
/// template of the catalog.
pub open spec fn template_cells(id: usize) -> Seq<usize> {
    match id {
        0 => seq![0],
        1 => seq![0, 1],
        2 => seq![0, 5],
        3 => seq![0, 1, 2],
        4 => seq![0, 5, 10],
        5 => seq![0, 1, 2, 3],
        6 => seq![0, 5, 10, 15],
        7 => seq![0, 1, 2, 3, 4],
        8 => seq![0, 5, 10, 15, 20],
        9 => seq![0, 1, 5, 6],
        10 => seq![0, 1, 5],
        11 => seq![0, 1, 6],
        12 => seq![0, 5, 6],
        13 => seq![1, 5, 6],
        14 => seq![0, 5, 10, 11],
        15 => seq![1, 6, 10, 11],
        16 => seq![0, 1, 6, 11],
        17 => seq![0, 1, 5, 10],
        18 => seq![0, 1, 2, 5],
        19 => seq![0, 1, 2, 7],
        20 => seq![2, 5, 6, 7],
        21 => seq![0, 5, 6, 7],
        22 => seq![0, 1, 2, 6],
        23 => seq![1, 5, 6, 7],
        24 => seq![0, 5, 6, 10],
        25 => seq![1, 5, 6, 11],
        26 => seq![1, 2, 5, 6],
        27 => seq![0, 1, 6, 7],
        28 => seq![0, 5, 6, 11],
        29 => seq![1, 5, 6, 10],
        30 => seq![1, 5, 6, 7, 11],
        31 => seq![0, 1, 2, 5, 10],
        32 => seq![0, 1, 2, 7, 12],
        33 => seq![0, 5, 10, 11, 12],
        34 => seq![2, 7, 10, 11, 12],
        35 => seq![0, 1, 2, 6, 11],
        36 => seq![1, 6, 10, 11, 12],
        37 => seq![0, 5, 6, 7, 10],
        38 => seq![2, 5, 6, 7, 12],
        39 => seq![0, 2, 5, 6, 7],
        40 => seq![0, 1, 2, 5, 7],
        41 => seq![0, 1, 5, 10, 11],
        42 => seq![0, 1, 6, 10, 11],
        43 => seq![0, 6],
        44 => seq![1, 5],
        45 => seq![0, 6, 12],
        46 => seq![2, 6, 10],
        47 => seq![0, 5, 10, 15, 16],
        48 => seq![1, 6, 11, 15, 16],
        49 => seq![0, 1, 5, 10, 15],
        50 => seq![0, 1, 6, 11, 16],
        51 => seq![0, 1, 2, 3, 5],
        52 => seq![0, 1, 2, 3, 8],
        53 => seq![0, 5, 6, 7, 8],
        54 => seq![3, 5, 6, 7, 8],
        55 => seq![0, 1, 2, 5, 6, 7],
        56 => seq![0, 1, 5, 6, 10, 11],
        _ => Seq::empty(),
    }
}

/// The 5x5 mask of template `id`.
pub open spec fn template(id: usize) -> Seq<bool> {
    Seq::new(25, |k: int| template_cells(id).contains(k as usize))
}

/// Number of occupied cells of a mask.
pub open spec fn count_cells(s: Seq<bool>) -> nat
    decreases s.len(),
{
    if s.len() == 0 {
        0
    } else {
        count_cells(s.drop_last()) + if s.last() {
            1nat
        } else {
            0nat
        }
    }
}

/// A freshly dealt batch: three playable slots holding three distinct templates.
pub open spec fn dealt(batch: Seq<Shape>) -> bool {
    &&& batch.len() == 3
    &&& forall|i: int|
        0 <= i < 3 ==> {
            &&& (#[trigger] batch[i]).to_be_placed
            &&& batch[i].id < SHAPES_COUNT
            &&& batch[i].data@ == template(batch[i].id)
        }
    &&& forall|i: int, j: int| 0 <= i < j < 3 ==> batch[i].id != batch[j].id
}

/// A slot once it has been played.
pub open spec fn consumed(s: Shape) -> SlotView {
    SlotView { to_be_placed: false, ..s@ }
}

/// Every slot of the batch other than `ix` has been played.
pub open spec fn others_used(batch: Seq<Shape>, ix: int) -> bool {
    forall|i: int| 0 <= i < batch.len() && i != ix ==> !(#[trigger] batch[i]).to_be_placed
}

/// Relies on rand's `IteratorRandom::choose_multiple`, drawing with the
/// thread-local generator: it returns `min(amount, n)` elements of `0..n`,
/// each element of the range at most once.
#[verifier::external_body]
fn choose_distinct_indices(n: usize, amount: usize) -> (r: Vec<usize>)
    ensures
        r.len() == if amount < n {
            amount
        } else {
            n
        },
        forall|i: int| 0 <= i < r.len() ==> #[trigger] r@[i] < n,
        forall|i: int, j: int| 0 <= i < j < r.len() ==> r@[i] != r@[j],
{
    (0..n).choose_multiple(&mut rand::thread_rng(), amount)
}

impl Shape {
    /// A playable slot holding template `id`, whose mask is `data`.
    pub fn new(id: usize, data: Vec<bool>) -> (r: Self)
        ensures
            r.id == id,
            r.data == data,
            r.to_be_placed,
    {
        Self { id, data, to_be_placed: true }
    }

    /// A copy of the slot, mask included.
    pub fn duplicate(&self) -> (r: Self)
        ensures
            r.id == self.id,
            r.data@ == self.data@,
            r.to_be_placed == self.to_be_placed,
    {
        Self { id: self.id, data: vstd::slice::slice_to_vec(self.data.as_slice()), to_be_placed: self.to_be_placed }
    }

    /// Number of occupied cells of the mask.
    pub fn size(&self) -> (r: usize)
        ensures
            r == count_cells(self.data@),
            r <= self.data@.len(),
    {
        let mut count: usize = 0;
        let mut i: usize = 0;
        while i < self.data.len()
            invariant
                i <= self.data.len(),
                count == count_cells(self.data@.subrange(0, i as int)),
                count <= i,
            decreases self.data.len() - i,
        {
            assert(self.data@.subrange(0, i + 1).drop_last() == self.data@.subrange(0, i as int));
            if self.data[i] {
                count = count + 1;
            }
            i = i + 1;
        }
        assert(self.data@.subrange(0, self.data.len() as int) == self.data@);
        count
    }
}

impl Woodoku {
    /// The occupied cells of template `id`.
    fn template_cell_list(id: usize) -> (r: Vec<usize>)
        requires
            id < SHAPES_COUNT,
        ensures
            r@ == template_cells(id),
            forall|k: int| 0 <= k < r.len() ==> #[trigger] r@[k] < 25,
    {
        match id {
            0 => vec![0],
            1 => vec![0, 1],
            2 => vec![0, 5],
            3 => vec![0, 1, 2],
            4 => vec![0, 5, 10],
            5 => vec![0, 1, 2, 3],
            6 => vec![0, 5, 10, 15],
            7 => vec![0, 1, 2, 3, 4],
            8 => vec![0, 5, 10, 15, 20],
            9 => vec![0, 1, 5, 6],
            10 => vec![0, 1, 5],
            11 => vec![0, 1, 6],
            12 => vec![0, 5, 6],
            13 => vec![1, 5, 6],
            14 => vec![0, 5, 10, 11],
            15 => vec![1, 6, 10, 11],
            16 => vec![0, 1, 6, 11],
            17 => vec![0, 1, 5, 10],
            18 => vec![0, 1, 2, 5],
            19 => vec![0, 1, 2, 7],
            20 => vec![2, 5, 6, 7],
            21 => vec![0, 5, 6, 7],
            22 => vec![0, 1, 2, 6],
            23 => vec![1, 5, 6, 7],
            24 => vec![0, 5, 6, 10],
            25 => vec![1, 5, 6, 11],
            26 => vec![1, 2, 5, 6],
            27 => vec![0, 1, 6, 7],
            28 => vec![0, 5, 6, 11],
            29 => vec![1, 5, 6, 10],
            30 => vec![1, 5, 6, 7, 11],
            31 => vec![0, 1, 2, 5, 10],
            32 => vec![0, 1, 2, 7, 12],
            33 => vec![0, 5, 10, 11, 12],
            34 => vec![2, 7, 10, 11, 12],
            35 => vec![0, 1, 2, 6, 11],
            36 => vec![1, 6, 10, 11, 12],
            37 => vec![0, 5, 6, 7, 10],
            38 => vec![2, 5, 6, 7, 12],
            39 => vec![0, 2, 5, 6, 7],
            40 => vec![0, 1, 2, 5, 7],
            41 => vec![0, 1, 5, 10, 11],
            42 => vec![0, 1, 6, 10, 11],
            43 => vec![0, 6],
            44 => vec![1, 5],
            45 => vec![0, 6, 12],
            46 => vec![2, 6, 10],
            47 => vec![0, 5, 10, 15, 16],
            48 => vec![1, 6, 11, 15, 16],
            49 => vec![0, 1, 5, 10, 15],
            50 => vec![0, 1, 6, 11, 16],
            51 => vec![0, 1, 2, 3, 5],
            52 => vec![0, 1, 2, 3, 8],
            53 => vec![0, 5, 6, 7, 8],
            54 => vec![3, 5, 6, 7, 8],
            55 => vec![0, 1, 2, 5, 6, 7],
            56 => vec![0, 1, 5, 6, 10, 11],
            _ => vec![],
        }
    }

    /// The 5x5 mask whose occupied cells are `cells`.
    fn mask_from_cells(cells: &Vec<usize>) -> (r: Vec<bool>)
        requires
            forall|k: int| 0 <= k < cells.len() ==> #[trigger] cells@[k] < 25,
        ensures
            r@ == Seq::new(25, |k: int| cells@.contains(k as usize)),
    {
        let mut mask: Vec<bool> = Vec::new();
        let mut k: usize = 0;
        while k < 25
            invariant
                k <= 25,
                mask@.len() == k,
                forall|j: int| 0 <= j < k ==> !#[trigger] mask@[j],
            decreases 25 - k,
        {
            mask.push(false);
            k = k + 1;
        }
        let mut i: usize = 0;
        while i < cells.len()
            invariant
                i <= cells.len(),
                mask@.len() == 25,
                forall|k: int| 0 <= k < cells.len() ==> #[trigger] cells@[k] < 25,
                forall|j: int| 0 <= j < 25 ==> #[trigger] mask@[j] == cells@.contains(j as usize) || (exists|k: int| i <= k < cells.len() && cells@[k] == j),
                forall|j: int| 0 <= j < 25 ==> #[trigger] mask@[j] ==> cells@.contains(j as usize),
            decreases cells.len() - i,
        {
            mask.set(cells[i], true);
            i = i + 1;
        }
        proof {
            assert forall|j: int| 0 <= j < 25 implies #[trigger] mask@[j] == cells@.contains(j as usize) by {
                if cells@.contains(j as usize) {
                    let k = choose|k: int| 0 <= k < cells.len() && cells@[k] == j as usize;
                    assert(cells@[k] == j);
                }
            }
            assert(mask@ =~= Seq::new(25, |k: int| cells@.contains(k as usize)));
        }
        mask
    }

    /// The masks of the catalog, in catalog order.
    pub fn get_all_possible_shapes() -> (r: Vec<Vec<bool>>)
        ensures
            r.len() == SHAPES_COUNT,
            forall|id: int| 0 <= id < SHAPES_COUNT ==> (#[trigger] r@[id])@ == template(id as usize),
    {
        let mut shapes: Vec<Vec<bool>> = Vec::new();
        let mut id: usize = 0;
        while id < SHAPES_COUNT
            invariant
                id <= SHAPES_COUNT,
                shapes.len() == id,
                forall|i: int| 0 <= i < id ==> (#[trigger] shapes@[i])@ == template(i as usize),
            decreases SHAPES_COUNT - id,
        {
            let cells = Self::template_cell_list(id);
            shapes.push(Self::mask_from_cells(&cells));
            id = id + 1;
        }
        shapes
    }

    /// Number of templates in the catalog.
    pub fn get_shapes_count() -> (r: usize)
        ensures
            r == SHAPES_COUNT,
    {
        Self::get_all_possible_shapes().len()
    }
    /// A batch holding templates `ids`, in that order, every slot playable.
    pub fn shapes_batch_from_ids(ids: &[usize]) -> (r: Vec<Shape>)
        requires
            forall|i: int| 0 <= i < ids@.len() ==> #[trigger] ids@[i] < SHAPES_COUNT,
        ensures
            r.len() == ids@.len(),
            forall|i: int|
                0 <= i < r.len() ==> {
                    &&& (#[trigger] r@[i]).id == ids@[i]
                    &&& r@[i].data@ == template(ids@[i])
                    &&& r@[i].to_be_placed
                },
    {
        let mut batch: Vec<Shape> = Vec::new();
        let mut i: usize = 0;
        while i < ids.len()
            invariant
                i <= ids@.len(),
                batch.len() == i,
                forall|k: int| 0 <= k < ids@.len() ==> #[trigger] ids@[k] < SHAPES_COUNT,
                forall|k: int|
                    0 <= k < i ==> {
                        &&& (#[trigger] batch@[k]).id == ids@[k]
                        &&& batch@[k].data@ == template(ids@[k])
                        &&& batch@[k].to_be_placed
                    },
            decreases ids@.len() - i,
        {
            let id = ids[i];
            let cells = Self::template_cell_list(id);
            batch.push(Shape::new(id, Self::mask_from_cells(&cells)));
            i = i + 1;
        }
        batch
    }

    /// Deals a new batch: three distinct templates drawn at random from the catalog.
    pub fn get_new_shapes_batch() -> (r: Vec<Shape>)
        ensures
            dealt(r@),
    {
        let ids = choose_distinct_indices(SHAPES_COUNT, Self::SHAPES_BATCH_SIZE);
        Self::shapes_batch_from_ids(ids.as_slice())
    }

    /// Marks slot `used_shape_ix` as played; once every slot is played the
    /// whole batch is replaced by a freshly dealt one.
    pub fn update_shapes_batch(shapes_batch: &mut Vec<Shape>, used_shape_ix: usize)
        requires
            used_shape_ix < old(shapes_batch).len(),
        ensures
            others_used(old(shapes_batch)@, used_shape_ix as int) ==> dealt(final(shapes_batch)@),
            !others_used(old(shapes_batch)@, used_shape_ix as int) ==> batch_view(final(shapes_batch)@)
                == batch_view(old(shapes_batch)@).update(
                used_shape_ix as int,
                consumed(old(shapes_batch)@[used_shape_ix as int]),
            ),
    {
        let ghost before = shapes_batch@;
        let mut shape = shapes_batch.remove(used_shape_ix);
        shape.to_be_placed = false;
        shapes_batch.insert(used_shape_ix, shape);
        assert(shapes_batch@ =~= before.update(
            used_shape_ix as int,
            Shape { to_be_placed: false, ..before[used_shape_ix as int] },
        ));
        let mut all_used = true;
        let mut i: usize = 0;
        while i < shapes_batch.len()
            invariant
                i <= shapes_batch.len(),
                used_shape_ix < before.len(),
                shapes_batch@ == before.update(
                    used_shape_ix as int,
                    Shape { to_be_placed: false, ..before[used_shape_ix as int] },
                ),
                all_used == forall|k: int| 0 <= k < i ==> !(#[trigger] shapes_batch@[k]).to_be_placed,
            decreases shapes_batch.len() - i,
        {
            if shapes_batch[i].to_be_placed {
                all_used = false;
            }
            i = i + 1;
        }
        if all_used {
            assert(others_used(before, used_shape_ix as int)) by {
                assert forall|k: int| 0 <= k < before.len() && k != used_shape_ix implies !(#[trigger] before[k]).to_be_placed by {
                    assert(shapes_batch@[k] == before[k]);
                }
            }
            *shapes_batch = Self::get_new_shapes_batch();
        } else {
            assert(batch_view(shapes_batch@) =~= batch_view(before).update(
                used_shape_ix as int,
                consumed(before[used_shape_ix as int]),
            ));
            assert(!others_used(before, used_shape_ix as int)) by {
                let k = choose|k: int| 0 <= k < shapes_batch.len() && (#[trigger] shapes_batch@[k]).to_be_placed;
                assert(k != used_shape_ix);
                assert(before[k].to_be_placed);
            }
        }
    }
}

} // verus!
