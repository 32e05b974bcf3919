//! The columnar batch model: immutable blocks of typed columns with a
//! uniform row count.

use vstd::prelude::*;

use crate::kind::{CellValue, ElementKind};

verus! {

/// One column of a batch: the element kind of its cells and the cells
/// themselves, one per row.
#[derive(Debug, Clone)]
pub struct Column {
    pub kind: ElementKind,
    pub cells: Vec<CellValue>,
}

impl Column {
    /// Well-formedness: every cell is admissible for the column's kind.
    pub open spec fn wf(self) -> bool {
        forall|i: int| 0 <= i < self.cells@.len() ==> self.kind.admits(#[trigger] self.cells@[i])
    }
}

/// An immutable block of columnar data: an ordered sequence of columns that
/// all hold exactly `row_count` cells.
#[derive(Debug, Clone)]
pub struct Batch {
    pub row_count: usize,
    pub columns: Vec<Column>,
}

impl Batch {
    /// Well-formedness: every column holds `row_count` admissible cells.
    pub open spec fn wf(self) -> bool {
        forall|j: int|
            0 <= j < self.columns@.len() ==> (#[trigger] self.columns@[j]).cells@.len()
                == self.row_count && self.columns@[j].wf()
    }

    /// The batch's logical rows: row `i` is the sequence of the columns'
    /// cells at position `i`, in column order.
    pub open spec fn cell_rows(self) -> Seq<Seq<CellValue>> {
        Seq::new(
            self.row_count as nat,
            |i: int| Seq::new(self.columns@.len(), |j: int| self.columns@[j].cells@[i]),
        )
    }

    /// The number of rows.
    pub fn num_rows(&self) -> (n: usize)
        ensures
            n == self.row_count,
    {
        self.row_count
    }

    /// The number of columns.
    pub fn num_columns(&self) -> (n: usize)
        ensures
            n == self.columns@.len(),
    {
        self.columns.len()
    }
}

/// The logical rows of a sequence of batches, in source order.
pub open spec fn batches_cell_rows(batches: Seq<Batch>) -> Seq<Seq<CellValue>>
    decreases batches.len(),
{
    if batches.len() == 0 {
        Seq::empty()
    } else {
        batches_cell_rows(batches.drop_last()) + batches.last().cell_rows()
    }
}

/// Logical rows distribute over concatenation of batch sequences.
pub proof fn lemma_batches_cell_rows_concat(a: Seq<Batch>, b: Seq<Batch>)
    ensures
        batches_cell_rows(a + b) == batches_cell_rows(a) + batches_cell_rows(b),
    decreases b.len(),
{
    if b.len() == 0 {
        assert(a + b =~= a);
        assert(batches_cell_rows(a) + batches_cell_rows(b) =~= batches_cell_rows(a));
    } else {
        lemma_batches_cell_rows_concat(a, b.drop_last());
        assert((a + b).drop_last() =~= a + b.drop_last());
        assert((a + b).last() == b.last());
        assert(batches_cell_rows(a) + batches_cell_rows(b.drop_last()) + b.last().cell_rows()
            =~= batches_cell_rows(a) + batches_cell_rows(b));
    }
}

/// Batches of at most `batch_size` rows each yield at most `len *
/// batch_size` rows in all.
pub proof fn lemma_batches_cell_rows_len_le(batches: Seq<Batch>, batch_size: nat)
    requires
        forall|i: int|
            0 <= i < batches.len() ==> (#[trigger] batches[i]).row_count <= batch_size,
    ensures
        batches_cell_rows(batches).len() <= batches.len() * batch_size,
    decreases batches.len(),
{
    if batches.len() > 0 {
        lemma_batches_cell_rows_len_le(batches.drop_last(), batch_size);
        assert((batches.len() - 1) * batch_size + batch_size == batches.len() * batch_size)
            by (nonlinear_arith);
    }
}

/// Batches of exactly `batch_size` rows each yield exactly `len *
/// batch_size` rows in all.
pub proof fn lemma_batches_cell_rows_len_exact(batches: Seq<Batch>, batch_size: nat)
    requires
        forall|i: int|
            0 <= i < batches.len() ==> (#[trigger] batches[i]).row_count == batch_size,
    ensures
        batches_cell_rows(batches).len() == batches.len() * batch_size,
    decreases batches.len(),
{
    if batches.len() > 0 {
        lemma_batches_cell_rows_len_exact(batches.drop_last(), batch_size);
        assert((batches.len() - 1) * batch_size + batch_size == batches.len() * batch_size)
            by (nonlinear_arith);
    }
}

/// Consuming one more batch appends exactly its rows.
pub proof fn lemma_batches_cell_rows_take_step(batches: Seq<Batch>, m: int)
    requires
        0 <= m < batches.len(),
    ensures
        batches_cell_rows(batches.take(m + 1)) == batches_cell_rows(batches.take(m))
            + batches[m].cell_rows(),
{
    assert(batches.take(m + 1).drop_last() =~= batches.take(m));
    assert(batches.take(m + 1).last() == batches[m]);
}

/// A prefix of the batches holds no more rows than all of them.
pub proof fn lemma_batches_cell_rows_prefix_len(batches: Seq<Batch>, m: int)
    requires
        0 <= m <= batches.len(),
    ensures
        batches_cell_rows(batches.take(m)).len() <= batches_cell_rows(batches).len(),
    decreases batches.len() - m,
{
    if m == batches.len() {
        assert(batches.take(m) =~= batches);
    } else {
        lemma_batches_cell_rows_take_step(batches, m);
        lemma_batches_cell_rows_prefix_len(batches, m + 1);
    }
}

} // verus!
