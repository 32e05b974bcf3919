//! The batched row stream: drives the projector, planner and formatter over
//! a sequence of batches, emitting fully formatted rows incrementally while
//! enforcing the window bounds.

use std::collections::VecDeque;

use vstd::prelude::*;
use vstd::string::StringExecFns;

use crate::batch::{
    batches_cell_rows, lemma_batches_cell_rows_concat, lemma_batches_cell_rows_len_exact,
    lemma_batches_cell_rows_len_le, lemma_batches_cell_rows_prefix_len,
    lemma_batches_cell_rows_take_step, Batch,
};
use crate::format::{format_value, value_text};
use crate::kind::CellValue;
use crate::projection::ColumnSelection;
use crate::window::{lemma_window_slice, window_of, BatchPlan, StreamPlan};

verus! {

/// The projected, formatted text of one logical cell row: the cells at the
/// retained positions, in selection order, each as its display text.
pub open spec fn row_text(row: Seq<CellValue>, indices: Seq<usize>) -> Seq<Seq<char>> {
    Seq::new(indices.len() as nat, |k: int| value_text(row[indices[k] as int]))
}

/// The projected, formatted text of a sequence of logical cell rows.
pub open spec fn rows_text(rows: Seq<Seq<CellValue>>, indices: Seq<usize>) -> Seq<
    Seq<Seq<char>>,
> {
    Seq::new(rows.len() as nat, |i: int| row_text(rows[i], indices))
}

/// Everything a run over `batches` emits: the logical rows of the batches
/// in source order, projected and formatted, windowed by the plan.
pub open spec fn stream_output(
    batches: Seq<Batch>,
    indices: Seq<usize>,
    plan: StreamPlan,
) -> Seq<Seq<Seq<char>>> {
    window_of(rows_text(batches_cell_rows(batches), indices), plan)
}

/// Batch-boundary transparency: two ways of splitting the same logical row
/// sequence into batches — all in one batch, many small batches, or any
/// other arrangement — produce the same windowed, projected, formatted
/// output.
pub proof fn lemma_rebatching(
    batches1: Seq<Batch>,
    batches2: Seq<Batch>,
    indices: Seq<usize>,
    plan: StreamPlan,
)
    requires
        batches_cell_rows(batches1) == batches_cell_rows(batches2),
    ensures
        stream_output(batches1, indices, plan) == stream_output(batches2, indices, plan),
{
}

/// Formatted text distributes over concatenation of row sequences.
pub proof fn lemma_rows_text_concat(
    a: Seq<Seq<CellValue>>,
    b: Seq<Seq<CellValue>>,
    indices: Seq<usize>,
)
    ensures
        rows_text(a + b, indices) == rows_text(a, indices) + rows_text(b, indices),
{
    assert(rows_text(a + b, indices) =~= rows_text(a, indices) + rows_text(b, indices));
}

/// How one more row moves through a window: a bounded window lets it
/// through exactly when its logical position lies inside `[skip, skip +
/// take)`, a full scan always lets it through, and trailing retention
/// appends it, evicting the oldest retained row when full.
pub proof fn lemma_window_push<T>(rows: Seq<T>, r: T, plan: StreamPlan)
    ensures
        match plan {
            StreamPlan::Bounded { skip, take } => window_of(rows.push(r), plan) == if skip
                <= rows.len() && rows.len() < skip + take {
                window_of(rows, plan).push(r)
            } else {
                window_of(rows, plan)
            },
            StreamPlan::Exhaust => window_of(rows.push(r), plan) == rows.push(r),
            StreamPlan::TailRetain { keep } => window_of(rows.push(r), plan) == if keep == 0 {
                Seq::<T>::empty()
            } else if window_of(rows, plan).len() < keep {
                window_of(rows, plan).push(r)
            } else {
                window_of(rows, plan).drop_first().push(r)
            },
        },
{
    match plan {
        StreamPlan::Bounded { skip, take } => {
            if skip <= rows.len() && rows.len() < skip + take {
                assert(window_of(rows.push(r), plan) =~= window_of(rows, plan).push(r));
            } else {
                assert(window_of(rows.push(r), plan) =~= window_of(rows, plan));
            }
        },
        StreamPlan::Exhaust => {},
        StreamPlan::TailRetain { keep } => {
            if keep == 0 {
                assert(window_of(rows.push(r), plan) =~= Seq::<T>::empty());
            } else if window_of(rows, plan).len() < keep {
                assert(window_of(rows.push(r), plan) =~= window_of(rows, plan).push(r));
            } else {
                assert(window_of(rows.push(r), plan) =~= window_of(rows, plan).drop_first().push(
                    r,
                ));
            }
        },
    }
}

/// The error a run fails with: a retained column whose element kind has no
/// formatter, reported with the column's name and the kind's name.
#[derive(Debug, Clone)]
pub enum FormatError {
    UnsupportedType { column: String, kind: String },
}

impl FormatError {
    /// The name of the offending column.
    pub open spec fn spec_column(self) -> Seq<char> {
        match self {
            FormatError::UnsupportedType { column, .. } => column@,
        }
    }

    /// The name of the unsupported element kind.
    pub open spec fn spec_kind(self) -> Seq<char> {
        match self {
            FormatError::UnsupportedType { kind, .. } => kind@,
        }
    }

    /// A human-readable description of the failure.
    pub fn message(&self) -> (r: String)
        ensures
            r@ == "unsupported element kind "@ + self.spec_kind() + " in column "@
                + self.spec_column(),
    {
        match self {
            FormatError::UnsupportedType { column, kind } => {
                let mut s = String::from_str("unsupported element kind ");
                s.append(kind.as_str());
                s.append(" in column ");
                s.append(column.as_str());
                s
            },
        }
    }
}

/// Whether every retained column of the batch has a supported element kind.
pub open spec fn selection_supported(b: Batch, indices: Seq<usize>) -> bool {
    forall|k: int|
        0 <= k < indices.len() ==> (#[trigger] b.columns@[indices[k] as int]).kind.spec_supported()
}

/// Whether `e` reports the first retained column of `b` (in selection
/// order) whose kind is unsupported, by that column's name and kind name.
pub open spec fn reports_first_unsupported(
    b: Batch,
    indices: Seq<usize>,
    names: Seq<String>,
    e: FormatError,
) -> bool {
    exists|k: int|
        {
            &&& 0 <= k < indices.len()
            &&& !(#[trigger] b.columns@[indices[k] as int]).kind.spec_supported()
            &&& forall|k2: int|
                0 <= k2 < k ==> (#[trigger] b.columns@[indices[k2] as int]).kind.spec_supported()
            &&& e.spec_column() == names[k]@
            &&& e.spec_kind() == b.columns@[indices[k] as int].kind.spec_kind_name()
        }
}

/// The deep view of a sequence of formatted rows.
pub open spec fn rows_view(rows: Seq<Vec<String>>) -> Seq<Seq<Seq<char>>> {
    Seq::new(rows.len() as nat, |i: int| rows[i].deep_view())
}

/// Builds one output row: the cells of row `i` at the retained positions,
/// in selection order, each formatted as display text.
#[verifier::loop_isolation(false)]
fn build_row(batch: &Batch, indices: &Vec<usize>, i: usize) -> (row: Vec<String>)
    requires
        batch.wf(),
        i < batch.row_count,
        forall|k: int| 0 <= k < indices@.len() ==> #[trigger] indices@[k] < batch.columns@.len(),
    ensures
        row.deep_view() == row_text(batch.cell_rows()[i as int], indices@),
{
    let mut row: Vec<String> = Vec::new();
    let mut k: usize = 0;
    while k < indices.len()
        invariant
            k <= indices@.len(),
            row.deep_view() == row_text(batch.cell_rows()[i as int], indices@.take(k as int)),
        decreases indices@.len() - k,
    {
        let j = indices[k];
        let ghost prev = row.deep_view();
        row.push(format_value(&batch.columns[j].cells[i]));
        proof {
            let r = batch.cell_rows()[i as int];
            assert(r[j as int] == batch.columns@[j as int].cells@[i as int]);
            assert(row@.len() == k + 1);
            assert forall|idx: int| 0 <= idx < k + 1 implies row.deep_view()[idx] == row_text(
                r,
                indices@.take(k + 1),
            )[idx] by {
                if idx < k {
                    assert(row.deep_view()[idx] == prev[idx]);
                    assert(prev[idx] == row_text(r, indices@.take(k as int))[idx]);
                } else {
                    assert(row.deep_view()[idx] == value_text(r[j as int]));
                }
            }
            assert(row.deep_view() =~= row_text(r, indices@.take(k + 1)));
        }
        k += 1;
    }
    proof {
        assert(indices@.take(indices@.len() as int) =~= indices@);
    }
    row
}

/// A single run's row stream: fed batches one at a time in source order, it
/// emits the windowed, projected, formatted rows incrementally.
///
/// The ghost field `hist` records the text of every logical row seen so
/// far, and `out` the text of every row emitted so far; well-formedness
/// ties the two together through the plan's window.
pub struct RowStream {
    pub selection: ColumnSelection,
    pub plan: StreamPlan,
    /// Logical rows consumed from the source so far.
    pub consumed: usize,
    /// The retained trailing rows, oldest first (trailing-retention plans
    /// only): a bounded FIFO that never holds more than `keep` rows.
    pub tail: VecDeque<Vec<String>>,
    /// Whether the stream has aborted on an unsupported column.
    pub failed: bool,
    pub hist: Ghost<Seq<Seq<Seq<char>>>>,
    pub out: Ghost<Seq<Seq<Seq<char>>>>,
}

impl RowStream {
    /// Well-formedness: the rows emitted so far are exactly the plan's
    /// window of the rows seen so far; under trailing retention nothing is
    /// emitted early and the FIFO holds exactly the window, never more than
    /// `keep` rows.
    pub open spec fn wf(self) -> bool {
        &&& self.selection.names@.len() == self.selection.indices@.len()
        &&& self.consumed == self.hist@.len()
        &&& match self.plan {
            StreamPlan::Bounded { .. } => self.out@ == window_of(self.hist@, self.plan)
                && self.tail@.len() == 0,
            StreamPlan::Exhaust => self.out@ == self.hist@ && self.tail@.len() == 0,
            StreamPlan::TailRetain { keep } => {
                &&& self.out@ == Seq::<Seq<Seq<char>>>::empty()
                &&& rows_view(self.tail@) == window_of(self.hist@, self.plan)
                &&& self.tail@.len() <= keep
            },
        }
    }

    /// Starts a run with a resolved column selection and streaming plan.
    pub fn new(selection: ColumnSelection, plan: StreamPlan) -> (s: RowStream)
        requires
            selection.names@.len() == selection.indices@.len(),
        ensures
            s.wf(),
            !s.failed,
            s.selection == selection,
            s.plan == plan,
            s.hist@ == Seq::<Seq<Seq<char>>>::empty(),
            s.out@ == Seq::<Seq<Seq<char>>>::empty(),
    {
        let s = RowStream {
            selection,
            plan,
            consumed: 0,
            tail: VecDeque::new(),
            failed: false,
            hist: Ghost(Seq::empty()),
            out: Ghost(Seq::empty()),
        };
        proof {
            assert(rows_view(s.tail@) =~= window_of(s.hist@, s.plan));
            assert(window_of(s.hist@, s.plan) =~= Seq::<Seq<Seq<char>>>::empty());
        }
        s
    }

    /// Feeds the stream the next batch from the source.
    ///
    /// Before any row of the batch is touched, every retained column's kind
    /// is checked once (formatter construction): a batch with one
    /// unsupported retained column fails whole — the stream aborts with the
    /// first offending column's name and kind, and no row of the batch is
    /// emitted or retained. Otherwise the batch's rows run through the
    /// window: the rows the plan emits now come back in order, and under
    /// trailing retention nothing comes back yet — the trailing FIFO is
    /// updated instead, never growing past `keep` rows.
    #[verifier::loop_isolation(false)]
    pub fn accept_batch(&mut self, batch: &Batch) -> (r: Result<Vec<Vec<String>>, FormatError>)
        requires
            old(self).wf(),
            !old(self).failed,
            batch.wf(),
            forall|k: int|
                0 <= k < old(self).selection.indices@.len() ==> #[trigger] old(
                    self,
                ).selection.indices@[k] < batch.columns@.len(),
            old(self).consumed + batch.row_count <= usize::MAX,
        ensures
            final(self).selection == old(self).selection,
            final(self).plan == old(self).plan,
            match r {
                Ok(rows) => {
                    &&& final(self).wf()
                    &&& !final(self).failed
                    &&& selection_supported(*batch, old(self).selection.indices@)
                    &&& final(self).hist@ == old(self).hist@ + rows_text(
                        batch.cell_rows(),
                        old(self).selection.indices@,
                    )
                    &&& final(self).out@ == old(self).out@ + rows.deep_view()
                },
                Err(e) => {
                    &&& final(self).failed
                    &&& !selection_supported(*batch, old(self).selection.indices@)
                    &&& reports_first_unsupported(
                        *batch,
                        old(self).selection.indices@,
                        old(self).selection.names@,
                        e,
                    )
                    &&& final(self).hist@ == old(self).hist@
                    &&& final(self).out@ == old(self).out@
                    &&& final(self).tail@ == old(self).tail@
                },
            },
    {
        let ghost inds = self.selection.indices@;
        let mut k: usize = 0;
        while k < self.selection.indices.len()
            invariant
                k <= inds.len(),
                *self == *old(self),
                forall|k2: int|
                    0 <= k2 < k ==> (#[trigger] batch.columns@[inds[k2] as int]).kind.spec_supported(),
            decreases inds.len() - k,
        {
            let j = self.selection.indices[k];
            if !batch.columns[j].kind.supported() {
                let e = FormatError::UnsupportedType {
                    column: self.selection.names[k].clone(),
                    kind: batch.columns[j].kind.kind_name(),
                };
                self.failed = true;
                proof {
                    assert(!batch.columns@[inds[k as int] as int].kind.spec_supported());
                    assert(reports_first_unsupported(
                        *batch,
                        inds,
                        old(self).selection.names@,
                        e,
                    ));
                }
                return Err(e);
            }
            k += 1;
        }
        assert(selection_supported(*batch, inds));
        let ghost new_rows = rows_text(batch.cell_rows(), inds);
        let mut emitted: Vec<Vec<String>> = Vec::new();
        proof {
            assert(self.hist@ + new_rows.take(0) =~= self.hist@);
            assert(self.out@ + emitted.deep_view() =~= self.out@);
        }
        match self.plan {
            StreamPlan::Bounded { skip, take } => {
                let mut i: usize = 0;
                while i < batch.row_count
                    invariant
                        i <= batch.row_count,
                        self.selection == old(self).selection,
                        self.plan == old(self).plan,
                        !self.failed,
                        self.tail@ == old(self).tail@,
                        self.consumed == old(self).consumed + i,
                        self.hist@ == old(self).hist@ + new_rows.take(i as int),
                        self.out@ == window_of(self.hist@, self.plan),
                        self.out@ == old(self).out@ + emitted.deep_view(),
                    decreases batch.row_count - i,
                {
                    let ghost h0 = self.hist@;
                    proof {
                        lemma_window_push(h0, new_rows[i as int], self.plan);
                    }
                    if self.consumed >= skip && self.consumed - skip < take {
                        let row = build_row(batch, &self.selection.indices, i);
                        let ghost prev = emitted.deep_view();
                        proof {
                            assert(row.deep_view() == new_rows[i as int]);
                        }
                        emitted.push(row);
                        proof {
                            assert(emitted.deep_view() =~= prev.push(new_rows[i as int]));
                            assert(old(self).out@ + emitted.deep_view() =~= (old(self).out@
                                + prev).push(new_rows[i as int]));
                        }
                    }
                    self.hist = Ghost(h0.push(new_rows[i as int]));
                    self.out = Ghost(window_of(self.hist@, self.plan));
                    self.consumed = self.consumed + 1;
                    proof {
                        assert(self.hist@ =~= old(self).hist@ + new_rows.take(i + 1));
                    }
                    i += 1;
                }
                proof {
                    assert(new_rows.take(batch.row_count as int) =~= new_rows);
                }
            },
            StreamPlan::Exhaust => {
                let mut i: usize = 0;
                while i < batch.row_count
                    invariant
                        i <= batch.row_count,
                        self.selection == old(self).selection,
                        self.plan == old(self).plan,
                        !self.failed,
                        self.tail@ == old(self).tail@,
                        self.consumed == old(self).consumed + i,
                        self.hist@ == old(self).hist@ + new_rows.take(i as int),
                        self.out@ == self.hist@,
                        self.out@ == old(self).out@ + emitted.deep_view(),
                    decreases batch.row_count - i,
                {
                    let row = build_row(batch, &self.selection.indices, i);
                    let ghost prev = emitted.deep_view();
                    proof {
                        assert(row.deep_view() == new_rows[i as int]);
                    }
                    emitted.push(row);
                    self.hist = Ghost(self.hist@.push(new_rows[i as int]));
                    self.out = Ghost(self.hist@);
                    self.consumed = self.consumed + 1;
                    proof {
                        assert(emitted.deep_view() =~= prev.push(new_rows[i as int]));
                        assert(old(self).out@ + emitted.deep_view() =~= (old(self).out@
                            + prev).push(new_rows[i as int]));
                        assert(self.hist@ =~= old(self).hist@ + new_rows.take(i + 1));
                    }
                    i += 1;
                }
                proof {
                    assert(new_rows.take(batch.row_count as int) =~= new_rows);
                }
            },
            StreamPlan::TailRetain { keep } => {
                let mut i: usize = 0;
                while i < batch.row_count
                    invariant
                        i <= batch.row_count,
                        self.selection == old(self).selection,
                        self.plan == old(self).plan,
                        !self.failed,
                        self.consumed == old(self).consumed + i,
                        self.hist@ == old(self).hist@ + new_rows.take(i as int),
                        self.out@ == old(self).out@,
                        emitted.deep_view() == Seq::<Seq<Seq<char>>>::empty(),
                        rows_view(self.tail@) == window_of(self.hist@, self.plan),
                        self.tail@.len() <= keep,
                    decreases batch.row_count - i,
                {
                    let ghost h0 = self.hist@;
                    let ghost t0 = self.tail@;
                    proof {
                        lemma_window_push(h0, new_rows[i as int], self.plan);
                    }
                    if keep > 0 {
                        let row = build_row(batch, &self.selection.indices, i);
                        proof {
                            assert(row.deep_view() == new_rows[i as int]);
                        }
                        if self.tail.len() == keep {
                            let evicted = self.tail.pop_front();
                            proof {
                                assert(evicted is Some);
                            }
                        }
                        self.tail.push_back(row);
                        proof {
                            if t0.len() == keep {
                                assert(rows_view(self.tail@) =~= rows_view(
                                    t0,
                                ).drop_first().push(new_rows[i as int]));
                            } else {
                                assert(rows_view(self.tail@) =~= rows_view(t0).push(
                                    new_rows[i as int],
                                ));
                            }
                        }
                    }
                    self.hist = Ghost(h0.push(new_rows[i as int]));
                    self.consumed = self.consumed + 1;
                    proof {
                        if keep == 0 {
                            assert(rows_view(self.tail@) =~= window_of(self.hist@, self.plan));
                        }
                        assert(self.hist@ =~= old(self).hist@ + new_rows.take(i + 1));
                    }
                    i += 1;
                }
                proof {
                    assert(new_rows.take(batch.row_count as int) =~= new_rows);
                }
            },
        }
        Ok(emitted)
    }

    /// Whether the stream still needs input: a bounded window is satisfied
    /// once the rows up to `skip + take` have been consumed, and from then
    /// on no further batch is requested; a full scan or trailing retention
    /// needs every batch the source has. A failed stream needs nothing.
    pub fn wants_more(&self) -> (r: bool)
        ensures
            r == (!self.failed && match self.plan {
                StreamPlan::Bounded { skip, take } => self.consumed < skip + take,
                StreamPlan::Exhaust => true,
                StreamPlan::TailRetain { .. } => true,
            }),
    {
        if self.failed {
            return false;
        }
        match self.plan {
            StreamPlan::Bounded { skip, take } => {
                if self.consumed < skip {
                    true
                } else {
                    self.consumed - skip < take
                }
            },
            StreamPlan::Exhaust => true,
            StreamPlan::TailRetain { .. } => true,
        }
    }

    /// Ends the run once the source is exhausted (or the window satisfied),
    /// returning the rows still owed: under trailing retention the retained
    /// trailing rows in original relative order, otherwise nothing. Together
    /// with the rows already emitted, this completes the plan's window over
    /// everything the stream saw.
    pub fn finish(self) -> (rows: Vec<Vec<String>>)
        requires
            self.wf(),
            !self.failed,
        ensures
            self.out@ + rows.deep_view() == window_of(self.hist@, self.plan),
    {
        let mut tail = self.tail;
        let ghost t0 = tail@;
        let mut rows: Vec<Vec<String>> = Vec::new();
        proof {
            assert(rows@ + tail@ =~= t0);
        }
        while tail.len() > 0
            invariant
                rows@ + tail@ == t0,
            decreases tail@.len(),
        {
            let x = tail.pop_front();
            match x {
                Some(v) => {
                    rows.push(v);
                },
                None => {},
            }
            proof {
                assert(rows@ + tail@ =~= t0);
            }
        }
        proof {
            assert(rows@ =~= t0);
            assert(rows.deep_view() =~= rows_view(t0));
            match self.plan {
                StreamPlan::TailRetain { .. } => {
                    assert(self.out@ + rows.deep_view() =~= rows.deep_view());
                },
                _ => {
                    assert(rows.deep_view() =~= Seq::<Seq<Seq<char>>>::empty());
                    assert(self.out@ + rows.deep_view() =~= self.out@);
                },
            }
        }
        rows
    }
}

/// Unbounded tail, bounded memory: at every point of a trailing-retention
/// run — after any number of batches of any sizes, with no total known in
/// advance — the stream retains at most `keep` rows.
pub proof fn lemma_tail_bounded_memory(s: RowStream, keep: usize)
    requires
        s.wf(),
        s.plan == (StreamPlan::TailRetain { keep }),
    ensures
        s.tail@.len() <= keep,
{
}

/// Correctness of batch-granularity skipping: over a source whose batches
/// all hold `batch_size` rows except possibly a shorter last one,
/// materializing only the batches a [`BatchPlan`] retains — skipping
/// `skip_batches` whole batches undecoded, requesting `take_batches`, and
/// windowing what remains by the within-batch offset — emits exactly what
/// windowing every logical row by the full skip/take would. Batches before
/// the window need never be decoded, and batches after it need never be
/// requested.
pub proof fn lemma_batch_skipping(
    batches: Seq<Batch>,
    indices: Seq<usize>,
    skip: usize,
    take: usize,
    batch_size: usize,
    bp: BatchPlan,
)
    requires
        batch_size > 0,
        bp.skip_batches * batch_size + bp.intra_skip == skip,
        bp.intra_skip < batch_size,
        bp.intra_skip + take <= bp.take_batches * batch_size,
        forall|i: int|
            0 <= i < batches.len() - 1 ==> (#[trigger] batches[i]).row_count == batch_size,
        batches.len() > 0 ==> batches[batches.len() - 1].row_count <= batch_size,
    ensures
        ({
            let n = batches.len() as int;
            let lo = if bp.skip_batches <= n {
                bp.skip_batches as int
            } else {
                n
            };
            let hi = if bp.skip_batches + bp.take_batches <= n {
                bp.skip_batches + bp.take_batches
            } else {
                n
            };
            stream_output(
                batches.subrange(lo, hi),
                indices,
                StreamPlan::Bounded { skip: bp.intra_skip, take },
            ) == stream_output(batches, indices, StreamPlan::Bounded { skip, take })
        }),
{
    let n = batches.len() as int;
    let sb = bp.skip_batches as int;
    let tb = bp.take_batches as int;
    let b = batch_size as int;
    let all = batches_cell_rows(batches);
    let big = rows_text(all, indices);
    if sb >= n {
        // Every batch precedes the window: the whole window is empty.
        lemma_batches_cell_rows_len_le(batches, batch_size as nat);
        assert(n * b <= sb * b) by (nonlinear_arith)
            requires
                n <= sb,
                b > 0,
        ;
        assert(all.len() <= skip);
        assert(batches.subrange(n, n) =~= Seq::<Batch>::empty());
        assert(batches_cell_rows(Seq::<Batch>::empty()) =~= Seq::<Seq<CellValue>>::empty());
        assert(stream_output(
            batches.subrange(n, n),
            indices,
            StreamPlan::Bounded { skip: bp.intra_skip, take },
        ) =~= Seq::<Seq<Seq<char>>>::empty());
        assert(window_of(big, StreamPlan::Bounded { skip, take }) =~= Seq::<Seq<Seq<char>>>::empty());
    } else {
        let hi = if sb + tb <= n {
            sb + tb
        } else {
            n
        };
        let prefixb = batches.subrange(0, sb);
        let sliceb = batches.subrange(sb, hi);
        let restb = batches.subrange(hi, n);
        assert(batches =~= (prefixb + sliceb) + restb);
        lemma_batches_cell_rows_concat(prefixb + sliceb, restb);
        lemma_batches_cell_rows_concat(prefixb, sliceb);
        let p = batches_cell_rows(prefixb);
        let s = batches_cell_rows(sliceb);
        let r = batches_cell_rows(restb);
        assert(all == p + s + r);
        lemma_batches_cell_rows_len_exact(prefixb, batch_size as nat);
        assert(p.len() == sb * b);
        lemma_rows_text_concat(p + s, r, indices);
        lemma_rows_text_concat(p, s, indices);
        assert(big == rows_text(p, indices) + rows_text(s, indices) + rows_text(r, indices));
        assert(big.subrange(p.len() as int, (p.len() + s.len()) as int) =~= rows_text(s, indices));
        if sb + tb <= n && hi < n {
            // The retained slice consists of full batches only, so it
            // covers the window's tail.
            lemma_batches_cell_rows_len_exact(sliceb, batch_size as nat);
            assert(s.len() == tb * b);
        }
        lemma_window_slice(
            big,
            p.len() as int,
            (p.len() + s.len()) as int,
            skip,
            take,
            bp.intra_skip,
        );
    }
}

/// Renders one whole run over materialized batches: the batches a batch
/// plan retained, in source order, or any batch sequence a test supplies.
///
/// Every batch is checked and consumed (the caller narrows the batch
/// sequence to the window beforehand, via
/// [`crate::window::batch_split`], so none of these batches lies wholly
/// outside the window). The call succeeds exactly when every retained
/// column of every batch has a supported kind, and then returns the
/// windowed, projected, formatted rows; otherwise it fails with the first
/// offending column of the first offending batch, and no rows.
#[verifier::loop_isolation(false)]
pub fn render_rows(batches: &Vec<Batch>, selection: ColumnSelection, plan: StreamPlan) -> (r:
    Result<Vec<Vec<String>>, FormatError>)
    requires
        selection.names@.len() == selection.indices@.len(),
        forall|b: int| 0 <= b < batches@.len() ==> (#[trigger] batches@[b]).wf(),
        forall|b: int, k: int|
            0 <= b < batches@.len() && 0 <= k < selection.indices@.len()
                ==> #[trigger] selection.indices@[k] < (#[trigger] batches@[b]).columns@.len(),
        batches_cell_rows(batches@).len() <= usize::MAX,
    ensures
        match r {
            Ok(rows) => {
                &&& forall|b: int|
                    0 <= b < batches@.len() ==> selection_supported(
                        #[trigger] batches@[b],
                        selection.indices@,
                    )
                &&& rows.deep_view() == stream_output(batches@, selection.indices@, plan)
            },
            Err(e) => exists|b: int|
                {
                    &&& 0 <= b < batches@.len()
                    &&& !selection_supported(#[trigger] batches@[b], selection.indices@)
                    &&& forall|b2: int|
                        0 <= b2 < b ==> selection_supported(batches@[b2], selection.indices@)
                    &&& reports_first_unsupported(
                        batches@[b],
                        selection.indices@,
                        selection.names@,
                        e,
                    )
                },
        },
{
    let ghost inds = selection.indices@;
    let ghost nms = selection.names@;
    let mut stream = RowStream::new(selection, plan);
    let mut out: Vec<Vec<String>> = Vec::new();
    proof {
        assert(batches@.take(0) =~= Seq::<Batch>::empty());
        assert(stream.hist@ =~= rows_text(batches_cell_rows(batches@.take(0)), inds));
        assert(out.deep_view() =~= stream.out@);
    }
    let mut b: usize = 0;
    while b < batches.len()
        invariant
            b <= batches@.len(),
            stream.wf(),
            !stream.failed,
            stream.selection.indices@ == inds,
            stream.selection.names@ == nms,
            stream.plan == plan,
            stream.hist@ == rows_text(batches_cell_rows(batches@.take(b as int)), inds),
            out.deep_view() == stream.out@,
            forall|b2: int|
                0 <= b2 < b ==> selection_supported(#[trigger] batches@[b2], inds),
        decreases batches@.len() - b,
    {
        proof {
            lemma_batches_cell_rows_take_step(batches@, b as int);
            lemma_batches_cell_rows_prefix_len(batches@, b + 1);
        }
        let batch = &batches[b];
        match stream.accept_batch(batch) {
            Ok(mut rows) => {
                let ghost prev = out.deep_view();
                let ghost rv = rows.deep_view();
                out.append(&mut rows);
                proof {
                    assert(out.deep_view() =~= prev + rv);
                    lemma_rows_text_concat(
                        batches_cell_rows(batches@.take(b as int)),
                        batches@[b as int].cell_rows(),
                        inds,
                    );
                }
            },
            Err(e) => {
                return Err(e);
            },
        }
        b += 1;
    }
    proof {
        assert(batches@.take(batches@.len() as int) =~= batches@);
    }
    let ghost pre_out = stream.out@;
    let ghost prev = out.deep_view();
    let mut rest = stream.finish();
    let ghost rv = rest.deep_view();
    out.append(&mut rest);
    proof {
        assert(out.deep_view() =~= prev + rv);
        assert(out.deep_view() == pre_out + rv);
    }
    Ok(out)
}

} // verus!
