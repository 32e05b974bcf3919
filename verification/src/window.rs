//! Row-window planning: translating a head/tail/full request into skip/take
//! counts in global logical row space, and into batch-granularity operations.

use vstd::arithmetic::div_mod::{lemma_fundamental_div_mod, lemma_mod_bound};
use vstd::prelude::*;

verus! {

/// A request for a window of the dataset's logical rows.
#[derive(Debug, Clone, Copy, PartialEq, Eq, Structural)]
pub enum Window {
    /// Every row.
    All,
    /// The first `n` rows.
    Head(usize),
    /// The last `n` rows.
    Tail(usize),
}

/// A resolved window over a dataset whose total row count is known:
/// the rows at logical positions `[skip, skip + take)`.
#[derive(Debug, Clone, Copy, PartialEq, Eq, Structural)]
pub struct WindowPlan {
    pub skip: usize,
    pub take: usize,
}

/// The skip count a window resolves to when the total row count is `total`.
pub open spec fn plan_skip(total: nat, window: Window) -> nat {
    match window {
        Window::All => 0,
        Window::Head(_) => 0,
        Window::Tail(n) => if total <= n {
            0
        } else {
            (total - n) as nat
        },
    }
}

/// The take count a window resolves to when the total row count is `total`.
pub open spec fn plan_take(total: nat, window: Window) -> nat {
    match window {
        Window::All => total,
        Window::Head(n) => if n <= total {
            n as nat
        } else {
            total
        },
        Window::Tail(n) => if total <= n {
            total
        } else {
            n as nat
        },
    }
}

/// Resolves a window request against a known total row count.
///
/// `All` keeps everything, `Head(n)` the first `min(n, total)` rows, and
/// `Tail(n)` the last `min(n, total)` rows; both counts clamp to `[0, total]`.
pub fn plan(total: usize, window: &Window) -> (p: WindowPlan)
    ensures
        p.skip == plan_skip(total as nat, *window),
        p.take == plan_take(total as nat, *window),
        p.skip + p.take <= total,
{
    match window {
        Window::All => WindowPlan { skip: 0, take: total },
        Window::Head(n) => WindowPlan { skip: 0, take: if *n <= total { *n } else { total } },
        Window::Tail(n) => {
            if total <= *n {
                WindowPlan { skip: 0, take: total }
            } else {
                WindowPlan { skip: total - *n, take: *n }
            }
        },
    }
}

/// A window translated to batch granularity, for a source that yields
/// batches of a fixed size: skip `skip_batches` whole batches without
/// materializing them, then discard the first `intra_skip` rows of the
/// first retained batch, and request `take_batches` batches in all.
#[derive(Debug, Clone, Copy, PartialEq, Eq, Structural)]
pub struct BatchPlan {
    pub skip_batches: usize,
    pub intra_skip: usize,
    pub take_batches: usize,
}

/// Translates a resolved window into batch-level skip/take counts, for
/// batches of `batch_size` rows each.
///
/// No batch fully outside the window is materialized: the first requested
/// batch contains the window's first row, and the last requested batch
/// starts before the window's end.
pub fn batch_split(p: &WindowPlan, batch_size: usize) -> (b: BatchPlan)
    requires
        batch_size > 0,
        p.skip + p.take <= usize::MAX,
    ensures
        b.skip_batches == p.skip as int / batch_size as int,
        b.intra_skip == p.skip as int % batch_size as int,
        b.skip_batches * batch_size + b.intra_skip == p.skip,
        b.intra_skip < batch_size,
        b.intra_skip + p.take <= b.take_batches * batch_size,
        b.take_batches * batch_size < b.intra_skip + p.take + batch_size,
{
    let skip_batches = p.skip / batch_size;
    let intra_skip = p.skip % batch_size;
    proof {
        lemma_fundamental_div_mod(p.skip as int, batch_size as int);
        lemma_mod_bound(p.skip as int, batch_size as int);
        assert(intra_skip <= p.skip) by (nonlinear_arith)
            requires
                p.skip == batch_size * skip_batches + intra_skip,
                batch_size > 0,
                skip_batches == p.skip as int / batch_size as int,
                p.skip >= 0,
                intra_skip >= 0,
                skip_batches >= 0,
        ;
    }
    let whole = intra_skip + p.take;
    let quo = whole / batch_size;
    let rem = whole % batch_size;
    proof {
        lemma_fundamental_div_mod(whole as int, batch_size as int);
        lemma_mod_bound(whole as int, batch_size as int);
    }
    let take_batches = if rem != 0 {
        proof {
            assert(batch_size >= 2);
            assert(quo + 1 <= whole) by (nonlinear_arith)
                requires
                    whole == batch_size * quo + rem,
                    batch_size >= 2,
                    rem >= 1,
                    quo >= 0,
            ;
        }
        quo + 1
    } else {
        quo
    };
    proof {
        assert(whole <= take_batches * batch_size && take_batches * batch_size < whole
            + batch_size) by (nonlinear_arith)
            requires
                whole == batch_size * quo + rem,
                0 <= rem < batch_size,
                quo >= 0,
                take_batches == if rem != 0 {
                    quo + 1
                } else {
                    quo as int
                },
        ;
    }
    BatchPlan { skip_batches, intra_skip, take_batches }
}

/// The operating plan of one streaming run.
#[derive(Debug, Clone, Copy, PartialEq, Eq, Structural)]
pub enum StreamPlan {
    /// Emit the rows at logical positions `[skip, skip + take)` of the rows
    /// fed to the stream, and stop wanting input once they have arrived.
    Bounded { skip: usize, take: usize },
    /// Emit every row until the source is exhausted.
    Exhaust,
    /// Visit every row, retain only the most recent `keep`, and emit them
    /// once the source is exhausted.
    TailRetain { keep: usize },
}

/// Resolves a window request into a streaming plan.
///
/// With a known total the window becomes a bounded skip/take. With an
/// unknown total, `Head(n)` becomes a bounded take of `n` (the stream stops
/// pulling once satisfied), `Tail(n)` a bounded-memory trailing retention,
/// and `All` a full scan.
pub fn plan_stream(total: Option<usize>, window: &Window) -> (p: StreamPlan)
    ensures
        match total {
            Some(t) => p == (StreamPlan::Bounded {
                skip: plan_skip(t as nat, *window) as usize,
                take: plan_take(t as nat, *window) as usize,
            }),
            None => match *window {
                Window::All => p == StreamPlan::Exhaust,
                Window::Head(n) => p == (StreamPlan::Bounded { skip: 0usize, take: n }),
                Window::Tail(n) => p == (StreamPlan::TailRetain { keep: n }),
            },
        },
{
    match total {
        Some(t) => {
            let p = plan(t, window);
            StreamPlan::Bounded { skip: p.skip, take: p.take }
        },
        None => match window {
            Window::All => StreamPlan::Exhaust,
            Window::Head(n) => StreamPlan::Bounded { skip: 0, take: *n },
            Window::Tail(n) => StreamPlan::TailRetain { keep: *n },
        },
    }
}

/// The subsequence of `rows` that a plan lets through, in original order.
pub open spec fn window_of<T>(rows: Seq<T>, plan: StreamPlan) -> Seq<T> {
    match plan {
        StreamPlan::Bounded { skip, take } => {
            let lo = if skip <= rows.len() {
                skip as int
            } else {
                rows.len() as int
            };
            let hi = if skip + take <= rows.len() {
                skip + take
            } else {
                rows.len() as int
            };
            rows.subrange(lo, hi)
        },
        StreamPlan::Exhaust => rows,
        StreamPlan::TailRetain { keep } => rows.subrange(
            if rows.len() <= keep {
                0
            } else {
                rows.len() - keep
            },
            rows.len() as int,
        ),
    }
}

/// Windowing a middle slice of the rows with the residual within-slice
/// offset equals windowing the whole sequence, provided the dropped prefix
/// lies entirely before the window and either nothing is dropped after the
/// slice or the window ends inside it.
pub proof fn lemma_window_slice<T>(rows: Seq<T>, p: int, q: int, skip: usize, take: usize, intra: usize)
    requires
        0 <= p <= q <= rows.len(),
        p + intra == skip,
        q == rows.len() || intra + take <= q - p,
    ensures
        window_of(rows.subrange(p, q), StreamPlan::Bounded { skip: intra, take })
            == window_of(rows, StreamPlan::Bounded { skip, take }),
{
    assert(window_of(rows.subrange(p, q), StreamPlan::Bounded { skip: intra, take })
        =~= window_of(rows, StreamPlan::Bounded { skip, take }));
}

/// The window bounds invariant: over any row sequence, `Head(n)` lets
/// through exactly the first `min(n, total)` rows and `Tail(n)` exactly the
/// last `min(n, total)` rows, in original order — whether the total was
/// known to the planner (bounded skip/take) or not (bounded take for head,
/// trailing retention for tail).
pub proof fn lemma_window_bounds<T>(rows: Seq<T>, n: usize)
    requires
        rows.len() <= usize::MAX,
    ensures
        window_of(
            rows,
            StreamPlan::Bounded {
                skip: plan_skip(rows.len(), Window::Head(n)) as usize,
                take: plan_take(rows.len(), Window::Head(n)) as usize,
            },
        ) == rows.take(if n <= rows.len() {
            n as int
        } else {
            rows.len() as int
        }),
        window_of(rows, StreamPlan::Bounded { skip: 0usize, take: n }) == rows.take(
            if n <= rows.len() {
                n as int
            } else {
                rows.len() as int
            },
        ),
        window_of(
            rows,
            StreamPlan::Bounded {
                skip: plan_skip(rows.len(), Window::Tail(n)) as usize,
                take: plan_take(rows.len(), Window::Tail(n)) as usize,
            },
        ) == rows.skip(if n <= rows.len() {
            rows.len() - n
        } else {
            0
        }),
        window_of(rows, StreamPlan::TailRetain { keep: n }) == rows.skip(
            if n <= rows.len() {
                rows.len() - n
            } else {
                0
            },
        ),
        window_of(rows, StreamPlan::Exhaust) == rows,
{
    let m: int = if n <= rows.len() {
        n as int
    } else {
        rows.len() as int
    };
    assert(window_of(
        rows,
        StreamPlan::Bounded {
            skip: plan_skip(rows.len(), Window::Head(n)) as usize,
            take: plan_take(rows.len(), Window::Head(n)) as usize,
        },
    ) =~= rows.take(m));
    assert(window_of(rows, StreamPlan::Bounded { skip: 0usize, take: n }) =~= rows.take(m));
    assert(window_of(
        rows,
        StreamPlan::Bounded {
            skip: plan_skip(rows.len(), Window::Tail(n)) as usize,
            take: plan_take(rows.len(), Window::Tail(n)) as usize,
        },
    ) =~= rows.skip(rows.len() - m));
    assert(window_of(rows, StreamPlan::TailRetain { keep: n }) =~= rows.skip(rows.len() - m));
}

} // verus!

