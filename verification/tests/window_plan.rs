use pqview::window::{batch_split, plan, plan_stream, StreamPlan, Window, WindowPlan};

#[test]
fn plan_all_takes_everything() {
    let p = plan(6, &Window::All);
    assert_eq!(p, WindowPlan { skip: 0, take: 6 });
}

#[test]
fn plan_head_clamps_to_total() {
    assert_eq!(plan(6, &Window::Head(3)), WindowPlan { skip: 0, take: 3 });
    assert_eq!(plan(3, &Window::Head(10)), WindowPlan { skip: 0, take: 3 });
    assert_eq!(plan(0, &Window::Head(5)), WindowPlan { skip: 0, take: 0 });
}

#[test]
fn plan_tail_takes_last_rows() {
    assert_eq!(plan(6, &Window::Tail(2)), WindowPlan { skip: 4, take: 2 });
    assert_eq!(plan(2, &Window::Tail(5)), WindowPlan { skip: 0, take: 2 });
    assert_eq!(plan(5, &Window::Tail(5)), WindowPlan { skip: 0, take: 5 });
}

#[test]
fn batch_split_skips_whole_batches() {
    // Rows [4, 6) with batches of 2: skip two batches, take one, no
    // within-batch offset.
    let b = batch_split(&WindowPlan { skip: 4, take: 2 }, 2);
    assert_eq!(b.skip_batches, 2);
    assert_eq!(b.intra_skip, 0);
    assert_eq!(b.take_batches, 1);
}

#[test]
fn batch_split_straddles_boundaries() {
    // Rows [5, 9) with batches of 4: the window starts inside batch 1 and
    // ends inside batch 2.
    let b = batch_split(&WindowPlan { skip: 5, take: 4 }, 4);
    assert_eq!(b.skip_batches, 1);
    assert_eq!(b.intra_skip, 1);
    assert_eq!(b.take_batches, 2);
}

#[test]
fn batch_split_empty_window() {
    let b = batch_split(&WindowPlan { skip: 0, take: 0 }, 1024);
    assert_eq!(b.skip_batches, 0);
    assert_eq!(b.intra_skip, 0);
    assert_eq!(b.take_batches, 0);
}

#[test]
fn batch_split_exact_fit() {
    let b = batch_split(&WindowPlan { skip: 2, take: 2 }, 2);
    assert_eq!(b.skip_batches, 1);
    assert_eq!(b.intra_skip, 0);
    assert_eq!(b.take_batches, 1);
}

#[test]
fn stream_plan_with_known_total() {
    let p = plan_stream(Some(6), &Window::Tail(2));
    assert_eq!(p, StreamPlan::Bounded { skip: 4, take: 2 });
}

#[test]
fn stream_plan_with_unknown_total() {
    assert_eq!(
        plan_stream(None, &Window::Head(10)),
        StreamPlan::Bounded { skip: 0, take: 10 }
    );
    assert_eq!(
        plan_stream(None, &Window::Tail(3)),
        StreamPlan::TailRetain { keep: 3 }
    );
    assert_eq!(plan_stream(None, &Window::All), StreamPlan::Exhaust);
}
