use pqview::batch::{Batch, Column};
use pqview::kind::{CellValue, ElementKind};
use pqview::projection::{project, ProjectionMode};
use pqview::schema::{FieldDescriptor, Schema};
use pqview::stream::{render_rows, RowStream};
use pqview::window::{batch_split, plan, StreamPlan, Window, WindowPlan};

fn sample_schema() -> Schema {
    Schema {
        fields: vec![
            FieldDescriptor {
                name: "id".to_string(),
                kind: ElementKind::Int32,
                nullable: false,
            },
            FieldDescriptor {
                name: "score".to_string(),
                kind: ElementKind::Float64,
                nullable: false,
            },
        ],
    }
}

fn score_text(id: i64) -> String {
    format!("{}", id as f64 / 2.0)
}

/// Batches of `[id, score]` rows for ids `lo..=hi`, one batch per chunk.
fn sample_batches(chunks: &[(i64, i64)]) -> Vec<Batch> {
    chunks
        .iter()
        .map(|&(lo, hi)| {
            let ids: Vec<CellValue> = (lo..=hi).map(CellValue::Int).collect();
            let scores: Vec<CellValue> = (lo..=hi).map(|i| CellValue::Real(score_text(i))).collect();
            Batch {
                row_count: ids.len(),
                columns: vec![
                    Column {
                        kind: ElementKind::Int32,
                        cells: ids,
                    },
                    Column {
                        kind: ElementKind::Float64,
                        cells: scores,
                    },
                ],
            }
        })
        .collect()
}

#[test]
fn head_with_include_projection() {
    // 3 batches of 2 rows (ids 1..6), Head(3), Include(["id"]).
    let schema = sample_schema();
    let batches = sample_batches(&[(1, 2), (3, 4), (5, 6)]);
    let sel = project(&schema, &ProjectionMode::Include(vec!["id".to_string()]));
    assert_eq!(sel.names, vec!["id"]);
    let w = plan(6, &Window::Head(3));
    let b = batch_split(&w, 2);
    let retained: Vec<Batch> = batches
        .into_iter()
        .skip(b.skip_batches)
        .take(b.take_batches)
        .collect();
    let rows = render_rows(
        &retained,
        sel,
        StreamPlan::Bounded {
            skip: b.intra_skip,
            take: w.take,
        },
    )
    .unwrap();
    assert_eq!(rows, vec![vec!["1"], vec!["2"], vec!["3"]]);
}

#[test]
fn tail_without_projection() {
    // Same data, Tail(2), all columns: the last two rows in original order.
    let schema = sample_schema();
    let batches = sample_batches(&[(1, 2), (3, 4), (5, 6)]);
    let sel = project(&schema, &ProjectionMode::All);
    let w = plan(6, &Window::Tail(2));
    let b = batch_split(&w, 2);
    assert_eq!(b.skip_batches, 2);
    let retained: Vec<Batch> = batches
        .into_iter()
        .skip(b.skip_batches)
        .take(b.take_batches)
        .collect();
    let rows = render_rows(
        &retained,
        sel,
        StreamPlan::Bounded {
            skip: b.intra_skip,
            take: w.take,
        },
    )
    .unwrap();
    assert_eq!(
        rows,
        vec![
            vec!["5".to_string(), score_text(5)],
            vec!["6".to_string(), score_text(6)],
        ]
    );
}

#[test]
fn tail_straddles_batches_with_short_last() {
    // 8 rows in batches of 3, 3 and 2; Tail(4) starts inside batch 1 and
    // ends inside the short last batch.
    let schema = sample_schema();
    let batches = sample_batches(&[(1, 3), (4, 6), (7, 8)]);
    let sel = project(&schema, &ProjectionMode::Include(vec!["id".to_string()]));
    let w = plan(8, &Window::Tail(4));
    assert_eq!(w, WindowPlan { skip: 4, take: 4 });
    let b = batch_split(&w, 3);
    assert_eq!((b.skip_batches, b.intra_skip, b.take_batches), (1, 1, 2));
    let retained: Vec<Batch> = batches
        .into_iter()
        .skip(b.skip_batches)
        .take(b.take_batches)
        .collect();
    let rows = render_rows(
        &retained,
        sel,
        StreamPlan::Bounded {
            skip: b.intra_skip,
            take: w.take,
        },
    )
    .unwrap();
    assert_eq!(rows, vec![vec!["5"], vec!["6"], vec!["7"], vec!["8"]]);
}

#[test]
fn unbounded_head_stops_at_source_exhaustion() {
    // Total unknown, 5 single-row batches, Head(10): all 5 rows, no error.
    let schema = sample_schema();
    let batches = sample_batches(&[(1, 1), (2, 2), (3, 3), (4, 4), (5, 5)]);
    let sel = project(&schema, &ProjectionMode::Include(vec!["id".to_string()]));
    let mut stream = RowStream::new(sel, StreamPlan::Bounded { skip: 0, take: 10 });
    let mut rows: Vec<Vec<String>> = Vec::new();
    let mut it = batches.iter();
    while stream.wants_more() {
        match it.next() {
            Some(batch) => rows.extend(stream.accept_batch(batch).unwrap()),
            None => break,
        }
    }
    rows.extend(stream.finish());
    assert_eq!(rows, vec![vec!["1"], vec!["2"], vec!["3"], vec!["4"], vec!["5"]]);
}

#[test]
fn unbounded_head_stops_pulling_once_satisfied() {
    let schema = sample_schema();
    let batches = sample_batches(&[(1, 2), (3, 4), (5, 6)]);
    let sel = project(&schema, &ProjectionMode::Include(vec!["id".to_string()]));
    let mut stream = RowStream::new(sel, StreamPlan::Bounded { skip: 0, take: 2 });
    let mut pulled = 0;
    let mut rows: Vec<Vec<String>> = Vec::new();
    for batch in &batches {
        if !stream.wants_more() {
            break;
        }
        pulled += 1;
        rows.extend(stream.accept_batch(batch).unwrap());
    }
    rows.extend(stream.finish());
    // The first batch satisfies the window; the other two are never pulled.
    assert_eq!(pulled, 1);
    assert_eq!(rows, vec![vec!["1"], vec!["2"]]);
}

#[test]
fn rebatching_does_not_change_output() {
    // The same six logical rows, split three ways.
    let schema = sample_schema();
    let splits: [&[(i64, i64)]; 3] = [
        &[(1, 6)],
        &[(1, 2), (3, 4), (5, 6)],
        &[(1, 1), (2, 2), (3, 3), (4, 4), (5, 5), (6, 6)],
    ];
    let plans = [
        StreamPlan::Bounded { skip: 2, take: 3 },
        StreamPlan::Exhaust,
        StreamPlan::TailRetain { keep: 2 },
    ];
    for plan in plans {
        let mut outputs: Vec<Vec<Vec<String>>> = Vec::new();
        for chunks in splits {
            let sel = project(&schema, &ProjectionMode::All);
            let batches = sample_batches(chunks);
            outputs.push(render_rows(&batches, sel, plan).unwrap());
        }
        assert_eq!(outputs[0], outputs[1]);
        assert_eq!(outputs[1], outputs[2]);
    }
}

#[test]
fn tail_retention_never_exceeds_capacity() {
    // Streaming tail over 10 single-row batches with capacity 3: the FIFO
    // never holds more than 3 rows, and the last 3 come out in order.
    let schema = sample_schema();
    let chunks: Vec<(i64, i64)> = (1..=10).map(|i| (i, i)).collect();
    let batches = sample_batches(&chunks);
    let sel = project(&schema, &ProjectionMode::Include(vec!["id".to_string()]));
    let mut stream = RowStream::new(sel, StreamPlan::TailRetain { keep: 3 });
    for batch in &batches {
        let emitted = stream.accept_batch(batch).unwrap();
        assert!(emitted.is_empty());
        assert!(stream.tail.len() <= 3);
    }
    let rows = stream.finish();
    assert_eq!(rows, vec![vec!["8"], vec!["9"], vec!["10"]]);
}

#[test]
fn tail_zero_retains_nothing() {
    let schema = sample_schema();
    let batches = sample_batches(&[(1, 3)]);
    let sel = project(&schema, &ProjectionMode::All);
    let rows = render_rows(&batches, sel, StreamPlan::TailRetain { keep: 0 }).unwrap();
    assert!(rows.is_empty());
}

#[test]
fn head_zero_takes_nothing() {
    let schema = sample_schema();
    let batches = sample_batches(&[(1, 3)]);
    let sel = project(&schema, &ProjectionMode::All);
    let rows = render_rows(&batches, sel, StreamPlan::Bounded { skip: 0, take: 0 }).unwrap();
    assert!(rows.is_empty());
}

#[test]
fn exhaust_emits_every_row() {
    let schema = sample_schema();
    let batches = sample_batches(&[(1, 2), (3, 3)]);
    let sel = project(&schema, &ProjectionMode::Include(vec!["id".to_string()]));
    let rows = render_rows(&batches, sel, StreamPlan::Exhaust).unwrap();
    assert_eq!(rows, vec![vec!["1"], vec!["2"], vec!["3"]]);
}

#[test]
fn unsupported_type_fails_before_any_row() {
    // One retained column of an unrecognized kind: the run fails with that
    // column's name and kind, and emits nothing.
    let bad = Batch {
        row_count: 2,
        columns: vec![
            Column {
                kind: ElementKind::Int32,
                cells: vec![CellValue::Int(1), CellValue::Int(2)],
            },
            Column {
                kind: ElementKind::Unsupported("Decimal128".to_string()),
                cells: vec![CellValue::Null, CellValue::Null],
            },
        ],
    };
    let schema = Schema {
        fields: vec![
            FieldDescriptor {
                name: "id".to_string(),
                kind: ElementKind::Int32,
                nullable: false,
            },
            FieldDescriptor {
                name: "price".to_string(),
                kind: ElementKind::Unsupported("Decimal128".to_string()),
                nullable: false,
            },
        ],
    };
    let sel = project(&schema, &ProjectionMode::All);
    let mut stream = RowStream::new(sel, StreamPlan::Exhaust);
    let err = stream.accept_batch(&bad).unwrap_err();
    assert_eq!(
        err.message(),
        "unsupported element kind Decimal128 in column price"
    );
    assert!(!stream.wants_more());
    // Nothing was emitted or retained.
    assert!(stream.tail.is_empty());

    let sel = project(&schema, &ProjectionMode::All);
    let r = render_rows(&vec![bad], sel, StreamPlan::Exhaust);
    assert!(r.is_err());
}

#[test]
fn unsupported_column_not_retained_is_harmless() {
    // The unrecognized column is excluded by the projection, so the run
    // succeeds: only retained columns need a formatter.
    let batch = Batch {
        row_count: 1,
        columns: vec![
            Column {
                kind: ElementKind::Int32,
                cells: vec![CellValue::Int(9)],
            },
            Column {
                kind: ElementKind::Unsupported("Utf8".to_string()),
                cells: vec![CellValue::Null],
            },
        ],
    };
    let schema = Schema {
        fields: vec![
            FieldDescriptor {
                name: "id".to_string(),
                kind: ElementKind::Int32,
                nullable: false,
            },
            FieldDescriptor {
                name: "label".to_string(),
                kind: ElementKind::Unsupported("Utf8".to_string()),
                nullable: true,
            },
        ],
    };
    let sel = project(&schema, &ProjectionMode::Exclude(vec!["label".to_string()]));
    let rows = render_rows(&vec![batch], sel, StreamPlan::Exhaust).unwrap();
    assert_eq!(rows, vec![vec!["9"]]);
}

#[test]
fn zero_matching_columns_yield_empty_rows() {
    let schema = sample_schema();
    let batches = sample_batches(&[(1, 2)]);
    let sel = project(&schema, &ProjectionMode::Include(vec!["none".to_string()]));
    let rows = render_rows(&batches, sel, StreamPlan::Exhaust).unwrap();
    assert_eq!(rows, vec![Vec::<String>::new(), Vec::<String>::new()]);
}

#[test]
fn null_cells_render_as_empty_string() {
    let batch = Batch {
        row_count: 2,
        columns: vec![Column {
            kind: ElementKind::UInt16,
            cells: vec![CellValue::UInt(7), CellValue::Null],
        }],
    };
    let schema = Schema {
        fields: vec![FieldDescriptor {
            name: "n".to_string(),
            kind: ElementKind::UInt16,
            nullable: true,
        }],
    };
    let sel = project(&schema, &ProjectionMode::All);
    let rows = render_rows(&vec![batch], sel, StreamPlan::Exhaust).unwrap();
    assert_eq!(rows, vec![vec!["7".to_string()], vec!["".to_string()]]);
}

#[test]
fn mixed_kinds_format_naturally() {
    let batch = Batch {
        row_count: 2,
        columns: vec![
            Column {
                kind: ElementKind::Boolean,
                cells: vec![CellValue::Bool(true), CellValue::Bool(false)],
            },
            Column {
                kind: ElementKind::Int64,
                cells: vec![CellValue::Int(-12), CellValue::Int(0)],
            },
            Column {
                kind: ElementKind::UInt64,
                cells: vec![CellValue::UInt(5), CellValue::UInt(600)],
            },
        ],
    };
    let schema = Schema {
        fields: vec![
            FieldDescriptor {
                name: "flag".to_string(),
                kind: ElementKind::Boolean,
                nullable: false,
            },
            FieldDescriptor {
                name: "delta".to_string(),
                kind: ElementKind::Int64,
                nullable: false,
            },
            FieldDescriptor {
                name: "count".to_string(),
                kind: ElementKind::UInt64,
                nullable: false,
            },
        ],
    };
    let sel = project(&schema, &ProjectionMode::All);
    let rows = render_rows(&vec![batch], sel, StreamPlan::Exhaust).unwrap();
    assert_eq!(
        rows,
        vec![
            vec!["true".to_string(), "-12".to_string(), "5".to_string()],
            vec!["false".to_string(), "0".to_string(), "600".to_string()],
        ]
    );
}
