//! Column projection: resolving an include-list or exclude-list of column
//! names against a schema into the ordered set of retained column positions.

use vstd::prelude::*;

use crate::schema::{FieldDescriptor, Schema};

verus! {

/// How columns are chosen for a run.
#[derive(Debug, Clone)]
pub enum ProjectionMode {
    /// Retain every column.
    All,
    /// Retain only the columns whose name appears in the list.
    Include(Vec<String>),
    /// Retain every column except those whose name appears in the list.
    Exclude(Vec<String>),
}

/// The ordered set of retained columns: original schema positions and the
/// corresponding names, both in schema order.
#[derive(Debug, Clone)]
pub struct ColumnSelection {
    pub indices: Vec<usize>,
    pub names: Vec<String>,
}

/// Whether `name` occurs in `names`.
pub open spec fn name_listed(names: Seq<String>, name: Seq<char>) -> bool {
    exists|i: int| 0 <= i < names.len() && names[i]@ == name
}

/// Whether a field named `name` is retained under `mode`.
pub open spec fn retained(mode: ProjectionMode, name: Seq<char>) -> bool {
    match mode {
        ProjectionMode::All => true,
        ProjectionMode::Include(names) => name_listed(names@, name),
        ProjectionMode::Exclude(names) => !name_listed(names@, name),
    }
}

/// The schema positions retained under `mode`, in schema order.
pub open spec fn retained_positions(fields: Seq<FieldDescriptor>, mode: ProjectionMode) -> Seq<
    int,
>
    decreases fields.len(),
{
    if fields.len() == 0 {
        Seq::empty()
    } else if retained(mode, fields.last().name@) {
        retained_positions(fields.drop_last(), mode).push(fields.len() - 1)
    } else {
        retained_positions(fields.drop_last(), mode)
    }
}

/// The projection order invariant: for any schema and any selection mode,
/// the retained positions are exactly the positions of the retained names,
/// in strictly increasing schema order — never reordered, never duplicated,
/// regardless of the order names were requested in.
pub proof fn lemma_projection_order(fields: Seq<FieldDescriptor>, mode: ProjectionMode)
    ensures
        forall|k: int|
            0 <= k < retained_positions(fields, mode).len() ==> 0 <= #[trigger] retained_positions(
                fields,
                mode,
            )[k] < fields.len() && retained(mode, fields[retained_positions(fields, mode)[k]].name@),
        forall|k1: int, k2: int|
            0 <= k1 < k2 < retained_positions(fields, mode).len() ==> retained_positions(
                fields,
                mode,
            )[k1] < retained_positions(fields, mode)[k2],
        forall|p: int|
            0 <= p < fields.len() && retained(mode, fields[p].name@) ==> retained_positions(
                fields,
                mode,
            ).contains(p),
    decreases fields.len(),
{
    if fields.len() > 0 {
        lemma_projection_order(fields.drop_last(), mode);
        let sub = retained_positions(fields.drop_last(), mode);
        let whole = retained_positions(fields, mode);
        assert(forall|p: int|
            0 <= p < fields.len() - 1 ==> fields.drop_last()[p] == fields[p]);
        assert(forall|k: int| 0 <= k < sub.len() ==> whole[k] == sub[k]);
        assert forall|p: int|
            0 <= p < fields.len() && retained(mode, fields[p].name@) implies whole.contains(
            p,
        ) by {
            if p == fields.len() - 1 {
                assert(whole[whole.len() - 1] == p);
            } else {
                assert(sub.contains(p));
                let k = choose|k: int| 0 <= k < sub.len() && sub[k] == p;
                assert(whole[k] == p);
            }
        }
    }
}

/// With unique schema names no duplicate output column is possible: the
/// retained positions carry pairwise distinct names.
pub proof fn lemma_no_duplicate_columns(schema: Schema, mode: ProjectionMode)
    requires
        schema.wf(),
    ensures
        forall|k1: int, k2: int|
            0 <= k1 < k2 < retained_positions(schema.fields@, mode).len()
                ==> schema.fields@[#[trigger] retained_positions(schema.fields@, mode)[k1]].name@
                != schema.fields@[#[trigger] retained_positions(schema.fields@, mode)[k2]].name@,
{
    lemma_projection_order(schema.fields@, mode);
}

/// Tests whether `name` occurs in `names`.
fn listed(names: &Vec<String>, name: &String) -> (r: bool)
    ensures
        r == name_listed(names@, name@),
{
    let mut i: usize = 0;
    while i < names.len()
        invariant
            i <= names@.len(),
            forall|j: int| 0 <= j < i ==> names@[j]@ != name@,
        decreases names@.len() - i,
    {
        if names[i] == *name {
            return true;
        }
        i += 1;
    }
    false
}

/// Tests whether the field named `name` is retained under `mode`.
fn field_retained(mode: &ProjectionMode, name: &String) -> (r: bool)
    ensures
        r == retained(*mode, name@),
{
    match mode {
        ProjectionMode::All => true,
        ProjectionMode::Include(names) => listed(names, name),
        ProjectionMode::Exclude(names) => !listed(names, name),
    }
}

/// Resolves a selection mode against a schema.
///
/// Retains the schema fields whose name the mode keeps, preserving schema
/// order (not the order names were given in); names absent from the schema
/// are silently ignored. A selection matching zero columns yields an empty
/// selection, not an error.
pub fn project(schema: &Schema, mode: &ProjectionMode) -> (sel: ColumnSelection)
    ensures
        sel.indices@.map_values(|x: usize| x as int) == retained_positions(
            schema.fields@,
            *mode,
        ),
        sel.names@.len() == sel.indices@.len(),
        forall|k: int|
            0 <= k < sel.indices@.len() ==> sel.indices@[k] < schema.fields@.len()
                && sel.names@[k]@ == schema.fields@[sel.indices@[k] as int].name@,
{
    let ghost fields = schema.fields@;
    let mut indices: Vec<usize> = Vec::new();
    let mut names: Vec<String> = Vec::new();
    let mut i: usize = 0;
    while i < schema.fields.len()
        invariant
            i <= fields.len(),
            schema.fields@ == fields,
            indices@.map_values(|x: usize| x as int) == retained_positions(
                fields.take(i as int),
                *mode,
            ),
            names@.len() == indices@.len(),
            forall|k: int|
                0 <= k < indices@.len() ==> indices@[k] < fields.len() && names@[k]@
                    == fields[indices@[k] as int].name@,
        decreases fields.len() - i,
    {
        let field = &schema.fields[i];
        proof {
            assert(fields.take(i + 1).drop_last() =~= fields.take(i as int));
            assert(fields.take(i + 1).last() == fields[i as int]);
        }
        if field_retained(mode, &field.name) {
            indices.push(i);
            names.push(field.name.clone());
            proof {
                assert(indices@.map_values(|x: usize| x as int) =~= retained_positions(
                    fields.take(i as int),
                    *mode,
                ).push(i as int));
            }
        }
        i += 1;
    }
    proof {
        assert(fields.take(fields.len() as int) =~= fields);
    }
    ColumnSelection { indices, names }
}

} // verus!
