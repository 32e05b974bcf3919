//! Schema metadata: the ordered field descriptors shared read-only by every
//! component of a run.

use vstd::prelude::*;

use crate::kind::ElementKind;

verus! {

/// One field of a schema: a name unique within the schema, the element kind
/// of the field's column, and whether cells of it may be null.
#[derive(Debug, Clone)]
pub struct FieldDescriptor {
    pub name: String,
    pub kind: ElementKind,
    pub nullable: bool,
}

/// An ordered sequence of field descriptors, immutable for the lifetime of
/// one run.
#[derive(Debug, Clone)]
pub struct Schema {
    pub fields: Vec<FieldDescriptor>,
}

impl Schema {
    /// Well-formedness: field names are unique within the schema.
    pub open spec fn wf(self) -> bool {
        forall|i: int, j: int|
            0 <= i < j < self.fields@.len() ==> self.fields@[i].name@ != self.fields@[j].name@
    }

    /// The number of fields.
    pub fn len(&self) -> (n: usize)
        ensures
            n == self.fields@.len(),
    {
        self.fields.len()
    }
}

} // verus!
