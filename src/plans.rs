use vstd::prelude::*;

use crate::schema::DataSchema;

verus! {

/// A request to recluster a table.
pub struct ReclusterTablePlan {
    pub tenant: String,
    pub catalog: String,
    pub database: String,
    pub table: String,
    pub is_final: bool,
}

impl ReclusterTablePlan {
    /// Reclustering returns no rows: its output schema has no columns.
    pub fn schema(&self) -> (r: DataSchema)
        ensures
            r.fields@.len() == 0,
    {
        DataSchema::empty()
    }
}

} // verus!
