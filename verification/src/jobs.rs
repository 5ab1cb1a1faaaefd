//! Job descriptions of the surrounding daemon.
//!
//! These carry plain configuration read from job tables; the I/O that
//! fills them lives with the embedding application code.

use vstd::prelude::*;

verus! {

/// An embedding job: which column of which table to embed with which model.
#[derive(Debug)]
pub struct EmbeddingJob {
    pub id: i32,
    pub is_init: bool,
    pub db_uri: String,
    pub schema: String,
    pub table: String,
    pub column: String,
    pub filter: Option<String>,
    pub out_column: String,
    pub model: String,
    pub batch_size: Option<usize>,
}

impl EmbeddingJob {
    /// Restricts the job to the rows the filter selects.
    pub fn set_filter(&mut self, filter: &str)
        ensures
            final(self).filter matches Some(f) && f@ == filter@,
            final(self).id == old(self).id,
            final(self).is_init == old(self).is_init,
            final(self).db_uri == old(self).db_uri,
            final(self).schema == old(self).schema,
            final(self).table == old(self).table,
            final(self).column == old(self).column,
            final(self).out_column == old(self).out_column,
            final(self).model == old(self).model,
            final(self).batch_size == old(self).batch_size,
    {
        self.filter = Some(filter.to_owned());
    }

    /// Marks whether the job is an initial run.
    pub fn set_is_init(&mut self, is_init: bool)
        ensures
            final(self).is_init == is_init,
            final(self).id == old(self).id,
            final(self).db_uri == old(self).db_uri,
            final(self).schema == old(self).schema,
            final(self).table == old(self).table,
            final(self).column == old(self).column,
            final(self).filter == old(self).filter,
            final(self).out_column == old(self).out_column,
            final(self).model == old(self).model,
            final(self).batch_size == old(self).batch_size,
    {
        self.is_init = is_init;
    }
}

/// A notification that a job row was inserted.
pub struct JobInsertNotification {
    pub id: i32,
    pub init: bool,
    pub generate_missing: bool,
    pub row_id: Option<String>,
    pub filter: Option<String>,
    pub limit: Option<u32>,
}

/// A notification that a job row was updated.
pub struct JobUpdateNotification {
    pub id: i32,
    pub generate_missing: bool,
}

} // verus!
