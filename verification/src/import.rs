//! The running tally of a folder import.
//!
//! The application layer walks the folder, reads files and talks to the
//! catalog; each outcome is recorded here, so the final tally is exact:
//! which photos were added, how many files were already present, and what
//! went wrong.

use vstd::prelude::*;

use crate::PhotoId;

verus! {

/// Outcome of importing a folder: the photos added to the catalog, the
/// count of files skipped as already present, and the errors met.
pub struct ImportResult {
    /// Catalog ids of the newly imported photos, in import order.
    pub imported: Vec<PhotoId>,
    /// Files skipped because the catalog already held them.
    pub skipped: usize,
    /// One message per file that failed, in import order.
    pub errors: Vec<String>,
}

impl ImportResult {
    /// An empty tally: nothing imported, nothing skipped, no errors.
    pub fn new() -> (r: ImportResult)
        ensures
            r.imported@ == Seq::<PhotoId>::empty(),
            r.skipped == 0,
            r.errors@ == Seq::<String>::empty(),
    {
        ImportResult { imported: Vec::new(), skipped: 0, errors: Vec::new() }
    }

    /// Records a newly imported photo.
    pub fn record_imported(&mut self, id: PhotoId)
        ensures
            final(self).imported@ == old(self).imported@.push(id),
            final(self).skipped == old(self).skipped,
            final(self).errors@ == old(self).errors@,
    {
        self.imported.push(id);
    }

    /// Records a file that was already in the catalog.
    pub fn record_skipped(&mut self)
        requires
            old(self).skipped < usize::MAX,
        ensures
            final(self).imported@ == old(self).imported@,
            final(self).skipped == old(self).skipped + 1,
            final(self).errors@ == old(self).errors@,
    {
        self.skipped = self.skipped + 1;
    }

    /// Records a file that could not be imported.
    pub fn record_error(&mut self, message: String)
        ensures
            final(self).imported@ == old(self).imported@,
            final(self).skipped == old(self).skipped,
            final(self).errors@ == old(self).errors@.push(message),
    {
        self.errors.push(message);
    }
}

} // verus!
