//! The shared, read-only snapshot every rule consumes, and the rule
//! interface.  Rules never mutate the context; they only return new
//! diagnostics.

use crate::cardinality::ColumnCardinality;
use crate::context::ColumnContext;
use crate::diagnostic::Diagnostic;
use crate::meta::FileMeta;
use vstd::prelude::*;

verus! {

/// What scanning the data pages of one ambiguous chunk found.
#[derive(Debug, Clone, Copy, PartialEq, Eq, Structural)]
pub struct DictProbeResult {
    pub row_group: usize,
    pub column: usize,
    /// Whether any data page uses plain encoding / a dictionary
    /// encoding; `None` when the chunk could not be read or has no
    /// data page.
    pub summary: Option<DataPageEncodingSummary>,
}

/// Which encodings a chunk's data pages were seen to use.
#[derive(Debug, Clone, Copy, PartialEq, Eq, Structural)]
pub struct DataPageEncodingSummary {
    pub has_plain_data_pages: bool,
    pub has_dictionary_data_pages: bool,
}

/// The page count of one chunk, where the rule engine asked for a
/// scan; `None` when the chunk could not be read.
#[derive(Debug, Clone, Copy, PartialEq, Eq, Structural)]
pub struct PageCountProbe {
    pub row_group: usize,
    pub column: usize,
    pub pages: Option<u64>,
}

/// The immutable snapshot rules run against.
#[derive(Debug)]
pub struct RuleContext {
    pub meta: FileMeta,
    pub columns: Vec<ColumnContext>,
    pub cardinalities: Vec<ColumnCardinality>,
    /// Whether accelerator-oriented rules should run.
    pub gpu: bool,
    /// Data-page encoding scans for the chunks named by
    /// `dictionary_probe_requests`.
    pub dict_probes: Vec<DictProbeResult>,
    /// Page-count scans for the chunks named by `page_count_requests`.
    pub page_counts: Vec<PageCountProbe>,
}

impl RuleContext {
    /// Shape invariant: the metadata is well formed and the per-column
    /// vectors cover its columns.
    pub open spec fn wf(&self) -> bool {
        &&& self.meta.wf()
        &&& self.cardinalities@.len() == self.meta.columns@.len()
        &&& self.meta.row_groups@.len() <= 0xFFFF_FFFF
    }

    /// Tests the shape invariant, so an unverified caller can check the
    /// precondition of `lint` before calling it.
    pub fn check_wf(&self) -> (r: bool)
        ensures
            r == self.wf(),
    {
        self.meta.check_wf() && self.cardinalities.len() == self.meta.columns.len()
            && self.meta.row_groups.len() <= 0xFFFF_FFFF
    }
}

/// A diagnostic rule: a name to filter by, and a check against the
/// shared context.
pub trait Rule {
    fn name(&self) -> String;

    fn check(&self, ctx: &RuleContext) -> Vec<Diagnostic>
        requires
            ctx.wf(),
    ;
}

} // verus!
