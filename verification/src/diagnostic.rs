//! Diagnostics: what a rule reports, where, how severe it is, and the
//! prescription fragment that would fix it.

use crate::prescription::{ColPath, Prescription};
use vstd::prelude::*;

verus! {

/// How serious a finding is.  `Error` is part of the ordering domain
/// but the shipped rules do not use it.
#[derive(Debug, Clone, Copy, PartialEq, Eq, Structural)]
pub enum Severity {
    Suggestion,
    Warning,
    Error,
}

impl Severity {
    /// The position of this severity in ascending order.
    pub open spec fn spec_rank(self) -> int {
        match self {
            Severity::Suggestion => 0,
            Severity::Warning => 1,
            Severity::Error => 2,
        }
    }

    /// The position of this severity in ascending order.
    pub fn rank(&self) -> (r: u8)
        ensures
            r == self.spec_rank(),
    {
        match self {
            Severity::Suggestion => 0,
            Severity::Warning => 1,
            Severity::Error => 2,
        }
    }

    /// The display name of this severity.
    pub fn text(&self) -> (r: String)
    {
        match self {
            Severity::Suggestion => "suggestion".to_owned(),
            Severity::Warning => "warning".to_owned(),
            Severity::Error => "error".to_owned(),
        }
    }
}

/// Where a finding applies.
#[derive(Debug)]
pub enum Location {
    WholeFile,
    RowGroup { index: usize },
    Column { column: usize, path: ColPath },
}

/// One finding of one rule.
#[derive(Debug)]
pub struct Diagnostic {
    pub rule_name: String,
    pub severity: Severity,
    pub location: Location,
    pub message: String,
    pub prescription: Prescription,
}

/// The sub-sequence of diagnostics with severity `v`, in order.
pub open spec fn by_sev(s: Seq<Diagnostic>, v: Severity) -> Seq<Diagnostic>
    decreases s.len(),
{
    if s.len() == 0 {
        Seq::empty()
    } else {
        by_sev(s.drop_last(), v) + if s.last().severity == v {
            seq![s.last()]
        } else {
            Seq::empty()
        }
    }
}

/// Stable sort by severity: the suggestions, then the warnings, then
/// the errors, each group in its original order.
pub fn sort_by_severity(v: Vec<Diagnostic>) -> (r: Vec<Diagnostic>)
    ensures
        r@ =~= by_sev(v@, Severity::Suggestion) + by_sev(v@, Severity::Warning) + by_sev(
            v@,
            Severity::Error,
        ),
        forall|i: int, j: int|
            0 <= i < j < r@.len() ==> (#[trigger] r@[i]).severity.spec_rank()
                <= (#[trigger] r@[j]).severity.spec_rank(),
{
    let mut input = v;
    let mut sugg: Vec<Diagnostic> = Vec::new();
    let mut warn: Vec<Diagnostic> = Vec::new();
    let mut err: Vec<Diagnostic> = Vec::new();
    let ghost orig = input@;
    let n0 = input.len();
    proof {
        assert(orig.len() == n0);
    }
    let mut taken: usize = 0;
    while input.len() > 0
        invariant
            0 <= taken,
            taken + input@.len() == orig.len(),
            orig.len() <= usize::MAX,
            input@ =~= orig.skip(taken as int),
            sugg@ =~= by_sev(orig.take(taken as int), Severity::Suggestion),
            warn@ =~= by_sev(orig.take(taken as int), Severity::Warning),
            err@ =~= by_sev(orig.take(taken as int), Severity::Error),
            forall|i: int| 0 <= i < sugg@.len() ==> (#[trigger] sugg@[i]).severity == Severity::Suggestion,
            forall|i: int| 0 <= i < warn@.len() ==> (#[trigger] warn@[i]).severity == Severity::Warning,
            forall|i: int| 0 <= i < err@.len() ==> (#[trigger] err@[i]).severity == Severity::Error,
        decreases input@.len(),
    {
        let d = input.remove(0);
        proof {
            assert(d == orig[taken as int]);
            assert(orig.take(taken + 1 as int).drop_last() =~= orig.take(taken as int));
            assert(orig.take(taken + 1 as int).last() == d);
        }
        match d.severity {
            Severity::Suggestion => sugg.push(d),
            Severity::Warning => warn.push(d),
            Severity::Error => err.push(d),
        }
        proof {
            assert(input@ =~= orig.skip(taken + 1 as int));
        }
        taken += 1;
    }
    proof {
        assert(orig.take(taken as int) =~= orig);
    }
    let mut r = sugg;
    let mut w = warn;
    let mut e = err;
    r.append(&mut w);
    r.append(&mut e);
    r
}

/// Every element of a severity bucket occurs in its source.
pub proof fn lemma_by_sev_elems(s: Seq<Diagnostic>, v: Severity)
    ensures
        forall|i: int|
            0 <= i < by_sev(s, v).len() ==> exists|j: int|
                0 <= j < s.len() && s[j] == #[trigger] by_sev(s, v)[i],
    decreases s.len(),
{
    if s.len() > 0 {
        lemma_by_sev_elems(s.drop_last(), v);
        let b = by_sev(s, v);
        let bp = by_sev(s.drop_last(), v);
        assert forall|i: int| 0 <= i < b.len() implies exists|j: int|
            0 <= j < s.len() && s[j] == #[trigger] b[i] by {
            if i < bp.len() {
                assert(b[i] == bp[i]);
                let j = choose|j: int| 0 <= j < s.drop_last().len() && s.drop_last()[j] == bp[i];
                assert(s[j] == b[i]);
            } else {
                assert(b[i] == s.last());
                assert(s[s.len() - 1] == b[i]);
            }
        }
    }
}

/// Every source element occurs in the bucket of its severity.
pub proof fn lemma_by_sev_contains(s: Seq<Diagnostic>, i: int)
    requires
        0 <= i < s.len(),
    ensures
        exists|j: int|
            0 <= j < by_sev(s, s[i].severity).len() && by_sev(s, s[i].severity)[j] == s[i],
    decreases s.len(),
{
    let v = s[i].severity;
    if i == s.len() - 1 {
        let b = by_sev(s, v);
        assert(b[b.len() - 1] == s[i]);
    } else {
        lemma_by_sev_contains(s.drop_last(), i);
        assert(s.drop_last()[i] == s[i]);
        let bp = by_sev(s.drop_last(), v);
        let j = choose|j: int| 0 <= j < bp.len() && bp[j] == s[i];
        assert(by_sev(s, v)[j] == s[i]);
    }
}

/// Whether any finding is a warning or an error.
pub fn has_warnings_or_errors(diagnostics: &Vec<Diagnostic>) -> (r: bool)
    ensures
        r == exists|i: int|
            0 <= i < diagnostics@.len() && (#[trigger] diagnostics@[i]).severity.spec_rank() >= 1,
{
    let mut i: usize = 0;
    while i < diagnostics.len()
        invariant
            0 <= i <= diagnostics@.len(),
            forall|k: int| 0 <= k < i ==> (#[trigger] diagnostics@[k]).severity.spec_rank() < 1,
        decreases diagnostics@.len() - i,
    {
        if matches!(diagnostics[i].severity, Severity::Warning | Severity::Error) {
            proof {
                assert(diagnostics@[i as int].severity.spec_rank() >= 1);
            }
            return true;
        }
        i += 1;
    }
    false
}

} // verus!
