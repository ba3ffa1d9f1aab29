//! A linter and rewriter for the physical layout of Parquet files.
//!
//! The library works on a plain-value model of a Parquet file's metadata
//! (row groups, column chunks, statistics, encodings).  It estimates
//! per-column cardinality from partial information, builds a normalized
//! per-column context, runs a fixed set of diagnostic rules, and computes
//! corrected writer properties from an inferred base overlaid with a
//! textual prescription.  All of that logic is verified; reading a real
//! file into the model and streaming its rows back out is left to the
//! surrounding application.

pub mod cardinality;
pub mod context;
pub mod diagnostic;
pub mod meta;
pub mod prescription;
pub mod properties;
pub mod rule;
pub mod rules;
pub mod schema;
pub mod strutil;

use crate::diagnostic::Diagnostic;
use crate::rule::RuleContext;
use vstd::prelude::*;

verus! {

/// Options of a lint run.
pub struct LintOptions {
    /// Whether accelerator-oriented rules should run.
    pub gpu: bool,
}

impl Default for LintOptions {
    /// The default run leaves accelerator-oriented rules out.
    fn default() -> (r: LintOptions)
        ensures
            !r.gpu,
    {
        LintOptions { gpu: false }
    }
}

/// Runs the rule registry, or the rules named in the filter, against
/// one immutable snapshot, and returns the findings sorted by severity
/// ascending.  Every finding is justified against the context by the
/// rule that carries its name, and every selected rule's completeness
/// holds of the result: wherever its condition fires, a finding
/// stands.  An unknown rule name matches nothing.
pub fn lint(ctx: &RuleContext, rule_names: Option<&Vec<String>>) -> (r: Vec<Diagnostic>)
    requires
        ctx.wf(),
    ensures
        forall|i: int, j: int|
            0 <= i < j < r@.len() ==> (#[trigger] r@[i]).severity.spec_rank()
                <= (#[trigger] r@[j]).severity.spec_rank(),
        forall|k: int|
            0 <= k < r@.len() ==> crate::rules::spec_diag_justified(ctx, #[trigger] r@[k]),
        forall|i: int|
            0 <= i < crate::rules::spec_rules_for(rule_names).len()
                ==> crate::rules::spec_rule_witness(
                #[trigger] crate::rules::spec_rules_for(rule_names)[i],
                ctx,
                r@,
            ),
{
    let rules = crate::rules::get_rules(rule_names);
    proof {
        assert(rules@ =~= crate::rules::spec_rules_for(rule_names));
    }
    let mut diagnostics: Vec<Diagnostic> = Vec::new();
    let mut i: usize = 0;
    while i < rules.len()
        invariant
            0 <= i <= rules@.len(),
            ctx.wf(),
            rules@ == crate::rules::spec_rules_for(rule_names),
            forall|k: int|
                0 <= k < diagnostics@.len() ==> crate::rules::spec_diag_justified(
                    ctx,
                    #[trigger] diagnostics@[k],
                ),
            forall|j: int|
                0 <= j < i ==> crate::rules::spec_rule_witness(
                    #[trigger] rules@[j],
                    ctx,
                    diagnostics@,
                ),
        decreases rules@.len() - i,
    {
        let mut found = rules[i].check(ctx);
        let ghost foundv = found@;
        let ghost old_diags = diagnostics@;
        diagnostics.append(&mut found);
        proof {
            assert(diagnostics@ == old_diags + foundv);
            crate::rules::lemma_covered_concat(old_diags, foundv, diagnostics@);
            assert forall|j: int| 0 <= j < i + 1 implies crate::rules::spec_rule_witness(
                #[trigger] rules@[j],
                ctx,
                diagnostics@,
            ) by {
                if j < i {
                    crate::rules::lemma_witness_covered(rules@[j], ctx, old_diags, diagnostics@);
                } else {
                    crate::rules::lemma_witness_covered(rules@[j], ctx, foundv, diagnostics@);
                }
            }
        }
        i += 1;
    }
    let ghost all = diagnostics@;
    let sorted = crate::diagnostic::sort_by_severity(diagnostics);
    proof {
        let b1 = crate::diagnostic::by_sev(all, crate::diagnostic::Severity::Suggestion);
        let b2 = crate::diagnostic::by_sev(all, crate::diagnostic::Severity::Warning);
        let b3 = crate::diagnostic::by_sev(all, crate::diagnostic::Severity::Error);
        crate::diagnostic::lemma_by_sev_elems(all, crate::diagnostic::Severity::Suggestion);
        crate::diagnostic::lemma_by_sev_elems(all, crate::diagnostic::Severity::Warning);
        crate::diagnostic::lemma_by_sev_elems(all, crate::diagnostic::Severity::Error);
        assert forall|k: int| 0 <= k < sorted@.len() implies crate::rules::spec_diag_justified(
            ctx,
            #[trigger] sorted@[k],
        ) by {
            if k < b1.len() {
                assert(sorted@[k] == b1[k]);
                let j = choose|j: int| 0 <= j < all.len() && all[j] == b1[k];
                assert(crate::rules::spec_diag_justified(ctx, all[j]));
            } else if k < b1.len() + b2.len() {
                assert(sorted@[k] == b2[k - b1.len()]);
                let j = choose|j: int| 0 <= j < all.len() && all[j] == b2[k - b1.len()];
                assert(crate::rules::spec_diag_justified(ctx, all[j]));
            } else {
                assert(sorted@[k] == b3[k - b1.len() - b2.len()]);
                let j = choose|j: int|
                    0 <= j < all.len() && all[j] == b3[k - b1.len() - b2.len()];
                assert(crate::rules::spec_diag_justified(ctx, all[j]));
            }
        }
        assert forall|m: int| 0 <= m < all.len() implies sorted@.contains(#[trigger] all[m]) by {
            crate::diagnostic::lemma_by_sev_contains(all, m);
            let v = all[m].severity;
            let b = crate::diagnostic::by_sev(all, v);
            let j0 = choose|j0: int| 0 <= j0 < b.len() && b[j0] == all[m];
            match v {
                crate::diagnostic::Severity::Suggestion => {
                    assert(sorted@[j0] == all[m]);
                },
                crate::diagnostic::Severity::Warning => {
                    assert(sorted@[b1.len() + j0] == all[m]);
                },
                crate::diagnostic::Severity::Error => {
                    assert(sorted@[b1.len() + b2.len() + j0] == all[m]);
                },
            }
        }
        assert(crate::rules::seq_covered(all, sorted@));
        assert forall|i0: int|
            0 <= i0 < crate::rules::spec_rules_for(rule_names).len()
                implies crate::rules::spec_rule_witness(
            #[trigger] crate::rules::spec_rules_for(rule_names)[i0],
            ctx,
            sorted@,
        ) by {
            crate::rules::lemma_witness_covered(
                crate::rules::spec_rules_for(rule_names)[i0],
                ctx,
                all,
                sorted@,
            );
        }
    }
    sorted
}

/// Whether any finding is a warning or an error.
pub fn has_warnings_or_errors(diagnostics: &Vec<Diagnostic>) -> (r: bool)
    ensures
        r == exists|i: int|
            0 <= i < diagnostics@.len() && (#[trigger] diagnostics@[i]).severity.spec_rank() >= 1,
{
    crate::diagnostic::has_warnings_or_errors(diagnostics)
}

} // verus!
