//! The diagnostic rules.  Each rule reads the shared context and
//! returns zero or more diagnostics; a fixed registry lists them all
//! and supports filtering by name.

use crate::cardinality::lemma_u64_mul_fits;
use crate::diagnostic::{Diagnostic, Location, Severity};
use crate::prescription::{path_text, Directive, DirectiveV, Prescription};
use crate::rule::{Rule, RuleContext};
use crate::strutil::{dec_seq, u64_to_string, usize_to_string};
use vstd::prelude::*;

verus! {

/// Row-count ceiling for one row group.
pub const MAX_ROWS_PER_ROW_GROUP: usize = 65536;

/// Compressed-size ceiling for one row group.
pub const MAX_ROW_GROUP_SIZE_BYTES: i64 = 268435456;

/// Hard ceiling for the data-page size limit.
pub const HARD_MAX_DATA_PAGE_SIZE_LIMIT: usize = 4194304;

/// The recommended data-page size limit.
pub const IDEAL_DATA_PAGE_SIZE_LIMIT: usize = 1048576;

/// What the page/row-group size rule recommends.
#[derive(Debug, Clone, Copy, PartialEq, Eq, Structural)]
pub struct RowGroupSuggestion {
    /// The recommended row-count cap.
    pub target_max_rows: usize,
    /// How many row groups exceed the row-count ceiling.
    pub oversized_rows_groups: usize,
    /// How many row groups exceed the compressed-size ceiling.
    pub oversized_size_groups: usize,
}

/// Rows scaled down so the compressed size trends under the ceiling.
pub open spec fn spec_scaled_rows(num_rows: int, compressed: int) -> int {
    num_rows * (MAX_ROW_GROUP_SIZE_BYTES as int) / compressed
}

/// The fold behind the row-group suggestion over the first `upto` row
/// groups: violating-group counts and the row target.
pub open spec fn spec_rg_fold(rgs: Seq<(i64, i64)>, upto: int) -> (int, int, int)
    decreases upto,
{
    if upto <= 0 {
        (0, 0, MAX_ROWS_PER_ROW_GROUP as int)
    } else {
        let (rows_over, size_over, target) = spec_rg_fold(rgs, upto - 1);
        let nr = rgs[upto - 1].0 as int;
        let cs = rgs[upto - 1].1 as int;
        let rows_over2 = rows_over + if nr > MAX_ROWS_PER_ROW_GROUP as int {
            1int
        } else {
            0int
        };
        if cs > MAX_ROW_GROUP_SIZE_BYTES as int {
            let size_over2 = size_over + 1;
            if nr > 0 {
                let scaled = spec_scaled_rows(nr, cs);
                let capped = if scaled < 1 {
                    1int
                } else {
                    scaled
                };
                let target2 = if capped < target {
                    capped
                } else {
                    target
                };
                (rows_over2, size_over2, target2)
            } else {
                (rows_over2, size_over2, target)
            }
        } else {
            (rows_over2, size_over, target)
        }
    }
}

/// The page/row-group size suggestion: `None` when every row group is
/// within both ceilings, otherwise the counts and the row target.
pub open spec fn spec_rg_suggestion(rgs: Seq<(i64, i64)>) -> Option<RowGroupSuggestion> {
    let (rows_over, size_over, target) = spec_rg_fold(rgs, rgs.len() as int);
    if rows_over == 0 && size_over == 0 {
        Option::None
    } else {
        Option::Some(
            RowGroupSuggestion {
                target_max_rows: target as usize,
                oversized_rows_groups: rows_over as usize,
                oversized_size_groups: size_over as usize,
            },
        )
    }
}

/// The fold's components stay in range.
pub proof fn lemma_rg_fold_bounds(rgs: Seq<(i64, i64)>, upto: int)
    requires
        0 <= upto <= rgs.len(),
    ensures
        ({
            let (rows_over, size_over, target) = spec_rg_fold(rgs, upto);
            &&& 0 <= rows_over <= upto
            &&& 0 <= size_over <= upto
            &&& 1 <= target <= MAX_ROWS_PER_ROW_GROUP as int
        }),
    decreases upto,
{
    if upto > 0 {
        lemma_rg_fold_bounds(rgs, upto - 1);
        let nr = rgs[upto - 1].0 as int;
        let cs = rgs[upto - 1].1 as int;
        if cs > MAX_ROW_GROUP_SIZE_BYTES as int && nr > 0 {
            assert(spec_scaled_rows(nr, cs) >= 0) by (nonlinear_arith)
                requires
                    nr > 0,
                    cs > 0,
            ;
        }
    }
}

/// Computes the page/row-group size suggestion from each row group's
/// row count and compressed size.
pub fn compute_row_group_suggestion(row_groups: &Vec<(i64, i64)>) -> (r: Option<RowGroupSuggestion>)
    ensures
        r == spec_rg_suggestion(row_groups@),
{
    let n = row_groups.len();
    let mut rows_over: usize = 0;
    let mut size_over: usize = 0;
    let mut target: usize = MAX_ROWS_PER_ROW_GROUP;
    let mut i: usize = 0;
    while i < n
        invariant
            0 <= i <= n,
            n == row_groups@.len(),
            spec_rg_fold(row_groups@, i as int) == (rows_over as int, size_over as int, target as int),
            rows_over <= i,
            size_over <= i,
            1 <= target <= MAX_ROWS_PER_ROW_GROUP,
        decreases n - i,
    {
        let (nr, cs) = row_groups[i];
        if nr > MAX_ROWS_PER_ROW_GROUP as i64 {
            rows_over += 1;
        }
        if cs > MAX_ROW_GROUP_SIZE_BYTES {
            size_over += 1;
            if nr > 0 {
                proof {
                    lemma_u64_mul_fits(nr as u64, MAX_ROW_GROUP_SIZE_BYTES as u64);
                }
                let scaled_wide = (nr as u128) * (MAX_ROW_GROUP_SIZE_BYTES as u128) / (cs as u128);
                proof {
                    assert(scaled_wide == spec_scaled_rows(nr as int, cs as int));
                    assert((nr as int) * (MAX_ROW_GROUP_SIZE_BYTES as int) / (cs as int) <= (nr
                        as int) * (MAX_ROW_GROUP_SIZE_BYTES as int)) by (nonlinear_arith)
                        requires
                            nr > 0,
                            cs >= 1,
                    ;
                }
                let scaled: usize = if scaled_wide >= MAX_ROWS_PER_ROW_GROUP as u128 {
                    // The target only ever shrinks, so anything at or
                    // above the ceiling leaves it unchanged.
                    MAX_ROWS_PER_ROW_GROUP
                } else {
                    scaled_wide as usize
                };
                let capped = if scaled < 1 {
                    1
                } else {
                    scaled
                };
                if capped < target {
                    target = capped;
                }
            }
        }
        i += 1;
    }
    if rows_over == 0 && size_over == 0 {
        None
    } else {
        Some(
            RowGroupSuggestion {
                target_max_rows: target,
                oversized_rows_groups: rows_over,
                oversized_size_groups: size_over,
            },
        )
    }
}

/// The policy message, naming only the violated ceilings.
pub open spec fn spec_policy_message(suggestion: RowGroupSuggestion, total_row_groups: usize) -> Seq<
    char,
> {
    let rows_part = dec_seq(suggestion.oversized_rows_groups as nat) + "/"@ + dec_seq(
        total_row_groups as nat,
    ) + " row group(s) exceed 64K rows"@;
    let size_part = dec_seq(suggestion.oversized_size_groups as nat) + "/"@ + dec_seq(
        total_row_groups as nat,
    ) + " row group(s) exceed 256MB compressed"@;
    let parts = if suggestion.oversized_rows_groups > 0 && suggestion.oversized_size_groups > 0 {
        rows_part + "; "@ + size_part
    } else if suggestion.oversized_rows_groups > 0 {
        rows_part
    } else if suggestion.oversized_size_groups > 0 {
        size_part
    } else {
        Seq::empty()
    };
    parts + "; set max_row_group_size="@ + dec_seq(suggestion.target_max_rows as nat)
        + " (64K rows). Recommended data_page_size_limit=1MB (hard max 4MB)."@
}

/// Renders the policy message naming only the violated ceilings.
pub fn build_policy_message(suggestion: RowGroupSuggestion, total_row_groups: usize) -> (r: String)
    ensures
        r@ == spec_policy_message(suggestion, total_row_groups),
{
    let mut parts = String::new();
    let mut have_part = false;
    if suggestion.oversized_rows_groups > 0 {
        parts.append(usize_to_string(suggestion.oversized_rows_groups).as_str());
        parts.append("/");
        parts.append(usize_to_string(total_row_groups).as_str());
        parts.append(" row group(s) exceed 64K rows");
        have_part = true;
    }
    if suggestion.oversized_size_groups > 0 {
        if have_part {
            parts.append("; ");
        }
        parts.append(usize_to_string(suggestion.oversized_size_groups).as_str());
        parts.append("/");
        parts.append(usize_to_string(total_row_groups).as_str());
        parts.append(" row group(s) exceed 256MB compressed");
    }
    let mut msg = parts;
    msg.append("; set max_row_group_size=");
    msg.append(usize_to_string(suggestion.target_max_rows).as_str());
    msg.append(" (64K rows). Recommended data_page_size_limit=1MB (hard max 4MB).");
    proof {
        assert(msg@ =~= spec_policy_message(suggestion, total_row_groups));
    }
    msg
}

/// Flags files whose row groups exceed the row-count or compressed-size
/// ceiling, recommending a row cap and the standard data-page size.
pub struct PageSizeRule;

impl PageSizeRule {
    /// The row counts and compressed sizes of all row groups.
    pub fn row_group_shapes(ctx: &RuleContext) -> (r: Vec<(i64, i64)>)
        ensures
            r@.len() == ctx.meta.row_groups@.len(),
            forall|g: int|
                0 <= g < r@.len() ==> #[trigger] r@[g] == (
                    ctx.meta.row_groups@[g].num_rows,
                    ctx.meta.row_groups@[g].compressed_size,
                ),
    {
        let n = ctx.meta.row_groups.len();
        let mut r: Vec<(i64, i64)> = Vec::new();
        let mut g: usize = 0;
        while g < n
            invariant
                0 <= g <= n,
                n == ctx.meta.row_groups@.len(),
                r@.len() == g,
                forall|k: int|
                    0 <= k < g ==> #[trigger] r@[k] == (
                        ctx.meta.row_groups@[k].num_rows,
                        ctx.meta.row_groups@[k].compressed_size,
                    ),
            decreases n - g,
        {
            let rg = &ctx.meta.row_groups[g];
            r.push((rg.num_rows, rg.compressed_size));
            g += 1;
        }
        r
    }
}

/// The row and size shape of every row group, as the suggestion
/// helper reads it.
pub open spec fn spec_shapes(meta: crate::meta::FileMeta) -> Seq<(i64, i64)> {
    Seq::new(
        meta.row_groups@.len(),
        |g: int| (meta.row_groups@[g].num_rows, meta.row_groups@[g].compressed_size),
    )
}

impl PageSizeRule {
    /// One warning when any row group exceeds a ceiling, prescribing
    /// the row cap and the standard data-page size limit; nothing when
    /// the file is compliant.  Every field of the finding is a function
    /// of the row-group shapes alone.
    pub fn run(ctx: &RuleContext) -> (r: Vec<Diagnostic>)
        ensures
            match spec_rg_suggestion(spec_shapes(ctx.meta)) {
                Option::None => r@.len() == 0,
                Option::Some(s) => r@.len() == 1 && (#[trigger] r@[0]).rule_name@
                    == "page-row-group-size"@ && r@[0].severity == Severity::Warning && r@[0].location
                    is WholeFile && r@[0].message@ == spec_policy_message(
                    s,
                    ctx.meta.row_groups@.len() as usize,
                ) && r@[0].prescription@ =~~= seq![
                    crate::prescription::DirectiveV::SetFileMaxRowGroupSize(s.target_max_rows),
                    crate::prescription::DirectiveV::SetFileDataPageSizeLimit(
                        IDEAL_DATA_PAGE_SIZE_LIMIT,
                    ),
                ],
            },
    {
        let shapes = Self::row_group_shapes(ctx);
        proof {
            assert(shapes@ =~= spec_shapes(ctx.meta));
        }
        let suggestion = match compute_row_group_suggestion(&shapes) {
            Option::Some(s) => s,
            Option::None => {
                return Vec::new();
            },
        };
        let mut prescription = Prescription::new();
        prescription.push(Directive::SetFileMaxRowGroupSize(suggestion.target_max_rows));
        prescription.push(Directive::SetFileDataPageSizeLimit(IDEAL_DATA_PAGE_SIZE_LIMIT));
        let message = build_policy_message(suggestion, shapes.len());
        let mut out: Vec<Diagnostic> = Vec::new();
        out.push(
            Diagnostic {
                rule_name: "page-row-group-size".to_owned(),
                severity: Severity::Warning,
                location: Location::WholeFile,
                message,
                prescription,
            },
        );
        out
    }
}

/// Law, shown for this rule: checking the same unmodified context twice
/// yields the identical findings, field for field.  The result follows
/// from `run`'s contract, which pins every field; the other rules state
/// their firing conditions through their decision helpers instead.
pub fn page_size_rule_repeats(ctx: &RuleContext) -> (r: bool)
    requires
        ctx.wf(),
    ensures
        r,
{
    let first = PageSizeRule::run(ctx);
    let second = PageSizeRule::run(ctx);
    if first.len() != second.len() {
        return false;
    }
    if first.len() == 0 {
        return true;
    }
    let a = &first[0];
    let b = &second[0];
    let same = crate::strutil::str_eq(a.rule_name.as_str(), b.rule_name.as_str())
        && crate::strutil::str_eq(a.message.as_str(), b.message.as_str()) && a.severity.rank()
        == b.severity.rank() && matches!(a.location, Location::WholeFile) && matches!(
        b.location,
        Location::WholeFile,
    ) && a.prescription.directives().len() == b.prescription.directives().len();
    same
}

impl Rule for PageSizeRule {
    fn name(&self) -> (r: String)
    {
        "page-row-group-size".to_owned()
    }

    fn check(&self, ctx: &RuleContext) -> (r: Vec<Diagnostic>) {
        Self::run(ctx)
    }
}

/// Dictionary page size from which a raise is considered.
pub const LARGE_DICT_PAGE_SIZE: usize = 2097152;

/// Hard ceiling for the dictionary page size limit.
pub const MAX_DICT_PAGE_SIZE: usize = 16777216;

/// What the data pages of one chunk prove about dictionary usage.
#[derive(Debug, Clone, Copy, PartialEq, Eq, Structural)]
pub enum ChunkDictionaryState {
    /// Dictionary and plain data pages: the dictionary overflowed.
    Fallback,
    /// Dictionary data pages only.
    DictionaryOnly,
    /// Plain data pages only.
    NoDictionary,
    /// Nothing proven.
    Unknown,
}

impl crate::rule::DataPageEncodingSummary {
    /// The dictionary state a page-encoding summary proves.
    pub open spec fn spec_classify(self) -> ChunkDictionaryState {
        match (self.has_dictionary_data_pages, self.has_plain_data_pages) {
            (true, true) => ChunkDictionaryState::Fallback,
            (true, false) => ChunkDictionaryState::DictionaryOnly,
            (false, true) => ChunkDictionaryState::NoDictionary,
            (false, false) => ChunkDictionaryState::Unknown,
        }
    }

    /// The dictionary state this summary proves.
    pub fn classify(self) -> (r: ChunkDictionaryState)
        ensures
            r == self.spec_classify(),
    {
        match (self.has_dictionary_data_pages, self.has_plain_data_pages) {
            (true, true) => ChunkDictionaryState::Fallback,
            (true, false) => ChunkDictionaryState::DictionaryOnly,
            (false, true) => ChunkDictionaryState::NoDictionary,
            (false, false) => ChunkDictionaryState::Unknown,
        }
    }
}

/// The fold behind summarizing recorded page-encoding statistics over
/// the first `upto` entries: whether a data page was seen, and the
/// plain/dictionary flags.
pub open spec fn spec_page_stats_fold(ps: Seq<crate::meta::PageEncodingStat>, upto: int) -> (
    bool,
    bool,
    bool,
)
    decreases upto,
{
    if upto <= 0 {
        (false, false, false)
    } else {
        let (saw, plain, dict) = spec_page_stats_fold(ps, upto - 1);
        let e = ps[upto - 1];
        if e.page_type == crate::meta::PageTypeKind::DataPage || e.page_type
            == crate::meta::PageTypeKind::DataPageV2 {
            (
                true,
                plain || e.encoding == crate::meta::EncodingKind::Plain,
                dict || crate::meta::spec_is_dictionary_encoding(e.encoding),
            )
        } else {
            (saw, plain, dict)
        }
    }
}

/// Summarizes recorded page-encoding statistics: `None` when no data
/// page is recorded at all.
pub fn summarize_metadata_page_encodings(ps: &Vec<crate::meta::PageEncodingStat>) -> (r: Option<
    crate::rule::DataPageEncodingSummary,
>)
    ensures
        ({
            let (saw, plain, dict) = spec_page_stats_fold(ps@, ps@.len() as int);
            match r {
                Option::Some(s) => saw && s.has_plain_data_pages == plain
                    && s.has_dictionary_data_pages == dict,
                Option::None => !saw,
            }
        }),
{
    let n = ps.len();
    let mut saw = false;
    let mut plain = false;
    let mut dict = false;
    let mut i: usize = 0;
    while i < n
        invariant
            0 <= i <= n,
            n == ps@.len(),
            spec_page_stats_fold(ps@, i as int) == (saw, plain, dict),
        decreases n - i,
    {
        let e = &ps[i];
        if matches!(e.page_type, crate::meta::PageTypeKind::DataPage | crate::meta::PageTypeKind::DataPageV2) {
            saw = true;
            if matches!(e.encoding, crate::meta::EncodingKind::Plain) {
                plain = true;
            }
            if crate::meta::is_dictionary_encoding(e.encoding) {
                dict = true;
            }
        }
        i += 1;
    }
    if saw {
        Some(
            crate::rule::DataPageEncodingSummary {
                has_plain_data_pages: plain,
                has_dictionary_data_pages: dict,
            },
        )
    } else {
        None
    }
}

/// The dictionary state a chunk's metadata alone proves.
pub open spec fn spec_classify_from_metadata(c: crate::meta::ChunkMeta) -> ChunkDictionaryState {
    if !crate::meta::spec_has_encoding(
        c,
        |e: crate::meta::EncodingKind| crate::meta::spec_is_dictionary_encoding(e),
    ) {
        ChunkDictionaryState::NoDictionary
    } else {
        match c.page_encoding_stats {
            Option::Some(ps) => {
                let (saw, plain, dict) = spec_page_stats_fold(ps@, ps@.len() as int);
                if saw {
                    crate::rule::DataPageEncodingSummary {
                        has_plain_data_pages: plain,
                        has_dictionary_data_pages: dict,
                    }.spec_classify()
                } else {
                    if crate::meta::spec_has_encoding(
                        c,
                        |e: crate::meta::EncodingKind| e == crate::meta::EncodingKind::Plain,
                    ) {
                        ChunkDictionaryState::Unknown
                    } else {
                        ChunkDictionaryState::DictionaryOnly
                    }
                }
            },
            Option::None => {
                if crate::meta::spec_has_encoding(
                    c,
                    |e: crate::meta::EncodingKind| e == crate::meta::EncodingKind::Plain,
                ) {
                    ChunkDictionaryState::Unknown
                } else {
                    ChunkDictionaryState::DictionaryOnly
                }
            },
        }
    }
}

/// Classifies a chunk's dictionary state from metadata alone: no
/// dictionary encoding proves no dictionary; recorded page encodings
/// prove the exact state; a plain encoding in the chunk's encoding set
/// is ambiguous (the dictionary page itself is plain-encoded);
/// otherwise the chunk is dictionary-only.
pub fn classify_from_metadata(c: &crate::meta::ChunkMeta) -> (r: ChunkDictionaryState)
    ensures
        r == spec_classify_from_metadata(*c),
{
    if !crate::meta::has_dictionary_encoding(c) {
        return ChunkDictionaryState::NoDictionary;
    }
    match &c.page_encoding_stats {
        Option::Some(ps) => {
            match summarize_metadata_page_encodings(ps) {
                Option::Some(s) => s.classify(),
                Option::None => {
                    if crate::meta::has_plain_encoding(c) {
                        ChunkDictionaryState::Unknown
                    } else {
                        ChunkDictionaryState::DictionaryOnly
                    }
                },
            }
        },
        Option::None => {
            if crate::meta::has_plain_encoding(c) {
                ChunkDictionaryState::Unknown
            } else {
                ChunkDictionaryState::DictionaryOnly
            }
        },
    }
}

/// The evenly spread sample of ambiguous row groups: one in twenty,
/// rounded up, at least one, never more than all.
pub open spec fn spec_choose_sample(indices: Seq<usize>) -> Seq<usize> {
    if indices.len() == 0 {
        Seq::empty()
    } else {
        let target = (indices.len() as int + 19) / 20;
        let count = if target < 1 {
            1int
        } else if target > indices.len() {
            indices.len() as int
        } else {
            target
        };
        if count == indices.len() {
            indices
        } else {
            Seq::new(count as nat, |i: int| indices[i * indices.len() / count])
        }
    }
}

/// Picks the evenly spread sample of ambiguous row groups to inspect.
pub fn choose_sample_row_groups(indices: &Vec<usize>) -> (r: Vec<usize>)
    ensures
        r@ == spec_choose_sample(indices@),
        r@.len() <= indices@.len(),
        forall|k: int| 0 <= k < r@.len() ==> indices@.contains(#[trigger] r@[k]),
{
    let n = indices.len();
    if n == 0 {
        let r: Vec<usize> = Vec::new();
        proof {
            assert(r@ =~= spec_choose_sample(indices@));
        }
        return r;
    }
    let target_wide = (n as u128 + 19) / 20;
    let count: usize = if target_wide < 1 {
        1
    } else if target_wide > n as u128 {
        n
    } else {
        target_wide as usize
    };
    if count == n {
        let mut r: Vec<usize> = Vec::new();
        let mut i: usize = 0;
        while i < n
            invariant
                0 <= i <= n,
                n == indices@.len(),
                r@ =~= indices@.take(i as int),
            decreases n - i,
        {
            r.push(indices[i]);
            proof {
                assert(r@ =~= indices@.take(i + 1 as int));
            }
            i += 1;
        }
        proof {
            assert(indices@.take(n as int) =~= indices@);
            assert forall|k: int| 0 <= k < r@.len() implies indices@.contains(#[trigger] r@[k]) by {
                assert(r@[k] == indices@[k]);
            }
        }
        return r;
    }
    let mut r: Vec<usize> = Vec::new();
    let mut i: usize = 0;
    while i < count
        invariant
            0 <= i <= count,
            0 < count < n,
            n == indices@.len(),
            r@.len() == i,
            forall|k: int| 0 <= k < i ==> #[trigger] r@[k] == indices@[k * n / (count as int)],
        decreases count - i,
    {
        proof {
            lemma_u64_mul_fits(i as u64, n as u64);
            assert((i as int) * (n as int) / (count as int) < n as int) by (nonlinear_arith)
                requires
                    0 <= i < count,
                    0 < count,
                    0 < n,
            ;
            assert((i as int) * (n as int) >= 0) by (nonlinear_arith)
                requires
                    0 <= i,
                    0 < n,
            ;
        }
        let pos_wide = (i as u128) * (n as u128) / (count as u128);
        let pos = pos_wide as usize;
        r.push(indices[pos]);
        i += 1;
    }
    proof {
        assert(r@ =~= spec_choose_sample(indices@));
        assert forall|k: int| 0 <= k < r@.len() implies indices@.contains(#[trigger] r@[k]) by {
            assert(r@[k] == indices@[k * (n as int) / (count as int)]);
            assert(0 <= k * (n as int) / (count as int) < n as int) by (nonlinear_arith)
                requires
                    0 <= k < count,
                    0 < count,
                    0 < n,
            ;
        }
    }
    r
}

/// Ceiling division on wide integers: `None` on division by zero or
/// when rounding up would overflow.
pub fn div_ceil_u128(numerator: u128, denominator: u128) -> (r: Option<u128>)
    ensures
        match r {
            Option::Some(v) => denominator > 0 && numerator + denominator - 1 <= u128::MAX && v
                == (numerator + denominator - 1) as int / denominator as int,
            Option::None => denominator == 0 || numerator + denominator - 1 > u128::MAX,
        },
{
    if denominator == 0 {
        return None;
    }
    match numerator.checked_add(denominator - 1) {
        Option::Some(t) => Some(t / denominator),
        Option::None => None,
    }
}

/// The estimated dictionary payload: the column's uncompressed bytes
/// scaled by distinct/total, with one quarter headroom, rounded up.
/// `None` when any input is zero or the arithmetic overflows.
pub open spec fn spec_dict_payload(dc: u64, tv: int, tb: int) -> Option<int> {
    if dc == 0 || tv == 0 || tb == 0 {
        Option::None
    } else if tb * dc > u128::MAX {
        Option::None
    } else if tb * dc + tv - 1 > u128::MAX {
        Option::None
    } else {
        let payload = (tb * dc + tv - 1) / tv;
        if payload * 5 > u128::MAX || payload * 5 + 3 > u128::MAX {
            Option::None
        } else {
            Option::Some((payload * 5 + 3) / 4)
        }
    }
}

/// Estimates the dictionary payload in bytes for a column.
pub fn estimate_dictionary_payload_bytes(distinct_count: u64, total_values: u128, total_uncompressed_bytes: u128) -> (r: Option<u128>)
    ensures
        match r {
            Option::Some(v) => spec_dict_payload(
                distinct_count,
                total_values as int,
                total_uncompressed_bytes as int,
            ) == Option::Some(v as int),
            Option::None => spec_dict_payload(
                distinct_count,
                total_values as int,
                total_uncompressed_bytes as int,
            ) is None,
        },
{
    if distinct_count == 0 || total_values == 0 || total_uncompressed_bytes == 0 {
        return None;
    }
    let m = match total_uncompressed_bytes.checked_mul(distinct_count as u128) {
        Option::Some(m) => m,
        Option::None => {
            return None;
        },
    };
    let payload = match div_ceil_u128(m, total_values) {
        Option::Some(p) => p,
        Option::None => {
            return None;
        },
    };
    let scaled = match payload.checked_mul(5) {
        Option::Some(s) => s,
        Option::None => {
            return None;
        },
    };
    match div_ceil_u128(scaled, 4) {
        Option::Some(v) => Some(v),
        Option::None => None,
    }
}

/// The dictionary page size to suggest: the base size doubled until
/// the estimate fits.
pub open spec fn spec_double_until(s: int, e: int) -> int
    decreases (if e - s > 0 { e - s } else { 0int }) when 0 < s <= u128::MAX
{
    if s >= e {
        s
    } else {
        let next = if 2 * s > u128::MAX {
            u128::MAX as int
        } else {
            2 * s
        };
        if next == s {
            s
        } else {
            spec_double_until(next, e)
        }
    }
}

/// The suggested dictionary page size limit for an estimated payload.
pub fn suggested_dictionary_page_size_limit(estimated_payload_bytes: Option<u128>) -> (r: usize)
    ensures
        match estimated_payload_bytes {
            Option::None => r == LARGE_DICT_PAGE_SIZE,
            Option::Some(e) => ({
                let d = spec_double_until(LARGE_DICT_PAGE_SIZE as int, e as int);
                r == if d > usize::MAX {
                    usize::MAX as int
                } else {
                    d
                }
            }),
        },
{
    let est = match estimated_payload_bytes {
        Option::Some(e) => e,
        Option::None => {
            return LARGE_DICT_PAGE_SIZE;
        },
    };
    let mut suggested: u128 = LARGE_DICT_PAGE_SIZE as u128;
    loop
        invariant
            0 < suggested <= u128::MAX,
            estimated_payload_bytes == Option::<u128>::Some(est),
            spec_double_until(LARGE_DICT_PAGE_SIZE as int, est as int) == spec_double_until(
                suggested as int,
                est as int,
            ),
        decreases (if est > suggested { est - suggested } else { 0int }),
    {
        if suggested >= est {
            proof {
                assert(spec_double_until(suggested as int, est as int) == suggested as int);
            }
            return if suggested > usize::MAX as u128 {
                usize::MAX
            } else {
                suggested as usize
            };
        }
        let next = if suggested > u128::MAX / 2 {
            u128::MAX
        } else {
            suggested * 2
        };
        if next == suggested {
            proof {
                assert(spec_double_until(suggested as int, est as int) == suggested as int);
            }
            return if suggested > usize::MAX as u128 {
                usize::MAX
            } else {
                suggested as usize
            };
        }
        suggested = next;
    }
}

/// The largest row count among non-empty row groups, at least one.
pub open spec fn spec_largest_rows(meta: crate::meta::FileMeta, upto: int) -> int
    decreases upto,
{
    if upto <= 0 {
        1
    } else {
        let prev = spec_largest_rows(meta, upto - 1);
        let nr = meta.row_groups@[upto - 1].num_rows as int;
        if nr > prev {
            nr
        } else {
            prev
        }
    }
}

/// The largest row count among the file's row groups, at least one.
pub fn largest_row_group_rows(meta: &crate::meta::FileMeta) -> (r: usize)
    ensures
        ({
            let l = spec_largest_rows(*meta, meta.row_groups@.len() as int);
            r == if l > usize::MAX {
                usize::MAX as int
            } else {
                l
            }
        }),
        r >= 1,
{
    let n = meta.row_groups.len();
    let mut best: usize = 1;
    let mut g: usize = 0;
    while g < n
        invariant
            0 <= g <= n,
            n == meta.row_groups@.len(),
            best >= 1,
            ({
                let l = spec_largest_rows(*meta, g as int);
                best == if l > usize::MAX {
                    usize::MAX as int
                } else {
                    l
                }
            }),
        decreases n - g,
    {
        let nr = meta.row_groups[g].num_rows;
        if nr > 0 {
            let nru: usize = if nr as u64 > usize::MAX as u64 {
                usize::MAX
            } else {
                nr as usize
            };
            if nru > best {
                best = nru;
            }
        }
        g += 1;
    }
    best
}

/// The row-group size that keeps the dictionary under the hard cap:
/// the current size scaled by `cap / uncapped`, at least one row.
pub fn suggested_max_row_group_size(current_max_rows: usize, uncapped_dictionary_page_size: usize) -> (r: usize)
    ensures
        current_max_rows == 0 || uncapped_dictionary_page_size <= MAX_DICT_PAGE_SIZE ==> r == if current_max_rows
            == 0 {
            1int
        } else {
            current_max_rows as int
        },
        current_max_rows > 0 && uncapped_dictionary_page_size > MAX_DICT_PAGE_SIZE ==> r == ({
            let scaled = current_max_rows as int * (MAX_DICT_PAGE_SIZE as int)
                / uncapped_dictionary_page_size as int;
            if scaled < 1 {
                1int
            } else if scaled > usize::MAX {
                usize::MAX as int
            } else {
                scaled
            }
        }),
{
    if current_max_rows == 0 || uncapped_dictionary_page_size <= MAX_DICT_PAGE_SIZE {
        return if current_max_rows == 0 {
            1
        } else {
            current_max_rows
        };
    }
    proof {
        lemma_u64_mul_fits(current_max_rows as u64, MAX_DICT_PAGE_SIZE as u64);
        assert(current_max_rows as int * (MAX_DICT_PAGE_SIZE as int)
            / uncapped_dictionary_page_size as int >= 0) by (nonlinear_arith)
            requires
                current_max_rows > 0,
                uncapped_dictionary_page_size > 0,
        ;
    }
    let scaled = (current_max_rows as u128) * (MAX_DICT_PAGE_SIZE as u128) / (
    uncapped_dictionary_page_size as u128);
    if scaled < 1 {
        1
    } else if scaled > usize::MAX as u128 {
        usize::MAX
    } else {
        scaled as usize
    }
}

/// Renders `a/b` for "a of b row groups" phrases.
fn fraction_text(a: usize, b: usize) -> (r: String)
{
    let mut s = usize_to_string(a);
    s.append("/");
    s.append(usize_to_string(b).as_str());
    s
}

/// Renders `~a distinct / b non-null`.
fn cardinality_text(card: &crate::cardinality::ColumnCardinality) -> (r: String)
{
    let mut s = "~".to_owned();
    s.append(u64_to_string(card.distinct_count).as_str());
    s.append(" distinct / ");
    s.append(u64_to_string(card.non_null_count).as_str());
    s.append(" non-null");
    s
}

/// The scan requests one column contributes: the sampled ambiguous row
/// groups, paired with the column.
pub open spec fn spec_dict_requests_col(meta: crate::meta::FileMeta, col: usize) -> Seq<
    (usize, usize),
> {
    let sampled = spec_choose_sample(
        spec_ambiguous(meta, col as int, meta.row_groups@.len() as int),
    );
    Seq::new(sampled.len(), |i: int| (sampled[i], col))
}

/// The scan requests of the first `upto` columns, in order.
pub open spec fn spec_dict_requests(meta: crate::meta::FileMeta, upto: int) -> Seq<(usize, usize)>
    decreases upto,
{
    if upto <= 0 {
        Seq::empty()
    } else {
        spec_dict_requests(meta, upto - 1) + spec_dict_requests_col(meta, (upto - 1) as usize)
    }
}

/// The chunks whose data pages the dictionary rule wants scanned: for
/// each column, an evenly spread twentieth of the row groups whose
/// metadata leaves the dictionary state ambiguous.
pub fn dictionary_probe_requests(meta: &crate::meta::FileMeta) -> (r: Vec<(usize, usize)>)
    requires
        meta.wf(),
    ensures
        r@ =~= spec_dict_requests(*meta, meta.columns@.len() as int),
        forall|k: int|
            0 <= k < r@.len() ==> (#[trigger] r@[k]).0 < meta.row_groups@.len() && r@[k].1
                < meta.columns@.len(),
{
    let mut r: Vec<(usize, usize)> = Vec::new();
    let ncols = meta.columns.len();
    let nrgs = meta.row_groups.len();
    let mut col: usize = 0;
    while col < ncols
        invariant
            0 <= col <= ncols,
            ncols == meta.columns@.len(),
            nrgs == meta.row_groups@.len(),
            meta.wf(),
            r@ =~= spec_dict_requests(*meta, col as int),
            forall|k: int|
                0 <= k < r@.len() ==> (#[trigger] r@[k]).0 < meta.row_groups@.len() && r@[k].1
                    < meta.columns@.len(),
        decreases ncols - col,
    {
        let mut ambiguous: Vec<usize> = Vec::new();
        let mut g: usize = 0;
        while g < nrgs
            invariant
                0 <= g <= nrgs,
                col < ncols,
                ncols == meta.columns@.len(),
                nrgs == meta.row_groups@.len(),
                meta.wf(),
                ambiguous@ =~= spec_ambiguous(*meta, col as int, g as int),
                forall|k: int| 0 <= k < ambiguous@.len() ==> #[trigger] ambiguous@[k] < nrgs,
            decreases nrgs - g,
        {
            let c = &meta.row_groups[g].columns[col];
            if c.num_values != 0 && matches!(
                classify_from_metadata(c),
                ChunkDictionaryState::Unknown,
            ) {
                ambiguous.push(g);
            }
            proof {
                assert(ambiguous@ =~= spec_ambiguous(*meta, col as int, g + 1 as int));
            }
            g += 1;
        }
        let chosen = choose_sample_row_groups(&ambiguous);
        proof {
            assert(ambiguous@ == spec_ambiguous(*meta, col as int, nrgs as int));
            assert(chosen@ =~= spec_choose_sample(spec_ambiguous(*meta, col as int, nrgs as int)));
        }
        let ghost before = r@;
        let mut k: usize = 0;
        while k < chosen.len()
            invariant
                0 <= k <= chosen@.len(),
                col < ncols,
                ncols == meta.columns@.len(),
                nrgs == meta.row_groups@.len(),
                chosen@ == spec_choose_sample(spec_ambiguous(*meta, col as int, nrgs as int)),
                forall|m: int| 0 <= m < chosen@.len() ==> #[trigger] chosen@[m] < nrgs,
                r@ =~= before + Seq::new(k as nat, |i: int| (chosen@[i], col)),
                forall|m: int|
                    0 <= m < r@.len() ==> (#[trigger] r@[m]).0 < nrgs && r@[m].1 < ncols,
            decreases chosen@.len() - k,
        {
            r.push((chosen[k], col));
            proof {
                assert(r@ =~= before + Seq::new((k + 1) as nat, |i: int| (chosen@[i], col)));
            }
            k += 1;
        }
        proof {
            assert(Seq::new(chosen@.len(), |i: int| (chosen@[i], col))
                =~= spec_dict_requests_col(*meta, col));
            assert(r@ =~= spec_dict_requests(*meta, col + 1 as int));
        }
        col += 1;
    }
    r
}

/// The classification the first matching page scan yields for a
/// chunk, or unknown when none matches or the scan failed.
pub open spec fn spec_probe_class(
    probes: Seq<crate::rule::DictProbeResult>,
    rg: usize,
    col: usize,
    i: int,
) -> ChunkDictionaryState
    decreases probes.len() - i,
{
    if i < 0 || i >= probes.len() {
        ChunkDictionaryState::Unknown
    } else if probes[i].row_group == rg && probes[i].column == col {
        match probes[i].summary {
            Option::Some(s) => s.spec_classify(),
            Option::None => ChunkDictionaryState::Unknown,
        }
    } else {
        spec_probe_class(probes, rg, col, i + 1)
    }
}

/// The sampled classification for one chunk, from the application's/// The sampled classification for one chunk, from the application's
/// page scans: the recorded summary's classification, or unknown when
/// the chunk was not scanned or could not be read.
pub fn classify_from_sampled_pages(probes: &Vec<crate::rule::DictProbeResult>, row_group: usize, column: usize) -> (r: ChunkDictionaryState)
    ensures
        r == spec_probe_class(probes@, row_group, column, 0),
{
    let mut i: usize = 0;
    while i < probes.len()
        invariant
            0 <= i <= probes@.len(),
            spec_probe_class(probes@, row_group, column, 0) == spec_probe_class(
                probes@,
                row_group,
                column,
                i as int,
            ),
        decreases probes@.len() - i,
    {
        let p = &probes[i];
        if p.row_group == row_group && p.column == column {
            return match p.summary {
                Option::Some(s) => s.classify(),
                Option::None => ChunkDictionaryState::Unknown,
            };
        }
        i += 1;
    }
    ChunkDictionaryState::Unknown
}

/// Flags dictionary problems per column: a proven fallback to plain
/// pages leads to disabling the dictionary (high cardinality) or
/// raising its page size (moderate cardinality, capped, shrinking the
/// row group when the need exceeds the cap); a low-cardinality column
/// without a dictionary is asked to enable one.
pub struct DictionaryEncodingRule;

/// Counts over the metadata alone: non-empty chunks, proven fallbacks,
/// proven no-dictionary chunks.
pub open spec fn spec_dict_meta(meta: crate::meta::FileMeta, col: int, upto: int) -> (
    int,
    int,
    int,
)
    decreases upto,
{
    if upto <= 0 {
        (0, 0, 0)
    } else {
        let (ne, fb, nd) = spec_dict_meta(meta, col, upto - 1);
        let c = meta.row_groups@[upto - 1].columns@[col];
        if c.num_values != 0 {
            match spec_classify_from_metadata(c) {
                ChunkDictionaryState::Fallback => (ne + 1, fb + 1, nd),
                ChunkDictionaryState::NoDictionary => (ne + 1, fb, nd + 1),
                _ => (ne + 1, fb, nd),
            }
        } else {
            (ne, fb, nd)
        }
    }
}

/// The row groups whose metadata leaves the dictionary state ambiguous.
pub open spec fn spec_ambiguous(meta: crate::meta::FileMeta, col: int, upto: int) -> Seq<usize>
    decreases upto,
{
    if upto <= 0 {
        Seq::empty()
    } else {
        let prev = spec_ambiguous(meta, col, upto - 1);
        let c = meta.row_groups@[upto - 1].columns@[col];
        if c.num_values != 0 && spec_classify_from_metadata(c) == ChunkDictionaryState::Unknown {
            prev.push((upto - 1) as usize)
        } else {
            prev
        }
    }
}

/// Counts over the sampled page scans: fallbacks and no-dictionary
/// findings among the first `upto` sampled row groups.
pub open spec fn spec_sampled_counts(
    probes: Seq<crate::rule::DictProbeResult>,
    col: usize,
    sampled: Seq<usize>,
    upto: int,
) -> (int, int)
    decreases upto,
{
    if upto <= 0 {
        (0, 0)
    } else {
        let (fb, nd) = spec_sampled_counts(probes, col, sampled, upto - 1);
        match spec_probe_class(probes, sampled[upto - 1], col, 0) {
            ChunkDictionaryState::Fallback => (fb + 1, nd),
            ChunkDictionaryState::NoDictionary => (fb, nd + 1),
            _ => (fb, nd),
        }
    }
}

/// The meta counts stay within the group count, and the sampled counts
/// within the sample size.
proof fn lemma_dict_counts_bounds(
    meta: crate::meta::FileMeta,
    probes: Seq<crate::rule::DictProbeResult>,
    col: int,
    sampled: Seq<usize>,
    upto: int,
    upto2: int,
)
    requires
        0 <= upto,
        0 <= upto2,
    ensures
        ({
            let (ne, fb, nd) = spec_dict_meta(meta, col, upto);
            0 <= fb <= ne && 0 <= nd <= ne && ne <= upto
        }),
        ({
            let (fb2, nd2) = spec_sampled_counts(probes, col as usize, sampled, upto2);
            0 <= fb2 <= upto2 && 0 <= nd2 <= upto2
        }),
    decreases upto + upto2,
{
    if upto > 0 {
        lemma_dict_counts_bounds(meta, probes, col, sampled, upto - 1, upto2);
    } else if upto2 > 0 {
        lemma_dict_counts_bounds(meta, probes, col, sampled, upto, upto2 - 1);
    }
}

/// The dictionary fallback and no-dictionary totals for a column:
/// metadata counts plus the sampled page scans over the evenly spread
/// twentieth of the ambiguous row groups.
pub open spec fn spec_dict_totals(
    meta: crate::meta::FileMeta,
    probes: Seq<crate::rule::DictProbeResult>,
    col: int,
) -> (int, int, int) {
    let n = meta.row_groups@.len() as int;
    let (ne, fb, nd) = spec_dict_meta(meta, col, n);
    let sampled = spec_choose_sample(spec_ambiguous(meta, col, n));
    let (fb2, nd2) = spec_sampled_counts(probes, col as usize, sampled, sampled.len() as int);
    (ne, fb + fb2, nd + nd2)
}

/// The dictionary page size the rule would suggest for a column,
/// before capping.
pub open spec fn spec_uncapped_dict_limit(
    meta: crate::meta::FileMeta,
    card: crate::cardinality::ColumnCardinality,
    col: int,
) -> int {
    let (tv, tb) = spec_size_totals(meta, col, meta.row_groups@.len() as int);
    match spec_dict_payload(card.distinct_count, tv, tb) {
        Option::None => LARGE_DICT_PAGE_SIZE as int,
        Option::Some(e) => {
            let d = spec_double_until(LARGE_DICT_PAGE_SIZE as int, e);
            if d > usize::MAX {
                usize::MAX as int
            } else {
                d
            }
        },
    }
}

/// The row-group target when the dictionary need exceeds the cap.
pub open spec fn spec_dict_target_rows(meta: crate::meta::FileMeta, uncapped: int) -> int {
    let l = spec_largest_rows(meta, meta.row_groups@.len() as int);
    let current = if l > usize::MAX {
        usize::MAX as int
    } else {
        l
    };
    let scaled = current * (MAX_DICT_PAGE_SIZE as int) / uncapped;
    if scaled < 1 {
        1int
    } else if scaled > usize::MAX {
        usize::MAX as int
    } else {
        scaled
    }
}

/// Whether the dictionary rule reports a column at all.
pub open spec fn spec_dict_fires(
    meta: crate::meta::FileMeta,
    probes: Seq<crate::rule::DictProbeResult>,
    card: crate::cardinality::ColumnCardinality,
    col: int,
) -> bool {
    let (ne, fb, nd) = spec_dict_totals(meta, probes, col);
    ne > 0 && (fb > 0 || (nd > 0 && (card.non_null_count == 0 || card.distinct_count * 10
        < card.non_null_count)))
}

/// The directives the dictionary rule prescribes for a reported
/// column: disable at high cardinality; otherwise raise the page size,
/// capped, also shrinking the row group when the need exceeds the cap;
/// enable where no dictionary is used at low cardinality.
pub open spec fn spec_dict_prescription(
    meta: crate::meta::FileMeta,
    probes: Seq<crate::rule::DictProbeResult>,
    card: crate::cardinality::ColumnCardinality,
    col: int,
) -> Seq<DirectiveV> {
    let (ne, fb, nd) = spec_dict_totals(meta, probes, col);
    let pt = meta.columns@[col].path@;
    if fb > 0 {
        if card.non_null_count > 0 && card.distinct_count * 2 > card.non_null_count {
            seq![DirectiveV::SetColumnDictionary(pt, false)]
        } else {
            let uncapped = spec_uncapped_dict_limit(meta, card, col);
            if uncapped > MAX_DICT_PAGE_SIZE as int {
                seq![
                    DirectiveV::SetColumnDictionaryPageSizeLimit(pt, MAX_DICT_PAGE_SIZE),
                    DirectiveV::SetFileMaxRowGroupSize(
                        spec_dict_target_rows(meta, uncapped) as usize,
                    ),
                ]
            } else {
                seq![DirectiveV::SetColumnDictionaryPageSizeLimit(pt, uncapped as usize)]
            }
        }
    } else {
        seq![DirectiveV::SetColumnDictionary(pt, true)]
    }
}

/// The severity of a dictionary finding: enabling a dictionary is a
/// suggestion, everything else a warning.
pub open spec fn spec_dict_severity(
    meta: crate::meta::FileMeta,
    probes: Seq<crate::rule::DictProbeResult>,
    col: int,
) -> Severity {
    let (ne, fb, nd) = spec_dict_totals(meta, probes, col);
    if fb > 0 {
        Severity::Warning
    } else {
        Severity::Suggestion
    }
}

/// The whole shape of one dictionary finding for a column.
pub open spec fn spec_dict_diag(
    meta: crate::meta::FileMeta,
    probes: Seq<crate::rule::DictProbeResult>,
    card: crate::cardinality::ColumnCardinality,
    column: usize,
    d: Diagnostic,
) -> bool {
    &&& column < meta.columns@.len()
    &&& spec_dict_fires(meta, probes, card, column as int)
    &&& d.severity == spec_dict_severity(meta, probes, column as int)
    &&& d.rule_name@ == "dictionary-encoding-cardinality"@
    &&& (d.location matches Location::Column { column: c2, path } && c2 == column && path@
        == meta.columns@[column as int].path@)
    &&& d.prescription@ =~~= spec_dict_prescription(meta, probes, card, column as int)
}

impl DictionaryEncodingRule {
    /// Decides one column: the finding when the rule reports it,
    /// nothing otherwise.
    #[verifier::spinoff_prover]
    #[verifier::rlimit(60)]
    fn check_column(ctx: &RuleContext, col: usize) -> (r: Option<Diagnostic>)
        requires
            ctx.wf(),
            col < ctx.meta.columns@.len(),
            ctx.meta.row_groups@.len() > 0,
        ensures
            r is Some <==> spec_dict_fires(
                ctx.meta,
                ctx.dict_probes@,
                ctx.cardinalities@[col as int],
                col as int,
            ),
            r matches Option::Some(d) ==> spec_dict_diag(
                ctx.meta,
                ctx.dict_probes@,
                ctx.cardinalities@[col as int],
                col,
                d,
            ),
    {
        let nrgs = ctx.meta.row_groups.len();
        let mut non_empty: usize = 0;
        let mut fallback: usize = 0;
        let mut no_dict: usize = 0;
        let mut ambiguous: Vec<usize> = Vec::new();
        let mut g: usize = 0;
        while g < nrgs
            invariant
                0 <= g <= nrgs,
                col < ctx.meta.columns@.len(),
                nrgs == ctx.meta.row_groups@.len(),
                ctx.wf(),
                non_empty <= g,
                fallback <= g,
                no_dict <= g,
                spec_dict_meta(ctx.meta, col as int, g as int) == (
                    non_empty as int,
                    fallback as int,
                    no_dict as int,
                ),
                ambiguous@ =~= spec_ambiguous(ctx.meta, col as int, g as int),
                ambiguous@.len() <= g,
            decreases nrgs - g,
        {
            let c = &ctx.meta.row_groups[g].columns[col];
            if c.num_values != 0 {
                non_empty += 1;
                match classify_from_metadata(c) {
                    ChunkDictionaryState::Fallback => {
                        fallback += 1;
                    },
                    ChunkDictionaryState::NoDictionary => {
                        no_dict += 1;
                    },
                    ChunkDictionaryState::DictionaryOnly => {},
                    ChunkDictionaryState::Unknown => {
                        ambiguous.push(g);
                    },
                }
            }
            proof {
                assert(ambiguous@ =~= spec_ambiguous(ctx.meta, col as int, g + 1 as int));
            }
            g += 1;
        }
        let sampled = choose_sample_row_groups(&ambiguous);
        proof {
            assert(ambiguous@ == spec_ambiguous(ctx.meta, col as int, nrgs as int));
            assert(sampled@ =~= spec_choose_sample(
                spec_ambiguous(ctx.meta, col as int, nrgs as int),
            ));
        }
        let mut fb2: usize = 0;
        let mut nd2: usize = 0;
        let mut k: usize = 0;
        while k < sampled.len()
            invariant
                0 <= k <= sampled@.len(),
                col < ctx.meta.columns@.len(),
                ctx.wf(),
                fb2 <= k,
                nd2 <= k,
                spec_sampled_counts(ctx.dict_probes@, col, sampled@, k as int) == (
                    fb2 as int,
                    nd2 as int,
                ),
            decreases sampled@.len() - k,
        {
            match classify_from_sampled_pages(&ctx.dict_probes, sampled[k], col) {
                ChunkDictionaryState::Fallback => {
                    fb2 += 1;
                },
                ChunkDictionaryState::NoDictionary => {
                    nd2 += 1;
                },
                _ => {},
            }
            k += 1;
        }
        proof {
            assert(sampled@ == spec_choose_sample(
                spec_ambiguous(ctx.meta, col as int, nrgs as int),
            ));
            lemma_dict_counts_bounds(
                ctx.meta,
                ctx.dict_probes@,
                col as int,
                sampled@,
                nrgs as int,
                sampled@.len() as int,
            );
        }
        let card = ctx.cardinalities[col];
        let ghost totals = spec_dict_totals(ctx.meta, ctx.dict_probes@, col as int);
        proof {
            assert(fallback + fb2 <= 2 * nrgs && no_dict + nd2 <= 2 * nrgs);
            assert(totals == (non_empty as int, (fallback + fb2) as int, (no_dict + nd2) as int));
        }
        let fb_total = fallback as u64 + fb2 as u64;
        let nd_total = no_dict as u64 + nd2 as u64;
        let fires = non_empty > 0 && (fb_total > 0 || (nd_total > 0 && card.ratio_lt(1, 10)));
        proof {
            assert(fires == spec_dict_fires(
                ctx.meta,
                ctx.dict_probes@,
                ctx.cardinalities@[col as int],
                col as int,
            ));
        }
        if !fires {
            return None;
        }
        let path = ctx.meta.columns[col].path.dup();
        let mut prescription = Prescription::new();
        let severity: Severity;
        let mut msg: String;
        if fb_total > 0 {
            severity = Severity::Warning;
            if card.ratio_gt(1, 2) {
                prescription.push(Directive::SetColumnDictionary(path.dup(), false));
                msg = "dictionary data pages fell back to plain in ".to_owned();
                msg.append(u64_to_string(fb_total).as_str());
                msg.append("/");
                msg.append(usize_to_string(non_empty).as_str());
                msg.append(" row groups; estimated cardinality is high (");
                msg.append(cardinality_text(&card).as_str());
                msg.append("), dictionary encoding is not beneficial");
            } else {
                let (tv, tb) = column_size_totals(&ctx.meta, col);
                let uncapped = suggested_dictionary_page_size_limit(
                    estimate_dictionary_payload_bytes(card.distinct_count, tv, tb),
                );
                proof {
                    assert(uncapped as int == spec_uncapped_dict_limit(
                        ctx.meta,
                        ctx.cardinalities@[col as int],
                        col as int,
                    ));
                }
                if uncapped > MAX_DICT_PAGE_SIZE {
                    let current_rows = largest_row_group_rows(&ctx.meta);
                    let target_rows = suggested_max_row_group_size(current_rows, uncapped);
                    proof {
                        assert(target_rows as int == spec_dict_target_rows(
                            ctx.meta,
                            uncapped as int,
                        ));
                    }
                    prescription.push(
                        Directive::SetColumnDictionaryPageSizeLimit(
                            path.dup(),
                            MAX_DICT_PAGE_SIZE,
                        ),
                    );
                    prescription.push(Directive::SetFileMaxRowGroupSize(target_rows));
                    msg = "dictionary data pages fell back to plain in ".to_owned();
                    msg.append(u64_to_string(fb_total).as_str());
                    msg.append("/");
                    msg.append(usize_to_string(non_empty).as_str());
                    msg.append(" row groups; estimated cardinality is moderate (");
                    msg.append(cardinality_text(&card).as_str());
                    msg.append(
                        "), required dictionary page size appears larger than 16MB; cap dictionary_page_size_limit at 16MB and reduce row-group size (for example, max_row_group_size=",
                    );
                    msg.append(usize_to_string(target_rows).as_str());
                    msg.append(")");
                } else {
                    prescription.push(
                        Directive::SetColumnDictionaryPageSizeLimit(path.dup(), uncapped),
                    );
                    msg = "dictionary data pages fell back to plain in ".to_owned();
                    msg.append(u64_to_string(fb_total).as_str());
                    msg.append("/");
                    msg.append(usize_to_string(non_empty).as_str());
                    msg.append(" row groups; estimated cardinality is moderate (");
                    msg.append(cardinality_text(&card).as_str());
                    msg.append("), dictionary page size may be too small");
                }
            }
        } else {
            severity = Severity::Suggestion;
            prescription.push(Directive::SetColumnDictionary(path.dup(), true));
            msg = "low cardinality (".to_owned();
            msg.append(cardinality_text(&card).as_str());
            msg.append(") and no dictionary in ");
            msg.append(u64_to_string(nd_total).as_str());
            msg.append("/");
            msg.append(usize_to_string(non_empty).as_str());
            msg.append(" row groups; consider enabling dictionary encoding");
        }
        let diag = Diagnostic {
            rule_name: "dictionary-encoding-cardinality".to_owned(),
            severity,
            location: Location::Column { column: col, path },
            message: msg,
            prescription,
        };
        proof {
            assert(diag.prescription@ =~~= spec_dict_prescription(
                ctx.meta,
                ctx.dict_probes@,
                ctx.cardinalities@[col as int],
                col as int,
            ));
            assert(spec_dict_diag(
                ctx.meta,
                ctx.dict_probes@,
                ctx.cardinalities@[col as int],
                col,
                diag,
            ));
        }
        Some(diag)
    }

    /// One finding per column the rule reports, prescribing the
    /// dictionary change the totals call for -- and none for the rest.
    #[verifier::spinoff_prover]
    pub fn run(ctx: &RuleContext) -> (r: Vec<Diagnostic>)
        requires
            ctx.wf(),
        ensures
            forall|k: int|
                0 <= k < r@.len() ==> ((#[trigger] r@[k]).location matches Location::Column {
                    column,
                    ..
                } && spec_dict_diag(
                    ctx.meta,
                    ctx.dict_probes@,
                    ctx.cardinalities@[column as int],
                    column,
                    r@[k],
                )),
            ctx.meta.row_groups@.len() > 0 ==> forall|c: usize|
                c < ctx.meta.columns@.len() && spec_dict_fires(
                    ctx.meta,
                    ctx.dict_probes@,
                    ctx.cardinalities@[c as int],
                    c as int,
                ) ==> exists|k: int|
                    0 <= k < r@.len() && ((#[trigger] r@[k]).location matches Location::Column {
                        column,
                        ..
                    } && column == c),
    {
        let mut out: Vec<Diagnostic> = Vec::new();
        let nrgs = ctx.meta.row_groups.len();
        if nrgs == 0 {
            return out;
        }
        let ncols = ctx.meta.columns.len();
        let mut col: usize = 0;
        while col < ncols
            invariant
                0 <= col <= ncols,
                ncols == ctx.meta.columns@.len(),
                nrgs == ctx.meta.row_groups@.len(),
                nrgs > 0,
                ctx.wf(),
                forall|k: int|
                    0 <= k < out@.len() ==> ((#[trigger] out@[k]).location matches Location::Column {
                        column,
                        ..
                    } && spec_dict_diag(
                        ctx.meta,
                        ctx.dict_probes@,
                        ctx.cardinalities@[column as int],
                        column,
                        out@[k],
                    )),
                forall|c: usize|
                    c < col && spec_dict_fires(
                        ctx.meta,
                        ctx.dict_probes@,
                        ctx.cardinalities@[c as int],
                        c as int,
                    ) ==> exists|k: int|
                        0 <= k < out@.len() && ((#[trigger] out@[k]).location
                            matches Location::Column { column, .. } && column == c),
            decreases ncols - col,
        {
            let found = Self::check_column(ctx, col);
            let ghost pre = out@;
            let ghost fired = found is Some;
            match found {
                Option::Some(diag) => {
                    out.push(diag);
                },
                Option::None => {},
            }
            proof {
                assert forall|c: usize|
                    c < col + 1 && spec_dict_fires(
                        ctx.meta,
                        ctx.dict_probes@,
                        ctx.cardinalities@[c as int],
                        c as int,
                    ) implies exists|k: int|
                    0 <= k < out@.len() && ((#[trigger] out@[k]).location matches Location::Column {
                        column,
                        ..
                    } && column == c) by {
                    if c < col {
                        let k0 = choose|k0: int|
                            0 <= k0 < pre.len() && ((#[trigger] pre[k0]).location
                                matches Location::Column { column, .. } && column == c);
                        assert(out@[k0] == pre[k0]);
                    } else {
                        assert(fired);
                        assert(out@[pre.len() as int].location matches Location::Column {
                            column,
                            ..
                        } && column == col);
                    }
                }
            }
            col += 1;
        }
        out
    }
}

impl Rule for DictionaryEncodingRule {
    fn name(&self) -> (r: String) {
        "dictionary-encoding-cardinality".to_owned()
    }

    fn check(&self, ctx: &RuleContext) -> (r: Vec<Diagnostic>) {
        Self::run(ctx)
    }
}

/// The positive value and uncompressed byte totals of a column's
/// chunks that hold both, over the first `upto` row groups.
pub open spec fn spec_size_totals(meta: crate::meta::FileMeta, col: int, upto: int) -> (int, int)
    decreases upto,
{
    if upto <= 0 {
        (0, 0)
    } else {
        let (tv, tb) = spec_size_totals(meta, col, upto - 1);
        let c = meta.row_groups@[upto - 1].columns@[col];
        if c.num_values > 0 && c.uncompressed_size > 0 {
            (tv + c.num_values as int, tb + c.uncompressed_size as int)
        } else {
            (tv, tb)
        }
    }
}

/// The size totals are non-negative and bounded by the group count.
proof fn lemma_size_totals_bounds(meta: crate::meta::FileMeta, col: int, upto: int)
    requires
        0 <= upto,
    ensures
        0 <= spec_size_totals(meta, col, upto).0 <= upto * 0x8000_0000_0000_0000,
        0 <= spec_size_totals(meta, col, upto).1 <= upto * 0x8000_0000_0000_0000,
    decreases upto,
{
    if upto > 0 {
        lemma_size_totals_bounds(meta, col, upto - 1);
        assert((upto - 1) * 0x8000_0000_0000_0000 + 0x8000_0000_0000_0000 == upto
            * 0x8000_0000_0000_0000) by (nonlinear_arith);
    }
}

/// A column's total positive value count and uncompressed byte count.
pub fn column_size_totals(meta: &crate::meta::FileMeta, col: usize) -> (r: (u128, u128))
    requires
        meta.wf(),
        col < meta.columns@.len(),
        meta.row_groups@.len() <= 0xFFFF_FFFF,
    ensures
        r.0 == spec_size_totals(*meta, col as int, meta.row_groups@.len() as int).0,
        r.1 == spec_size_totals(*meta, col as int, meta.row_groups@.len() as int).1,
{
    let n = meta.row_groups.len();
    let mut total_values: u128 = 0;
    let mut total_bytes: u128 = 0;
    let mut g: usize = 0;
    while g < n
        invariant
            0 <= g <= n,
            n == meta.row_groups@.len(),
            meta.wf(),
            col < meta.columns@.len(),
            total_values == spec_size_totals(*meta, col as int, g as int).0,
            total_bytes == spec_size_totals(*meta, col as int, g as int).1,
            n <= 0xFFFF_FFFF,
        decreases n - g,
    {
        let c = &meta.row_groups[g].columns[col];
        proof {
            lemma_size_totals_bounds(*meta, col as int, g as int);
            assert((g as int) * 0x8000_0000_0000_0000 + 0x8000_0000_0000_0000 == (g + 1)
                * 0x8000_0000_0000_0000) by (nonlinear_arith);
            assert((g + 1) * 0x8000_0000_0000_0000 <= 0x1_0000_0000 * 0x8000_0000_0000_0000)
                by (nonlinear_arith)
                requires
                    g + 1 <= 0x1_0000_0000,
            ;
        }
        if c.num_values > 0 && c.uncompressed_size > 0 {
            total_values = total_values + (c.num_values as u128);
            total_bytes = total_bytes + (c.uncompressed_size as u128);
        }
        g += 1;
    }
    (total_values, total_bytes)
}

/// Size above which a chunk counts as decompression-sensitive.
pub const LARGE_UNCOMPRESSED_COLUMN_BYTES: i64 = 4194304;

/// Minimum aggregate column size for a codec recommendation.
pub const MIN_COLUMN_BYTES_FOR_CODEC_CHANGE: u64 = 8388608;

/// Minimum text column size for a speed-codec upgrade.
pub const MIN_TEXT_BYTES_FOR_LZ4_UPGRADE: u64 = 33554432;

/// Minimum total size for the many-small-chunks speed-codec case.
pub const MIN_TOTAL_BYTES_FOR_SMALL_CHUNK_LZ4: u64 = 67108864;

/// Minimum row-group count for the many-small-chunks case.
pub const MIN_ROW_GROUPS_FOR_SMALL_CHUNK_LZ4: usize = 64;

/// Maximum average chunk size for the many-small-chunks case.
pub const MAX_AVG_UNCOMPRESSED_CHUNK_BYTES_FOR_LZ4: u64 = 1048576;

/// The compression level the default policy targets.
pub const TARGET_ZSTD_LEVEL: i32 = 3;

/// Which codec a chunk should move to.
#[derive(Debug, Clone, Copy, PartialEq, Eq, Structural)]
pub enum CodecRecommendation {
    ZstdLevel3,
    Lz4,
}

impl CodecRecommendation {
    /// The codec value this recommendation prescribes.
    pub fn target(self) -> (r: crate::prescription::Codec)
        ensures
            self is ZstdLevel3 ==> r == crate::prescription::Codec::Zstd(TARGET_ZSTD_LEVEL),
            self is Lz4 ==> r == crate::prescription::Codec::Lz4Raw,
    {
        match self {
            CodecRecommendation::ZstdLevel3 => crate::prescription::Codec::Zstd(TARGET_ZSTD_LEVEL),
            CodecRecommendation::Lz4 => crate::prescription::Codec::Lz4Raw,
        }
    }

    /// The human advice for this recommendation.
    pub fn advice(self) -> (r: &'static str)
        ensures
            self is ZstdLevel3 ==> r@ == "recommend switching to ZSTD level 3"@,
            self is Lz4 ==> r@ == "recommend switching to LZ4 for faster decompression"@,
    {
        match self {
            CodecRecommendation::ZstdLevel3 => "recommend switching to ZSTD level 3",
            CodecRecommendation::Lz4 => "recommend switching to LZ4 for faster decompression",
        }
    }
}

/// What a chunk's codec calls for: large snappy chunks move to a
/// faster-decompressing codec; anything but the target level of the
/// default codec moves to that target; the target itself passes.
pub open spec fn spec_classify_codec(c: crate::meta::CompressionKind, uncompressed_size: i64) -> Option<
    CodecRecommendation,
> {
    if uncompressed_size > LARGE_UNCOMPRESSED_COLUMN_BYTES && c
        == crate::meta::CompressionKind::Snappy {
        Option::Some(CodecRecommendation::Lz4)
    } else if c == crate::meta::CompressionKind::ZstdLevel(TARGET_ZSTD_LEVEL) {
        Option::None
    } else {
        Option::Some(CodecRecommendation::ZstdLevel3)
    }
}

/// Classifies one chunk's codec against the policy.  The reason string
/// accompanies the recommendation.
pub fn classify_codec_issue(compression: crate::meta::CompressionKind, uncompressed_size: i64) -> (r:
    Option<(CodecRecommendation, &'static str)>)
    ensures
        match r {
            Option::Some(p) => spec_classify_codec(compression, uncompressed_size)
                == Option::Some(p.0) && (p.0 is Lz4 ==> p.1@
                == "large column chunks are decompression-sensitive"@) && (p.0 is ZstdLevel3
                ==> p.1@ == "default compression policy prefers ZSTD level 3"@),
            Option::None => spec_classify_codec(compression, uncompressed_size) is None,
        },
{
    let speed_sensitive = uncompressed_size > LARGE_UNCOMPRESSED_COLUMN_BYTES;
    if speed_sensitive && matches!(compression, crate::meta::CompressionKind::Snappy) {
        return Some((CodecRecommendation::Lz4, "large column chunks are decompression-sensitive"));
    }
    let is_target = match compression {
        crate::meta::CompressionKind::ZstdLevel(l) => l == TARGET_ZSTD_LEVEL,
        _ => false,
    };
    if is_target {
        None
    } else {
        Some((CodecRecommendation::ZstdLevel3, "default compression policy prefers ZSTD level 3"))
    }
}

/// Whether a column's value type benefits from the default target
/// codec: byte arrays always, textual integers, nothing else.
pub open spec fn spec_supports_zstd_upgrade(p: crate::meta::PhysicalKind, l: Option<crate::meta::LogicalKind>) -> bool {
    match p {
        crate::meta::PhysicalKind::ByteArray => true,
        crate::meta::PhysicalKind::FixedLenByteArray => true,
        crate::meta::PhysicalKind::Int32 | crate::meta::PhysicalKind::Int64 => match l {
            Option::Some(crate::meta::LogicalKind::StringLogical) => true,
            Option::Some(crate::meta::LogicalKind::JsonLogical) => true,
            Option::Some(crate::meta::LogicalKind::BsonLogical) => true,
            Option::Some(crate::meta::LogicalKind::EnumLogical) => true,
            _ => false,
        },
        _ => false,
    }
}

/// Whether a column's value type benefits from the default target.
pub fn supports_zstd_upgrade_by_type(physical: crate::meta::PhysicalKind, logical: Option<crate::meta::LogicalKind>) -> (r: bool)
    ensures
        r == spec_supports_zstd_upgrade(physical, logical),
{
    match physical {
        crate::meta::PhysicalKind::ByteArray => true,
        crate::meta::PhysicalKind::FixedLenByteArray => true,
        crate::meta::PhysicalKind::Int32 | crate::meta::PhysicalKind::Int64 => match logical {
            Option::Some(crate::meta::LogicalKind::StringLogical) => true,
            Option::Some(crate::meta::LogicalKind::JsonLogical) => true,
            Option::Some(crate::meta::LogicalKind::BsonLogical) => true,
            Option::Some(crate::meta::LogicalKind::EnumLogical) => true,
            _ => false,
        },
        _ => false,
    }
}

/// Whether the logical annotation marks a text column.
pub open spec fn spec_is_text_logical(l: Option<crate::meta::LogicalKind>) -> bool {
    match l {
        Option::Some(crate::meta::LogicalKind::StringLogical) => true,
        Option::Some(crate::meta::LogicalKind::JsonLogical) => true,
        Option::Some(crate::meta::LogicalKind::EnumLogical) => true,
        _ => false,
    }
}

/// Whether the logical annotation marks a text column.
pub fn is_text_logical_type(logical: Option<crate::meta::LogicalKind>) -> (r: bool)
    ensures
        r == spec_is_text_logical(logical),
{
    match logical {
        Option::Some(crate::meta::LogicalKind::StringLogical) => true,
        Option::Some(crate::meta::LogicalKind::JsonLogical) => true,
        Option::Some(crate::meta::LogicalKind::EnumLogical) => true,
        _ => false,
    }
}

/// The many-small-chunks case: a byte-array column on the fast codec,
/// spread over many small chunks, with an aggregate compression ratio
/// in the moderate band eleven-twentieths to seventeen-twentieths.
pub open spec fn spec_prefer_lz4_small_chunks(
    physical: crate::meta::PhysicalKind,
    non_empty_groups: usize,
    total_uncompressed: u64,
    avg_chunk_uncompressed: u64,
    total_compressed: u64,
    sample_compression: Option<crate::meta::CompressionKind>,
) -> bool {
    &&& physical == crate::meta::PhysicalKind::ByteArray
    &&& sample_compression == Option::Some(crate::meta::CompressionKind::Snappy)
    &&& non_empty_groups >= MIN_ROW_GROUPS_FOR_SMALL_CHUNK_LZ4
    &&& total_uncompressed >= MIN_TOTAL_BYTES_FOR_SMALL_CHUNK_LZ4
    &&& 0 < avg_chunk_uncompressed <= MAX_AVG_UNCOMPRESSED_CHUNK_BYTES_FOR_LZ4
    &&& total_compressed > 0
    &&& 20 * total_compressed >= 11 * total_uncompressed
    &&& 20 * total_compressed <= 17 * total_uncompressed
}

/// Whether many small snappy byte-array chunks should move to the
/// faster codec.
pub fn prefer_lz4_for_many_small_snappy_byte_array_chunks(
    physical: crate::meta::PhysicalKind,
    non_empty_groups: usize,
    total_uncompressed: u64,
    avg_chunk_uncompressed: u64,
    total_compressed: u64,
    sample_compression: Option<crate::meta::CompressionKind>,
) -> (r: bool)
    ensures
        r == spec_prefer_lz4_small_chunks(
            physical,
            non_empty_groups,
            total_uncompressed,
            avg_chunk_uncompressed,
            total_compressed,
            sample_compression,
        ),
{
    proof {
        lemma_u64_mul_fits(20, total_compressed);
        lemma_u64_mul_fits(17, total_uncompressed);
    }
    matches!(physical, crate::meta::PhysicalKind::ByteArray) && matches!(
        sample_compression,
        Option::Some(crate::meta::CompressionKind::Snappy),
    ) && non_empty_groups >= MIN_ROW_GROUPS_FOR_SMALL_CHUNK_LZ4 && total_uncompressed
        >= MIN_TOTAL_BYTES_FOR_SMALL_CHUNK_LZ4 && avg_chunk_uncompressed > 0
        && avg_chunk_uncompressed <= MAX_AVG_UNCOMPRESSED_CHUNK_BYTES_FOR_LZ4 && total_compressed
        > 0 && 20 as u128 * total_compressed as u128 >= 11 as u128 * total_uncompressed as u128
        && 20 as u128 * total_compressed as u128 <= 17 as u128 * total_uncompressed as u128
}

/// Adds without exceeding the largest `u64`.
fn sat_add_u64(a: u64, b: u64) -> (r: u64)
    ensures
        r == crate::cardinality::spec_sat64(a + b),
{
    a.saturating_add(b)
}

/// Recommends codec changes per column: large snappy chunks move to
/// the faster codec; everything else moves to the default target
/// level, unless the column is too small, of an unsuitable type, or
/// nearly incompressible.
pub struct CompressionCodecRule;

/// The byte sums and non-empty group count of one column.
pub open spec fn spec_codec_sums(meta: crate::meta::FileMeta, col: int, upto: int) -> (
    int,
    int,
    int,
)
    decreases upto,
{
    if upto <= 0 {
        (0, 0, 0)
    } else {
        let (unc, comp, groups) = spec_codec_sums(meta, col, upto - 1);
        let c = meta.row_groups@[upto - 1].columns@[col];
        (
            unc + if c.uncompressed_size > 0 {
                c.uncompressed_size as int
            } else {
                0int
            },
            comp + if c.compressed_size > 0 {
                c.compressed_size as int
            } else {
                0int
            },
            groups + if c.uncompressed_size > 0 {
                1int
            } else {
                0int
            },
        )
    }
}

/// How many chunks classify toward a recommendation.
pub open spec fn spec_rec_count(meta: crate::meta::FileMeta, col: int, rec: CodecRecommendation, upto: int) -> int
    decreases upto,
{
    if upto <= 0 {
        0
    } else {
        let c = meta.row_groups@[upto - 1].columns@[col];
        spec_rec_count(meta, col, rec, upto - 1) + if spec_classify_codec(
            c.compression,
            c.uncompressed_size,
        ) == Option::<CodecRecommendation>::Some(rec) {
            1int
        } else {
            0int
        }
    }
}

/// The compression of the first chunk with bytes, scanning forward.
pub open spec fn spec_first_compression(meta: crate::meta::FileMeta, col: int, i: int) -> Option<
    crate::meta::CompressionKind,
>
    decreases meta.row_groups@.len() - i,
{
    if i < 0 || i >= meta.row_groups@.len() {
        Option::None
    } else if meta.row_groups@[i].columns@[col].uncompressed_size > 0 {
        Option::Some(meta.row_groups@[i].columns@[col].compression)
    } else {
        spec_first_compression(meta, col, i + 1)
    }
}

/// The sums are non-negative and the group count is bounded.
proof fn lemma_codec_sums_bounds(meta: crate::meta::FileMeta, col: int, upto: int)
    requires
        0 <= upto,
    ensures
        spec_codec_sums(meta, col, upto).0 >= 0,
        spec_codec_sums(meta, col, upto).1 >= 0,
        0 <= spec_codec_sums(meta, col, upto).2 <= upto,
        0 <= spec_rec_count(meta, col, CodecRecommendation::ZstdLevel3, upto) <= upto,
        0 <= spec_rec_count(meta, col, CodecRecommendation::Lz4, upto) <= upto,
    decreases upto,
{
    if upto > 0 {
        lemma_codec_sums_bounds(meta, col, upto - 1);
    }
}

/// The recommendation the codec rule reaches for a column, if any:
/// per-chunk classifications are tallied, the default-target tally is
/// zeroed for small, unsuitable or nearly incompressible columns, the
/// speed tally for small or nearly incompressible text, and the
/// many-small-chunks case overrides toward the faster codec.
pub open spec fn spec_codec_rec(meta: crate::meta::FileMeta, col: int) -> Option<
    CodecRecommendation,
> {
    let n = meta.row_groups@.len() as int;
    let (unc_i, comp_i, groups) = spec_codec_sums(meta, col, n);
    let unc = crate::cardinality::spec_sat64(unc_i);
    let comp = crate::cardinality::spec_sat64(comp_i);
    let ratio_defined = unc > 0 && comp > 0;
    let first_snappy = meta.row_groups@[0].columns@[col].compression
        == crate::meta::CompressionKind::Snappy;
    let zstd_zeroed = unc < MIN_COLUMN_BYTES_FOR_CODEC_CHANGE || !spec_supports_zstd_upgrade(
        meta.columns@[col].physical,
        meta.columns@[col].logical,
    ) || (first_snappy && ratio_defined && 10 * comp >= 9 * unc) || (ratio_defined && 20 * comp
        > 19 * unc);
    let lz4_zeroed = (spec_is_text_logical(meta.columns@[col].logical) && unc
        < MIN_TEXT_BYTES_FOR_LZ4_UPGRADE) || (ratio_defined && 50 * comp > 49 * unc);
    let zstd = if zstd_zeroed {
        0int
    } else {
        spec_rec_count(meta, col, CodecRecommendation::ZstdLevel3, n)
    };
    let lz4 = if lz4_zeroed {
        0int
    } else {
        spec_rec_count(meta, col, CodecRecommendation::Lz4, n)
    };
    let avg: u64 = if groups > 0 {
        (unc as int / groups) as u64
    } else {
        0
    };
    let prefer_small = spec_prefer_lz4_small_chunks(
        meta.columns@[col].physical,
        groups as usize,
        unc,
        avg,
        comp,
        spec_first_compression(meta, col, 0),
    );
    if prefer_small {
        Option::Some(CodecRecommendation::Lz4)
    } else if lz4 > zstd {
        Option::Some(CodecRecommendation::Lz4)
    } else if zstd > 0 {
        Option::Some(CodecRecommendation::ZstdLevel3)
    } else {
        Option::None
    }
}

/// The whole shape of one codec finding for a column.
pub open spec fn spec_codec_diag(meta: crate::meta::FileMeta, column: usize, d: Diagnostic) -> bool {
    &&& column < meta.columns@.len()
    &&& spec_codec_rec(meta, column as int) matches Option::Some(rec) && d.severity == (match rec {
        CodecRecommendation::ZstdLevel3 => Severity::Suggestion,
        CodecRecommendation::Lz4 => Severity::Warning,
    }) && d.prescription@ =~~= seq![
        crate::prescription::DirectiveV::SetColumnCompression(
            meta.columns@[column as int].path@,
            match rec {
                CodecRecommendation::ZstdLevel3 => crate::prescription::Codec::Zstd(
                    TARGET_ZSTD_LEVEL,
                ),
                CodecRecommendation::Lz4 => crate::prescription::Codec::Lz4Raw,
            },
        ),
    ]
    &&& d.rule_name@ == "compression-codec-upgrade"@
    &&& (d.location matches Location::Column { column: c2, path } && c2 == column && path@
        == meta.columns@[column as int].path@)
}

impl CompressionCodecRule {
    /// Decides one column: the finding when a recommendation is
    /// reached, nothing otherwise.
    fn check_column(ctx: &RuleContext, col: usize) -> (r: Option<Diagnostic>)
        requires
            ctx.wf(),
            col < ctx.meta.columns@.len(),
            ctx.meta.row_groups@.len() > 0,
        ensures
            r is Some <==> spec_codec_rec(ctx.meta, col as int) is Some,
            r matches Option::Some(d) ==> spec_codec_diag(ctx.meta, col, d),
    {
        let nrgs = ctx.meta.row_groups.len();
        let physical = ctx.meta.columns[col].physical;
        let logical = ctx.meta.columns[col].logical;
        let mut total_unc: u64 = 0;
        let mut total_comp: u64 = 0;
        let mut non_empty: usize = 0;
        let mut zstd_groups: usize = 0;
        let mut lz4_groups: usize = 0;
        let mut sample_compression: Option<crate::meta::CompressionKind> = None;
        let mut g: usize = 0;
        while g < nrgs
            invariant
                0 <= g <= nrgs,
                col < ctx.meta.columns@.len(),
                nrgs == ctx.meta.row_groups@.len(),
                ctx.wf(),
                total_unc == crate::cardinality::spec_sat64(
                    spec_codec_sums(ctx.meta, col as int, g as int).0,
                ),
                total_comp == crate::cardinality::spec_sat64(
                    spec_codec_sums(ctx.meta, col as int, g as int).1,
                ),
                non_empty == spec_codec_sums(ctx.meta, col as int, g as int).2,
                zstd_groups == spec_rec_count(
                    ctx.meta,
                    col as int,
                    CodecRecommendation::ZstdLevel3,
                    g as int,
                ),
                lz4_groups == spec_rec_count(
                    ctx.meta,
                    col as int,
                    CodecRecommendation::Lz4,
                    g as int,
                ),
                match sample_compression {
                    Option::Some(x) => spec_first_compression(ctx.meta, col as int, 0)
                        == Option::Some(x),
                    Option::None => spec_first_compression(ctx.meta, col as int, 0)
                        == spec_first_compression(ctx.meta, col as int, g as int),
                },
            decreases nrgs - g,
        {
            proof {
                lemma_codec_sums_bounds(ctx.meta, col as int, g as int);
            }
            let c = &ctx.meta.row_groups[g].columns[col];
            if c.uncompressed_size > 0 {
                total_unc = sat_add_u64(total_unc, c.uncompressed_size as u64);
                non_empty += 1;
                if sample_compression.is_none() {
                    sample_compression = Some(c.compression);
                }
            }
            if c.compressed_size > 0 {
                total_comp = sat_add_u64(total_comp, c.compressed_size as u64);
            }
            match classify_codec_issue(c.compression, c.uncompressed_size) {
                Option::Some((rec, _reason)) => {
                    match rec {
                        CodecRecommendation::ZstdLevel3 => {
                            zstd_groups += 1;
                        },
                        CodecRecommendation::Lz4 => {
                            lz4_groups += 1;
                        },
                    }
                },
                Option::None => {},
            }
            g += 1;
        }
        proof {
            lemma_codec_sums_bounds(ctx.meta, col as int, nrgs as int);
            lemma_u64_mul_fits(50, total_comp);
            lemma_u64_mul_fits(50, total_unc);
        }
        let ratio_defined = total_unc > 0 && total_comp > 0;
        let first_snappy = matches!(
            ctx.meta.row_groups[0].columns[col].compression,
            crate::meta::CompressionKind::Snappy,
        );
        let zstd_zeroed = total_unc < MIN_COLUMN_BYTES_FOR_CODEC_CHANGE
            || !supports_zstd_upgrade_by_type(physical, logical) || (first_snappy && ratio_defined
            && 10 as u128 * total_comp as u128 >= 9 as u128 * total_unc as u128) || (ratio_defined
            && 20 as u128 * total_comp as u128 > 19 as u128 * total_unc as u128);
        let lz4_zeroed = (is_text_logical_type(logical) && total_unc
            < MIN_TEXT_BYTES_FOR_LZ4_UPGRADE) || (ratio_defined && 50 as u128 * total_comp as u128
            > 49 as u128 * total_unc as u128);
        let zstd = if zstd_zeroed {
            0
        } else {
            zstd_groups
        };
        let lz4 = if lz4_zeroed {
            0
        } else {
            lz4_groups
        };
        let avg_chunk: u64 = if non_empty > 0 {
            total_unc / (non_empty as u64)
        } else {
            0
        };
        let prefer_small = prefer_lz4_for_many_small_snappy_byte_array_chunks(
            physical,
            non_empty,
            total_unc,
            avg_chunk,
            total_comp,
            sample_compression,
        );
        let chosen: Option<(CodecRecommendation, usize, &'static str)> = if prefer_small {
            Some(
                (
                    CodecRecommendation::Lz4,
                    non_empty,
                    "many small SNAPPY byte-array chunks are scan/decompression-sensitive",
                ),
            )
        } else if lz4 > zstd {
            Some((CodecRecommendation::Lz4, lz4, "large column chunks are decompression-sensitive"))
        } else if zstd > 0 {
            Some(
                (
                    CodecRecommendation::ZstdLevel3,
                    zstd,
                    "default compression policy prefers ZSTD level 3",
                ),
            )
        } else {
            None
        };
        proof {
            assert((chosen is Some) == (spec_codec_rec(ctx.meta, col as int) is Some));
        }
        match chosen {
            Option::Some((rec, problem_groups, reason)) => {
                proof {
                    assert(spec_codec_rec(ctx.meta, col as int) == Option::Some(rec));
                }
                let path = ctx.meta.columns[col].path.dup();
                let mut prescription = Prescription::new();
                prescription.push(Directive::SetColumnCompression(path.dup(), rec.target()));
                let mut msg = "codec issue in ".to_owned();
                msg.append(fraction_text(problem_groups, nrgs).as_str());
                msg.append(" row groups; ");
                msg.append(reason);
                msg.append("; ");
                msg.append(rec.advice());
                let diag = Diagnostic {
                    rule_name: "compression-codec-upgrade".to_owned(),
                    severity: match rec {
                        CodecRecommendation::ZstdLevel3 => Severity::Suggestion,
                        CodecRecommendation::Lz4 => Severity::Warning,
                    },
                    location: Location::Column { column: col, path },
                    message: msg,
                    prescription,
                };
                proof {
                    assert(spec_codec_diag(ctx.meta, col, diag));
                }
                Some(diag)
            },
            Option::None => None,
        }
    }

    /// One finding per column a recommendation is reached for,
    /// prescribing the recommended codec -- and none for the rest.
    #[verifier::spinoff_prover]
    pub fn run(ctx: &RuleContext) -> (r: Vec<Diagnostic>)
        requires
            ctx.wf(),
        ensures
            forall|k: int|
                0 <= k < r@.len() ==> ((#[trigger] r@[k]).location matches Location::Column {
                    column,
                    ..
                } && spec_codec_diag(ctx.meta, column, r@[k])),
            ctx.meta.row_groups@.len() > 0 ==> forall|c: usize|
                c < ctx.meta.columns@.len() && spec_codec_rec(ctx.meta, c as int) is Some
                    ==> exists|k: int|
                    0 <= k < r@.len() && ((#[trigger] r@[k]).location matches Location::Column {
                        column,
                        ..
                    } && column == c),
    {
        let mut out: Vec<Diagnostic> = Vec::new();
        let nrgs = ctx.meta.row_groups.len();
        if nrgs == 0 {
            return out;
        }
        let ncols = ctx.meta.columns.len();
        let mut col: usize = 0;
        while col < ncols
            invariant
                0 <= col <= ncols,
                ncols == ctx.meta.columns@.len(),
                nrgs == ctx.meta.row_groups@.len(),
                nrgs > 0,
                ctx.wf(),
                forall|k: int|
                    0 <= k < out@.len() ==> ((#[trigger] out@[k]).location matches Location::Column {
                        column,
                        ..
                    } && spec_codec_diag(ctx.meta, column, out@[k])),
                forall|c: usize|
                    c < col && spec_codec_rec(ctx.meta, c as int) is Some ==> exists|k: int|
                        0 <= k < out@.len() && ((#[trigger] out@[k]).location
                            matches Location::Column { column, .. } && column == c),
            decreases ncols - col,
        {
            let found = Self::check_column(ctx, col);
            let ghost pre = out@;
            let ghost fired = found is Some;
            match found {
                Option::Some(diag) => {
                    out.push(diag);
                },
                Option::None => {},
            }
            proof {
                assert forall|c: usize|
                    c < col + 1 && spec_codec_rec(ctx.meta, c as int) is Some implies exists|k: int|
                    0 <= k < out@.len() && ((#[trigger] out@[k]).location matches Location::Column {
                        column,
                        ..
                    } && column == c) by {
                    if c < col {
                        let k0 = choose|k0: int|
                            0 <= k0 < pre.len() && ((#[trigger] pre[k0]).location
                                matches Location::Column { column, .. } && column == c);
                        assert(out@[k0] == pre[k0]);
                    } else {
                        assert(fired);
                        assert(out@[pre.len() as int].location matches Location::Column {
                            column,
                            ..
                        } && column == col);
                    }
                }
            }
            col += 1;
        }
        out
    }
}

impl Rule for CompressionCodecRule {
    fn name(&self) -> (r: String) {
        "compression-codec-upgrade".to_owned()
    }

    fn check(&self, ctx: &RuleContext) -> (r: Vec<Diagnostic>) {
        Self::run(ctx)
    }
}

/// Lower-cases an ASCII letter; leaves everything else alone.
pub open spec fn spec_lower(c: char) -> char {
    if 'A' <= c && c <= 'Z' {
        ((c as u8) + 32) as char
    } else {
        c
    }
}

/// Whether the lower-cased text matches `pat` at position `i`.
pub open spec fn spec_match_at(s: Seq<char>, pat: Seq<char>, i: int) -> bool {
    forall|j: int| 0 <= j < pat.len() ==> spec_lower(s[i + j]) == #[trigger] pat[j]
}

/// Whether the lower-cased text has `pat` as a substring.
pub open spec fn spec_contains_lower(s: Seq<char>, pat: Seq<char>) -> bool {
    exists|i: int| 0 <= i && i + pat.len() <= s.len() && #[trigger] spec_match_at(s, pat, i)
}

/// Whether the text, lower-cased, contains the (already lower-case)
/// pattern.
pub fn contains_lower(s: &str, pat: &str) -> (r: bool)
    ensures
        r == spec_contains_lower(s@, pat@),
{
    let n = s.unicode_len();
    let m = pat.unicode_len();
    if m > n {
        return false;
    }
    let mut i: usize = 0;
    while i <= n - m
        invariant
            m <= n,
            n == s@.len(),
            m == pat@.len(),
            0 <= i <= n - m + 1,
            forall|i0: int| 0 <= i0 < i ==> !spec_match_at(s@, pat@, i0),
        decreases n - m - i + 1,
    {
        let mut j: usize = 0;
        let mut all = true;
        while j < m
            invariant
                0 <= j <= m,
                m <= n,
                i <= n - m,
                n == s@.len(),
                m == pat@.len(),
                all == (forall|j0: int| 0 <= j0 < j ==> spec_lower(s@[i + j0]) == #[trigger] pat@[j0]),
            decreases m - j,
        {
            let c = s.get_char(i + j);
            let lc: char = if 'A' <= c && c <= 'Z' {
                ((c as u8) + 32) as char
            } else {
                c
            };
            let p = pat.get_char(j);
            if lc != p {
                all = false;
            }
            proof {
                if !all {
                } else {
                    assert(forall|j0: int|
                        0 <= j0 < j + 1 ==> spec_lower(s@[i + j0]) == #[trigger] pat@[j0]);
                }
            }
            j += 1;
        }
        if all {
            proof {
                assert(spec_match_at(s@, pat@, i as int));
                assert(spec_contains_lower(s@, pat@));
            }
            return true;
        }
        proof {
            assert(!spec_match_at(s@, pat@, i as int));
        }
        i += 1;
    }
    false
}

/// Aggregate size and spread of one byte-array column.
#[derive(Debug, Clone, Copy, PartialEq, Eq, Structural)]
pub struct StringColumnSummary {
    pub total_uncompressed: u64,
    pub total_compressed: u64,
    pub non_empty_groups: usize,
}

impl StringColumnSummary {
    /// Average uncompressed chunk size over non-empty row groups.
    pub fn avg_chunk_uncompressed(self) -> (r: u64)
        ensures
            r == if self.non_empty_groups == 0 {
                0int
            } else {
                self.total_uncompressed as int / self.non_empty_groups as int
            },
    {
        if self.non_empty_groups == 0 {
            0
        } else {
            self.total_uncompressed / (self.non_empty_groups as u64)
        }
    }
}

/// Whether a byte-array column looks textual: a text annotation, or a
/// path that does not look like raw bytes, an embedding or an image.
pub open spec fn spec_looks_text(l: Option<crate::meta::LogicalKind>, path: Seq<char>) -> bool {
    ||| match l {
        Option::Some(crate::meta::LogicalKind::StringLogical) => true,
        Option::Some(crate::meta::LogicalKind::JsonLogical) => true,
        Option::Some(crate::meta::LogicalKind::EnumLogical) => true,
        Option::Some(crate::meta::LogicalKind::BsonLogical) => true,
        _ => false,
    }
    ||| !(spec_contains_lower(path, "bytes"@) || spec_contains_lower(path, "embedding"@)
        || spec_contains_lower(path, "image"@))
}

/// Whether a byte-array column looks textual.
pub fn looks_text_column(logical: Option<crate::meta::LogicalKind>, path: &str) -> (r: bool)
    ensures
        r == spec_looks_text(logical, path@),
{
    let annotated = match logical {
        Option::Some(crate::meta::LogicalKind::StringLogical) => true,
        Option::Some(crate::meta::LogicalKind::JsonLogical) => true,
        Option::Some(crate::meta::LogicalKind::EnumLogical) => true,
        Option::Some(crate::meta::LogicalKind::BsonLogical) => true,
        _ => false,
    };
    if annotated {
        return true;
    }
    !(contains_lower(path, "bytes") || contains_lower(path, "embedding") || contains_lower(
        path,
        "image",
    ))
}

/// The two profiles that favor a length-prefixed byte-array encoding:
/// a moderate number of large chunks with a mid compressibility, or
/// many small chunks with a higher one.
pub open spec fn spec_prefer_dlba(
    s: StringColumnSummary,
    l: Option<crate::meta::LogicalKind>,
    path: Seq<char>,
    has_plain: bool,
    has_dictionary: bool,
    already_delta: bool,
) -> bool {
    &&& !already_delta
    &&& has_plain
    &&& has_dictionary
    &&& spec_looks_text(l, path)
    &&& s.total_uncompressed > 0
    &&& s.total_compressed > 0
    &&& {
        let avg = if s.non_empty_groups == 0 {
            0int
        } else {
            s.total_uncompressed as int / s.non_empty_groups as int
        };
        ||| (s.total_uncompressed >= 33554432 && 2 <= s.non_empty_groups <= 32 && avg >= 4194304
            && 20 * s.total_compressed >= 7 * s.total_uncompressed && 4 * s.total_compressed <= 3
            * s.total_uncompressed)
        ||| (s.total_uncompressed >= 67108864 && s.non_empty_groups >= 64 && 0 < avg <= 1048576
            && 20 * s.total_compressed >= 11 * s.total_uncompressed && 20 * s.total_compressed
            <= 17 * s.total_uncompressed)
    }
}

/// Whether a text column should move to the length-prefixed byte-array
/// encoding with the dictionary off.
pub fn should_prefer_delta_length_byte_array(
    summary: StringColumnSummary,
    logical: Option<crate::meta::LogicalKind>,
    path: &str,
    has_plain: bool,
    has_dictionary: bool,
    already_delta_byte_array: bool,
) -> (r: bool)
    ensures
        r == spec_prefer_dlba(
            summary,
            logical,
            path@,
            has_plain,
            has_dictionary,
            already_delta_byte_array,
        ),
{
    if already_delta_byte_array || !has_plain || !has_dictionary {
        return false;
    }
    if !looks_text_column(logical, path) {
        return false;
    }
    if summary.total_uncompressed == 0 || summary.total_compressed == 0 {
        return false;
    }
    proof {
        lemma_u64_mul_fits(20, summary.total_compressed);
        lemma_u64_mul_fits(20, summary.total_uncompressed);
    }
    let avg = summary.avg_chunk_uncompressed();
    let tc = summary.total_compressed as u128;
    let tu = summary.total_uncompressed as u128;
    let large_chunks = summary.total_uncompressed >= 33554432 && summary.non_empty_groups >= 2
        && summary.non_empty_groups <= 32 && avg >= 4194304 && 20 * tc >= 7 * tu && 4 * tc <= 3
        * tu;
    let small_chunks = summary.total_uncompressed >= 67108864 && summary.non_empty_groups >= 64
        && avg > 0 && avg <= 1048576 && 20 * tc >= 11 * tu && 20 * tc <= 17 * tu;
    large_chunks || small_chunks
}

/// Recommends the length-prefixed byte-array encoding for text columns
/// whose dictionary and plain pages fit one of two size/ratio profiles.
pub struct StringEncodingRule;

/// The byte sums and non-empty group count of one byte-array column
/// over the first `upto` row groups.
pub open spec fn spec_string_sums(meta: crate::meta::FileMeta, col: int, upto: int) -> (
    int,
    int,
    int,
)
    decreases upto,
{
    if upto <= 0 {
        (0, 0, 0)
    } else {
        let (unc, comp, groups) = spec_string_sums(meta, col, upto - 1);
        let c = meta.row_groups@[upto - 1].columns@[col];
        (
            unc + if c.uncompressed_size > 0 {
                c.uncompressed_size as int
            } else {
                0int
            },
            comp + if c.compressed_size > 0 {
                c.compressed_size as int
            } else {
                0int
            },
            groups + if c.uncompressed_size > 0 {
                1int
            } else {
                0int
            },
        )
    }
}

/// The sums are non-negative and the group count is bounded.
proof fn lemma_string_sums_bounds(meta: crate::meta::FileMeta, col: int, upto: int)
    requires
        0 <= upto,
    ensures
        spec_string_sums(meta, col, upto).0 >= 0,
        spec_string_sums(meta, col, upto).1 >= 0,
        0 <= spec_string_sums(meta, col, upto).2 <= upto,
    decreases upto,
{
    if upto > 0 {
        lemma_string_sums_bounds(meta, col, upto - 1);
    }
}

/// The saturated summary the rule evaluates for a column.
pub open spec fn spec_string_summary(meta: crate::meta::FileMeta, col: int) -> StringColumnSummary {
    let (unc, comp, groups) = spec_string_sums(meta, col, meta.row_groups@.len() as int);
    StringColumnSummary {
        total_uncompressed: crate::cardinality::spec_sat64(unc),
        total_compressed: crate::cardinality::spec_sat64(comp),
        non_empty_groups: groups as usize,
    }
}

/// Whether the encoding recommendation applies to a column: a
/// byte-array column with both dictionary and plain pages, not yet on a
/// delta byte-array encoding, matching one of the two profiles.
pub open spec fn spec_string_enc_fires(meta: crate::meta::FileMeta, col: int) -> bool {
    &&& meta.columns@[col].physical == crate::meta::PhysicalKind::ByteArray
    &&& spec_prefer_dlba(
        spec_string_summary(meta, col),
        meta.columns@[col].logical,
        path_text(meta.columns@[col].path@),
        exists|g: int|
            0 <= g < meta.row_groups@.len() && crate::meta::spec_has_encoding(
                (#[trigger] meta.row_groups@[g]).columns@[col],
                |e: crate::meta::EncodingKind| e == crate::meta::EncodingKind::Plain,
            ),
        exists|g: int|
            0 <= g < meta.row_groups@.len() && crate::meta::spec_has_encoding(
                (#[trigger] meta.row_groups@[g]).columns@[col],
                |e: crate::meta::EncodingKind| crate::meta::spec_is_dictionary_encoding(e),
            ),
        exists|g: int|
            0 <= g < meta.row_groups@.len() && (crate::meta::spec_has_encoding(
                (#[trigger] meta.row_groups@[g]).columns@[col],
                |e: crate::meta::EncodingKind| e == crate::meta::EncodingKind::DeltaByteArray,
            ) || crate::meta::spec_has_encoding(
                meta.row_groups@[g].columns@[col],
                |e: crate::meta::EncodingKind| e == crate::meta::EncodingKind::DeltaLengthByteArray,
            )),
    )
}

/// The whole shape of one string-encoding finding for a column.
pub open spec fn spec_string_enc_diag(meta: crate::meta::FileMeta, column: usize, d: Diagnostic) -> bool {
    &&& column < meta.columns@.len()
    &&& spec_string_enc_fires(meta, column as int)
    &&& d.severity == Severity::Suggestion
    &&& d.rule_name@ == "string-byte-array-encoding"@
    &&& (d.location matches Location::Column { column: c2, path } && c2 == column && path@
        == meta.columns@[column as int].path@)
    &&& d.prescription@ =~~= seq![
        crate::prescription::DirectiveV::SetColumnDictionary(
            meta.columns@[column as int].path@,
            false,
        ),
        crate::prescription::DirectiveV::SetColumnEncoding(
            meta.columns@[column as int].path@,
            crate::prescription::DataEncoding::DeltaLengthByteArray,
        ),
    ]
}

impl StringEncodingRule {
    /// Decides one column: the finding when the recommendation
    /// applies, nothing otherwise.
    fn check_column(ctx: &RuleContext, col: usize) -> (r: Option<Diagnostic>)
        requires
            ctx.wf(),
            col < ctx.meta.columns@.len(),
            ctx.meta.row_groups@.len() > 0,
        ensures
            r is Some <==> spec_string_enc_fires(ctx.meta, col as int),
            r matches Option::Some(d) ==> spec_string_enc_diag(ctx.meta, col, d),
    {
        let nrgs = ctx.meta.row_groups.len();
        if !matches!(ctx.meta.columns[col].physical, crate::meta::PhysicalKind::ByteArray) {
            return None;
        }
        let logical = ctx.meta.columns[col].logical;
        let mut unc: u64 = 0;
        let mut comp: u64 = 0;
        let mut groups: usize = 0;
        let mut has_plain = false;
        let mut has_dictionary = false;
        let mut already_delta = false;
        let mut g: usize = 0;
        while g < nrgs
            invariant
                0 <= g <= nrgs,
                col < ctx.meta.columns@.len(),
                nrgs == ctx.meta.row_groups@.len(),
                ctx.wf(),
                unc == crate::cardinality::spec_sat64(
                    spec_string_sums(ctx.meta, col as int, g as int).0,
                ),
                comp == crate::cardinality::spec_sat64(
                    spec_string_sums(ctx.meta, col as int, g as int).1,
                ),
                groups == spec_string_sums(ctx.meta, col as int, g as int).2,
                has_plain == exists|h: int|
                    0 <= h < g && crate::meta::spec_has_encoding(
                        (#[trigger] ctx.meta.row_groups@[h]).columns@[col as int],
                        |e: crate::meta::EncodingKind| e == crate::meta::EncodingKind::Plain,
                    ),
                has_dictionary == exists|h: int|
                    0 <= h < g && crate::meta::spec_has_encoding(
                        (#[trigger] ctx.meta.row_groups@[h]).columns@[col as int],
                        |e: crate::meta::EncodingKind| crate::meta::spec_is_dictionary_encoding(e),
                    ),
                already_delta == exists|h: int|
                    0 <= h < g && (crate::meta::spec_has_encoding(
                        (#[trigger] ctx.meta.row_groups@[h]).columns@[col as int],
                        |e: crate::meta::EncodingKind| e
                            == crate::meta::EncodingKind::DeltaByteArray,
                    ) || crate::meta::spec_has_encoding(
                        ctx.meta.row_groups@[h].columns@[col as int],
                        |e: crate::meta::EncodingKind| e
                            == crate::meta::EncodingKind::DeltaLengthByteArray,
                    )),
            decreases nrgs - g,
        {
            proof {
                lemma_string_sums_bounds(ctx.meta, col as int, g as int);
            }
            let c = &ctx.meta.row_groups[g].columns[col];
            if c.uncompressed_size > 0 {
                unc = sat_add_u64(unc, c.uncompressed_size as u64);
                groups += 1;
            }
            if c.compressed_size > 0 {
                comp = sat_add_u64(comp, c.compressed_size as u64);
            }
            if crate::meta::has_plain_encoding(c) {
                proof {
                    assert(crate::meta::spec_has_encoding(
                        ctx.meta.row_groups@[g as int].columns@[col as int],
                        |e: crate::meta::EncodingKind| e == crate::meta::EncodingKind::Plain,
                    ));
                }
                has_plain = true;
            }
            if crate::meta::has_dictionary_encoding(c) {
                proof {
                    assert(crate::meta::spec_has_encoding(
                        ctx.meta.row_groups@[g as int].columns@[col as int],
                        |e: crate::meta::EncodingKind| crate::meta::spec_is_dictionary_encoding(e),
                    ));
                }
                has_dictionary = true;
            }
            if crate::meta::has_encoding(c, crate::meta::EncodingKind::DeltaByteArray)
                || crate::meta::has_encoding(
                c,
                crate::meta::EncodingKind::DeltaLengthByteArray,
            ) {
                already_delta = true;
            }
            g += 1;
        }
        proof {
            lemma_string_sums_bounds(ctx.meta, col as int, nrgs as int);
        }
        let summary = StringColumnSummary {
            total_uncompressed: unc,
            total_compressed: comp,
            non_empty_groups: groups,
        };
        proof {
            assert(summary == spec_string_summary(ctx.meta, col as int));
        }
        let path = ctx.meta.columns[col].path.dup();
        let path_str = path.text();
        if !should_prefer_delta_length_byte_array(
            summary,
            logical,
            path_str.as_str(),
            has_plain,
            has_dictionary,
            already_delta,
        ) {
            return None;
        }
        let mut prescription = Prescription::new();
        prescription.push(Directive::SetColumnDictionary(path.dup(), false));
        prescription.push(
            Directive::SetColumnEncoding(
                path.dup(),
                crate::prescription::DataEncoding::DeltaLengthByteArray,
            ),
        );
        let mut msg = "text column across ".to_owned();
        msg.append(fraction_text(groups, nrgs).as_str());
        msg.append(
            " row groups uses dictionary/plain pages; try DELTA_LENGTH_BYTE_ARRAY and disable dictionary",
        );
        let diag = Diagnostic {
            rule_name: "string-byte-array-encoding".to_owned(),
            severity: Severity::Suggestion,
            location: Location::Column { column: col, path },
            message: msg,
            prescription,
        };
        proof {
            assert(spec_string_enc_diag(ctx.meta, col, diag));
        }
        Some(diag)
    }
}

impl Rule for StringEncodingRule {
    fn name(&self) -> (r: String) {
        "string-byte-array-encoding".to_owned()
    }

    /// One suggestion per column the recommendation applies to,
    /// prescribing the delta-length encoding with the dictionary off --
    /// and none for the rest.
    fn check(&self, ctx: &RuleContext) -> (r: Vec<Diagnostic>) {
        Self::run(ctx)
    }
}

impl StringEncodingRule {
    /// One suggestion per column the recommendation applies to, and
    /// none for the rest.
    #[verifier::spinoff_prover]
    pub fn run(ctx: &RuleContext) -> (r: Vec<Diagnostic>)
        requires
            ctx.wf(),
        ensures
            forall|k: int|
                0 <= k < r@.len() ==> ((#[trigger] r@[k]).location matches Location::Column {
                    column,
                    ..
                } && spec_string_enc_diag(ctx.meta, column, r@[k])),
            ctx.meta.row_groups@.len() > 0 ==> forall|c: usize|
                c < ctx.meta.columns@.len() && spec_string_enc_fires(ctx.meta, c as int)
                    ==> exists|k: int|
                    0 <= k < r@.len() && ((#[trigger] r@[k]).location matches Location::Column {
                        column,
                        ..
                    } && column == c),
    {
        let mut out: Vec<Diagnostic> = Vec::new();
        let nrgs = ctx.meta.row_groups.len();
        if nrgs == 0 {
            return out;
        }
        let ncols = ctx.meta.columns.len();
        let mut col: usize = 0;
        while col < ncols
            invariant
                0 <= col <= ncols,
                ncols == ctx.meta.columns@.len(),
                nrgs == ctx.meta.row_groups@.len(),
                nrgs > 0,
                ctx.wf(),
                forall|k: int|
                    0 <= k < out@.len() ==> ((#[trigger] out@[k]).location matches Location::Column {
                        column,
                        ..
                    } && spec_string_enc_diag(ctx.meta, column, out@[k])),
                forall|c: usize|
                    c < col && spec_string_enc_fires(ctx.meta, c as int) ==> exists|k: int|
                        0 <= k < out@.len() && ((#[trigger] out@[k]).location
                            matches Location::Column { column, .. } && column == c),
            decreases ncols - col,
        {
            let found = Self::check_column(ctx, col);
            let ghost pre = out@;
            let ghost fired = found is Some;
            match found {
                Option::Some(diag) => {
                    out.push(diag);
                },
                Option::None => {},
            }
            proof {
                assert forall|c: usize|
                    c < col + 1 && spec_string_enc_fires(ctx.meta, c as int) implies exists|k: int|
                    0 <= k < out@.len() && ((#[trigger] out@[k]).location matches Location::Column {
                        column,
                        ..
                    } && column == c) by {
                    if c < col {
                        let k0 = choose|k0: int|
                            0 <= k0 < pre.len() && ((#[trigger] pre[k0]).location
                                matches Location::Column { column, .. } && column == c);
                        assert(out@[k0] == pre[k0]);
                    } else {
                        assert(fired);
                        assert(out@[pre.len() as int].location matches Location::Column {
                            column,
                            ..
                        } && column == col);
                    }
                }
            }
            col += 1;
        }
        out
    }
}

/// Flags columns whose data is nearly incompressible (aggregate ratio
/// above nineteen-twentieths) and recommends storing them uncompressed.
pub struct CompressionRatioRule;

/// Whether a chunk counts toward the compression ratio: it is stored
/// under some codec and holds bytes.
pub open spec fn spec_ratio_counts(c: crate::meta::ChunkMeta) -> bool {
    c.compression != crate::meta::CompressionKind::Uncompressed && c.uncompressed_size > 0
}

/// The compressed and uncompressed byte sums of the chunks that count,
/// over the first `upto` row groups.
pub open spec fn spec_ratio_sums(meta: crate::meta::FileMeta, col: int, upto: int) -> (int, int)
    decreases upto,
{
    if upto <= 0 {
        (0, 0)
    } else {
        let (cs, us) = spec_ratio_sums(meta, col, upto - 1);
        let c = meta.row_groups@[upto - 1].columns@[col];
        if spec_ratio_counts(c) {
            (
                cs + if c.compressed_size > 0 {
                    c.compressed_size as int
                } else {
                    0int
                },
                us + c.uncompressed_size as int,
            )
        } else {
            (cs, us)
        }
    }
}

/// Whether a column's aggregate ratio marks it nearly incompressible:
/// compressed over uncompressed above nineteen-twentieths, on the
/// saturated sums the scan computes.
pub open spec fn spec_nearly_incompressible(meta: crate::meta::FileMeta, col: int) -> bool {
    let (cs, us) = spec_ratio_sums(meta, col, meta.row_groups@.len() as int);
    let css = crate::cardinality::spec_sat64(cs);
    let uss = crate::cardinality::spec_sat64(us);
    uss > 0 && 20 * css > 19 * uss
}

impl CompressionRatioRule {
    /// One warning per nearly incompressible column, prescribing
    /// uncompressed storage — and none for the rest.
    pub fn run(ctx: &RuleContext) -> (r: Vec<Diagnostic>)
        requires
            ctx.wf(),
        ensures
            forall|k: int|
                0 <= k < r@.len() ==> ((#[trigger] r@[k]).location matches Location::Column {
                    column,
                    path,
                } && column < ctx.meta.columns@.len() && spec_nearly_incompressible(
                    ctx.meta,
                    column as int,
                ) && path@ == ctx.meta.columns@[column as int].path@ && r@[k].severity
                    == Severity::Warning && r@[k].rule_name@ == "low-compression-ratio"@
                    && r@[k].prescription@ =~~= seq![
                    crate::prescription::DirectiveV::SetColumnCompression(
                        ctx.meta.columns@[column as int].path@,
                        crate::prescription::Codec::Uncompressed,
                    ),
                ]),
            ctx.meta.row_groups@.len() > 0 ==> forall|c: usize|
                c < ctx.meta.columns@.len() && spec_nearly_incompressible(ctx.meta, c as int)
                    ==> exists|k: int|
                    0 <= k < r@.len() && ((#[trigger] r@[k]).location matches Location::Column {
                        column,
                        ..
                    } && column == c),
    {
        let mut out: Vec<Diagnostic> = Vec::new();
        let nrgs = ctx.meta.row_groups.len();
        if nrgs == 0 {
            return out;
        }
        let ncols = ctx.meta.columns.len();
        let mut col: usize = 0;
        while col < ncols
            invariant
                0 <= col <= ncols,
                ncols == ctx.meta.columns@.len(),
                nrgs == ctx.meta.row_groups@.len(),
                nrgs > 0,
                ctx.wf(),
                forall|k: int|
                    0 <= k < out@.len() ==> ((#[trigger] out@[k]).location matches Location::Column {
                        column,
                        path,
                    } && column < ncols && spec_nearly_incompressible(ctx.meta, column as int)
                        && path@ == ctx.meta.columns@[column as int].path@ && out@[k].severity
                        == Severity::Warning && out@[k].rule_name@ == "low-compression-ratio"@
                        && out@[k].prescription@ =~~= seq![
                        crate::prescription::DirectiveV::SetColumnCompression(
                            ctx.meta.columns@[column as int].path@,
                            crate::prescription::Codec::Uncompressed,
                        ),
                    ]),
                forall|c: usize|
                    c < col && spec_nearly_incompressible(ctx.meta, c as int) ==> exists|k: int|
                        0 <= k < out@.len() && ((#[trigger] out@[k]).location
                            matches Location::Column { column, .. } && column == c),
            decreases ncols - col,
        {
            let mut comp_sum: u64 = 0;
            let mut unc_sum: u64 = 0;
            let mut compressed_groups: usize = 0;
            let mut g: usize = 0;
            while g < nrgs
                invariant
                    0 <= g <= nrgs,
                    col < ncols,
                    ncols == ctx.meta.columns@.len(),
                    nrgs == ctx.meta.row_groups@.len(),
                    ctx.wf(),
                    compressed_groups <= g,
                    comp_sum == crate::cardinality::spec_sat64(
                        spec_ratio_sums(ctx.meta, col as int, g as int).0,
                    ),
                    unc_sum == crate::cardinality::spec_sat64(
                        spec_ratio_sums(ctx.meta, col as int, g as int).1,
                    ),
                decreases nrgs - g,
            {
                proof {
                    lemma_ratio_sums_nonneg(ctx.meta, col as int, g as int);
                }
                let c = &ctx.meta.row_groups[g].columns[col];
                if !matches!(c.compression, crate::meta::CompressionKind::Uncompressed)
                    && c.uncompressed_size > 0 {
                    if c.compressed_size > 0 {
                        comp_sum = sat_add_u64(comp_sum, c.compressed_size as u64);
                    }
                    unc_sum = sat_add_u64(unc_sum, c.uncompressed_size as u64);
                    compressed_groups += 1;
                }
                g += 1;
            }
            proof {
                lemma_u64_mul_fits(20, comp_sum);
                lemma_u64_mul_fits(20, unc_sum);
            }
            let fires = unc_sum > 0 && 20 as u128 * comp_sum as u128 > 19 as u128 * unc_sum
                as u128;
            proof {
                assert(fires == spec_nearly_incompressible(ctx.meta, col as int));
            }
            let ghost pre = out@;
            if fires {
                let path = ctx.meta.columns[col].path.dup();
                let mut prescription = Prescription::new();
                prescription.push(
                    Directive::SetColumnCompression(
                        path.dup(),
                        crate::prescription::Codec::Uncompressed,
                    ),
                );
                let mut msg = "aggregated compression ratio is above 0.95 across ".to_owned();
                msg.append(fraction_text(compressed_groups, nrgs).as_str());
                msg.append(" row groups; data is nearly incompressible");
                out.push(
                    Diagnostic {
                        rule_name: "low-compression-ratio".to_owned(),
                        severity: Severity::Warning,
                        location: Location::Column { column: col, path },
                        message: msg,
                        prescription,
                    },
                );
            }
            proof {
                assert forall|c: usize|
                    c < col + 1 && spec_nearly_incompressible(ctx.meta, c as int) implies exists|
                    k: int,
                |
                    0 <= k < out@.len() && ((#[trigger] out@[k]).location matches Location::Column {
                        column,
                        ..
                    } && column == c) by {
                    if c < col {
                        let k0 = choose|k0: int|
                            0 <= k0 < pre.len() && ((#[trigger] pre[k0]).location
                                matches Location::Column { column, .. } && column == c);
                        assert(out@[k0] == pre[k0]);
                    } else {
                        assert(fires);
                        assert(out@[pre.len() as int].location matches Location::Column {
                            column,
                            ..
                        } && column == col);
                    }
                }
            }
            col += 1;
        }
        out
    }
}

/// The ratio sums are non-negative.
proof fn lemma_ratio_sums_nonneg(meta: crate::meta::FileMeta, col: int, upto: int)
    requires
        0 <= upto,
    ensures
        spec_ratio_sums(meta, col, upto).0 >= 0,
        spec_ratio_sums(meta, col, upto).1 >= 0,
    decreases upto,
{
    if upto > 0 {
        lemma_ratio_sums_nonneg(meta, col, upto - 1);
    }
}

impl Rule for CompressionRatioRule {
    fn name(&self) -> (r: String) {
        "low-compression-ratio".to_owned()
    }

    fn check(&self, ctx: &RuleContext) -> (r: Vec<Diagnostic>) {
        Self::run(ctx)
    }
}

/// Flags columns missing a page-level column index in any row group,
/// recommending page statistics.
pub struct PageStatisticsRule;

/// Whether some row group lacks a page-level column index for the
/// column.
pub open spec fn spec_misses_column_index(meta: crate::meta::FileMeta, col: int) -> bool {
    exists|g: int|
        0 <= g < meta.row_groups@.len() && !(#[trigger] meta.row_groups@[g]).columns@[col].has_column_index
}

impl PageStatisticsRule {
    /// One warning per column that lacks a page-level column index in
    /// some row group, prescribing page statistics for that column —
    /// and none for compliant columns.
    pub fn run(ctx: &RuleContext) -> (r: Vec<Diagnostic>)
        requires
            ctx.wf(),
        ensures
            forall|k: int|
                0 <= k < r@.len() ==> ((#[trigger] r@[k]).location matches Location::Column {
                    column,
                    path,
                } && column < ctx.meta.columns@.len() && spec_misses_column_index(
                    ctx.meta,
                    column as int,
                ) && path@ == ctx.meta.columns@[column as int].path@ && r@[k].severity
                    == Severity::Warning && r@[k].rule_name@ == "missing-page-statistics"@
                    && r@[k].prescription@ =~~= seq![
                    crate::prescription::DirectiveV::SetColumnStatistics(
                        ctx.meta.columns@[column as int].path@,
                        crate::prescription::StatisticsConfig::Page,
                    ),
                ]),
            ctx.meta.row_groups@.len() > 0 ==> forall|c: usize|
                c < ctx.meta.columns@.len() && spec_misses_column_index(ctx.meta, c as int)
                    ==> exists|k: int|
                    0 <= k < r@.len() && ((#[trigger] r@[k]).location matches Location::Column {
                        column,
                        ..
                    } && column == c),
            // At most one finding per column.
            forall|k1: int, k2: int|
                0 <= k1 < k2 < r@.len() ==> ((#[trigger] r@[k1]).location matches Location::Column {
                    column: c1,
                    ..
                } && (#[trigger] r@[k2]).location matches Location::Column { column: c2, .. } && c1
                    != c2),
    {
        let mut out: Vec<Diagnostic> = Vec::new();
        let nrgs = ctx.meta.row_groups.len();
        if nrgs == 0 {
            return out;
        }
        let ncols = ctx.meta.columns.len();
        let mut col: usize = 0;
        while col < ncols
            invariant
                0 <= col <= ncols,
                ncols == ctx.meta.columns@.len(),
                nrgs == ctx.meta.row_groups@.len(),
                nrgs > 0,
                ctx.wf(),
                forall|k: int|
                    0 <= k < out@.len() ==> ((#[trigger] out@[k]).location matches Location::Column {
                        column,
                        ..
                    } && column < col),
                forall|k1: int, k2: int|
                    0 <= k1 < k2 < out@.len() ==> ((#[trigger] out@[k1]).location
                        matches Location::Column { column: c1, .. } && (#[trigger] out@[k2]).location
                        matches Location::Column { column: c2, .. } && c1 < c2),
                forall|k: int|
                    0 <= k < out@.len() ==> ((#[trigger] out@[k]).location matches Location::Column {
                        column,
                        path,
                    } && column < ncols && spec_misses_column_index(ctx.meta, column as int)
                        && path@ == ctx.meta.columns@[column as int].path@ && out@[k].severity
                        == Severity::Warning && out@[k].rule_name@ == "missing-page-statistics"@
                        && out@[k].prescription@ =~~= seq![
                        crate::prescription::DirectiveV::SetColumnStatistics(
                            ctx.meta.columns@[column as int].path@,
                            crate::prescription::StatisticsConfig::Page,
                        ),
                    ]),
                forall|c: usize|
                    c < col && spec_misses_column_index(ctx.meta, c as int) ==> exists|k: int|
                        0 <= k < out@.len() && ((#[trigger] out@[k]).location
                            matches Location::Column { column, .. } && column == c),
            decreases ncols - col,
        {
            let mut missing: usize = 0;
            let mut g: usize = 0;
            while g < nrgs
                invariant
                    0 <= g <= nrgs,
                    col < ncols,
                    ncols == ctx.meta.columns@.len(),
                    nrgs == ctx.meta.row_groups@.len(),
                    ctx.wf(),
                    missing <= g,
                    (missing > 0) == exists|h: int|
                        0 <= h < g && !(#[trigger] ctx.meta.row_groups@[h]).columns@[col as int].has_column_index,
                decreases nrgs - g,
            {
                if !ctx.meta.row_groups[g].columns[col].has_column_index {
                    proof {
                        assert(!ctx.meta.row_groups@[g as int].columns@[col as int].has_column_index);
                    }
                    missing += 1;
                }
                g += 1;
            }
            let ghost pre = out@;
            if missing > 0 {
                let path = ctx.meta.columns[col].path.dup();
                let mut prescription = Prescription::new();
                prescription.push(
                    Directive::SetColumnStatistics(
                        path.dup(),
                        crate::prescription::StatisticsConfig::Page,
                    ),
                );
                let mut msg = "no page-level column index found in ".to_owned();
                msg.append(fraction_text(missing, nrgs).as_str());
                msg.append(" row groups; page statistics are missing");
                out.push(
                    Diagnostic {
                        rule_name: "missing-page-statistics".to_owned(),
                        severity: Severity::Warning,
                        location: Location::Column { column: col, path },
                        message: msg,
                        prescription,
                    },
                );
            }
            proof {
                if missing == 0 {
                    assert(!spec_misses_column_index(ctx.meta, col as int));
                }
                assert forall|c: usize|
                    c < col + 1 && spec_misses_column_index(ctx.meta, c as int) implies exists|
                    k: int,
                |
                    0 <= k < out@.len() && ((#[trigger] out@[k]).location matches Location::Column {
                        column,
                        ..
                    } && column == c) by {
                    if c < col {
                        let k0 = choose|k0: int|
                            0 <= k0 < pre.len() && ((#[trigger] pre[k0]).location
                                matches Location::Column { column, .. } && column == c);
                        assert(out@[k0] == pre[k0]);
                    } else {
                        assert(missing > 0);
                        assert(out@[pre.len() as int].location matches Location::Column {
                            column,
                            ..
                        } && column == col);
                    }
                }
            }
            col += 1;
        }
        out
    }
}

impl Rule for PageStatisticsRule {
    fn name(&self) -> (r: String) {
        "missing-page-statistics".to_owned()
    }

    fn check(&self, ctx: &RuleContext) -> (r: Vec<Diagnostic>) {
        Self::run(ctx)
    }
}

/// Recommends the byte-split encoding for scalar floating-point
/// columns still on the plain encoding, unless their cardinality is so
/// low that a dictionary serves better.
pub struct FloatEncodingRule;

/// Whether the byte-split recommendation applies to a column: a scalar
/// floating-point column whose cardinality ratio is not below one
/// tenth, with some non-empty chunk on the plain encoding without the
/// byte-split one.
pub open spec fn spec_float_encoding_fires(
    meta: crate::meta::FileMeta,
    card: crate::cardinality::ColumnCardinality,
    col: int,
) -> bool {
    &&& (meta.columns@[col].physical == crate::meta::PhysicalKind::Float || meta.columns@[col].physical
        == crate::meta::PhysicalKind::Double)
    &&& meta.columns@[col].max_rep_level == 0
    &&& !(card.non_null_count == 0 || card.distinct_count * 10 < card.non_null_count)
    &&& exists|g: int|
        0 <= g < meta.row_groups@.len() && (#[trigger] meta.row_groups@[g]).columns@[col].num_values
            > 0 && crate::meta::spec_has_encoding(
            meta.row_groups@[g].columns@[col],
            |e: crate::meta::EncodingKind| e == crate::meta::EncodingKind::Plain,
        ) && !crate::meta::spec_has_encoding(
            meta.row_groups@[g].columns@[col],
            |e: crate::meta::EncodingKind| e == crate::meta::EncodingKind::ByteStreamSplit,
        )
}

impl FloatEncodingRule {
    /// One suggestion per column the byte-split recommendation applies
    /// to, prescribing that encoding — and none for the rest.
    pub fn run(ctx: &RuleContext) -> (r: Vec<Diagnostic>)
        requires
            ctx.wf(),
        ensures
            forall|k: int|
                0 <= k < r@.len() ==> ((#[trigger] r@[k]).location matches Location::Column {
                    column,
                    path,
                } && column < ctx.meta.columns@.len() && spec_float_encoding_fires(
                    ctx.meta,
                    ctx.cardinalities@[column as int],
                    column as int,
                ) && path@ == ctx.meta.columns@[column as int].path@ && r@[k].severity
                    == Severity::Suggestion && r@[k].rule_name@ == "float-byte-stream-split"@
                    && r@[k].prescription@ =~~= seq![
                    crate::prescription::DirectiveV::SetColumnEncoding(
                        ctx.meta.columns@[column as int].path@,
                        crate::prescription::DataEncoding::ByteStreamSplit,
                    ),
                ]),
            ctx.meta.row_groups@.len() > 0 ==> forall|c: usize|
                c < ctx.meta.columns@.len() && spec_float_encoding_fires(
                    ctx.meta,
                    ctx.cardinalities@[c as int],
                    c as int,
                ) ==> exists|k: int|
                    0 <= k < r@.len() && ((#[trigger] r@[k]).location matches Location::Column {
                        column,
                        ..
                    } && column == c),
    {
        let mut out: Vec<Diagnostic> = Vec::new();
        let nrgs = ctx.meta.row_groups.len();
        if nrgs == 0 {
            return out;
        }
        let ncols = ctx.meta.columns.len();
        let mut col: usize = 0;
        while col < ncols
            invariant
                0 <= col <= ncols,
                ncols == ctx.meta.columns@.len(),
                nrgs == ctx.meta.row_groups@.len(),
                nrgs > 0,
                ctx.wf(),
                forall|k: int|
                    0 <= k < out@.len() ==> ((#[trigger] out@[k]).location matches Location::Column {
                        column,
                        path,
                    } && column < ncols && spec_float_encoding_fires(
                        ctx.meta,
                        ctx.cardinalities@[column as int],
                        column as int,
                    ) && path@ == ctx.meta.columns@[column as int].path@ && out@[k].severity
                        == Severity::Suggestion && out@[k].rule_name@ == "float-byte-stream-split"@
                        && out@[k].prescription@ =~~= seq![
                        crate::prescription::DirectiveV::SetColumnEncoding(
                            ctx.meta.columns@[column as int].path@,
                            crate::prescription::DataEncoding::ByteStreamSplit,
                        ),
                    ]),
                forall|c: usize|
                    c < col && spec_float_encoding_fires(
                        ctx.meta,
                        ctx.cardinalities@[c as int],
                        c as int,
                    ) ==> exists|k: int|
                        0 <= k < out@.len() && ((#[trigger] out@[k]).location
                            matches Location::Column { column, .. } && column == c),
            decreases ncols - col,
        {
            let d = &ctx.meta.columns[col];
            let is_scalar_float = matches!(
                d.physical,
                crate::meta::PhysicalKind::Float | crate::meta::PhysicalKind::Double,
            ) && d.max_rep_level == 0;
            let low_ratio = ctx.cardinalities[col].ratio_lt(1, 10);
            let mut non_empty: usize = 0;
            let mut plain_no_bss: usize = 0;
            let mut g: usize = 0;
            while g < nrgs
                invariant
                    0 <= g <= nrgs,
                    col < ncols,
                    ncols == ctx.meta.columns@.len(),
                    nrgs == ctx.meta.row_groups@.len(),
                    ctx.wf(),
                    non_empty <= g,
                    plain_no_bss <= g,
                    (plain_no_bss > 0) == exists|h: int|
                        0 <= h < g && (#[trigger] ctx.meta.row_groups@[h]).columns@[col as int].num_values
                            > 0 && crate::meta::spec_has_encoding(
                            ctx.meta.row_groups@[h].columns@[col as int],
                            |e: crate::meta::EncodingKind| e == crate::meta::EncodingKind::Plain,
                        ) && !crate::meta::spec_has_encoding(
                            ctx.meta.row_groups@[h].columns@[col as int],
                            |e: crate::meta::EncodingKind| e
                                == crate::meta::EncodingKind::ByteStreamSplit,
                        ),
                decreases nrgs - g,
            {
                let c = &ctx.meta.row_groups[g].columns[col];
                if c.num_values > 0 {
                    non_empty += 1;
                    if crate::meta::has_plain_encoding(c) && !crate::meta::has_encoding(
                        c,
                        crate::meta::EncodingKind::ByteStreamSplit,
                    ) {
                        proof {
                            assert(ctx.meta.row_groups@[g as int].columns@[col as int].num_values
                                > 0);
                        }
                        plain_no_bss += 1;
                    }
                }
                g += 1;
            }
            let fires = is_scalar_float && !low_ratio && plain_no_bss > 0;
            proof {
                assert(fires == spec_float_encoding_fires(
                    ctx.meta,
                    ctx.cardinalities@[col as int],
                    col as int,
                ));
            }
            let ghost pre = out@;
            if fires {
                let path = ctx.meta.columns[col].path.dup();
                let mut prescription = Prescription::new();
                prescription.push(
                    Directive::SetColumnEncoding(
                        path.dup(),
                        crate::prescription::DataEncoding::ByteStreamSplit,
                    ),
                );
                let mut msg =
                    "scalar float column uses PLAIN without BYTE_STREAM_SPLIT in ".to_owned();
                msg.append(fraction_text(plain_no_bss, non_empty).as_str());
                msg.append(" row groups; BYTE_STREAM_SPLIT typically compresses better");
                out.push(
                    Diagnostic {
                        rule_name: "float-byte-stream-split".to_owned(),
                        severity: Severity::Suggestion,
                        location: Location::Column { column: col, path },
                        message: msg,
                        prescription,
                    },
                );
            }
            proof {
                assert forall|c: usize|
                    c < col + 1 && spec_float_encoding_fires(
                        ctx.meta,
                        ctx.cardinalities@[c as int],
                        c as int,
                    ) implies exists|k: int|
                    0 <= k < out@.len() && ((#[trigger] out@[k]).location matches Location::Column {
                        column,
                        ..
                    } && column == c) by {
                    if c < col {
                        let k0 = choose|k0: int|
                            0 <= k0 < pre.len() && ((#[trigger] pre[k0]).location
                                matches Location::Column { column, .. } && column == c);
                        assert(out@[k0] == pre[k0]);
                    } else {
                        assert(fires);
                        assert(out@[pre.len() as int].location matches Location::Column {
                            column,
                            ..
                        } && column == col);
                    }
                }
            }
            col += 1;
        }
        out
    }
}

impl Rule for FloatEncodingRule {
    fn name(&self) -> (r: String) {
        "float-byte-stream-split".to_owned()
    }

    fn check(&self, ctx: &RuleContext) -> (r: Vec<Diagnostic>) {
        Self::run(ctx)
    }
}

/// Recommends the delta encoding for temporal integer columns still on
/// the plain encoding.
pub struct TimestampEncodingRule;

/// Whether the delta recommendation applies to a column: a temporal
/// integer column with some non-empty chunk on the plain encoding
/// without the delta one.
pub open spec fn spec_timestamp_encoding_fires(meta: crate::meta::FileMeta, col: int) -> bool {
    &&& (meta.columns@[col].physical == crate::meta::PhysicalKind::Int32 || meta.columns@[col].physical
        == crate::meta::PhysicalKind::Int64)
    &&& (meta.columns@[col].logical matches Option::Some(l) && (l
        is TimestampLogical || l is DateLogical))
    &&& exists|g: int|
        0 <= g < meta.row_groups@.len() && (#[trigger] meta.row_groups@[g]).columns@[col].num_values
            > 0 && crate::meta::spec_has_encoding(
            meta.row_groups@[g].columns@[col],
            |e: crate::meta::EncodingKind| e == crate::meta::EncodingKind::Plain,
        ) && !crate::meta::spec_has_encoding(
            meta.row_groups@[g].columns@[col],
            |e: crate::meta::EncodingKind| e == crate::meta::EncodingKind::DeltaBinaryPacked,
        )
}

impl TimestampEncodingRule {
    /// One suggestion per column the delta recommendation applies to,
    /// prescribing that encoding -- and none for the rest.
    pub fn run(ctx: &RuleContext) -> (r: Vec<Diagnostic>)
        requires
            ctx.wf(),
        ensures
            forall|k: int|
                0 <= k < r@.len() ==> ((#[trigger] r@[k]).location matches Location::Column {
                    column,
                    path,
                } && column < ctx.meta.columns@.len() && spec_timestamp_encoding_fires(
                    ctx.meta,
                    column as int,
                ) && path@ == ctx.meta.columns@[column as int].path@ && r@[k].severity
                    == Severity::Suggestion && r@[k].rule_name@ == "timestamp-delta-encoding"@
                    && r@[k].prescription@ =~~= seq![
                    crate::prescription::DirectiveV::SetColumnEncoding(
                        ctx.meta.columns@[column as int].path@,
                        crate::prescription::DataEncoding::DeltaBinaryPacked,
                    ),
                ]),
            ctx.meta.row_groups@.len() > 0 ==> forall|c: usize|
                c < ctx.meta.columns@.len() && spec_timestamp_encoding_fires(ctx.meta, c as int)
                    ==> exists|k: int|
                    0 <= k < r@.len() && ((#[trigger] r@[k]).location matches Location::Column {
                        column,
                        ..
                    } && column == c),
    {
        let mut out: Vec<Diagnostic> = Vec::new();
        let nrgs = ctx.meta.row_groups.len();
        if nrgs == 0 {
            return out;
        }
        let ncols = ctx.meta.columns.len();
        let mut col: usize = 0;
        while col < ncols
            invariant
                0 <= col <= ncols,
                ncols == ctx.meta.columns@.len(),
                nrgs == ctx.meta.row_groups@.len(),
                nrgs > 0,
                ctx.wf(),
                forall|k: int|
                    0 <= k < out@.len() ==> ((#[trigger] out@[k]).location matches Location::Column {
                        column,
                        path,
                    } && column < ncols && spec_timestamp_encoding_fires(ctx.meta, column as int)
                        && path@ == ctx.meta.columns@[column as int].path@ && out@[k].severity
                        == Severity::Suggestion && out@[k].rule_name@ == "timestamp-delta-encoding"@
                        && out@[k].prescription@ =~~= seq![
                        crate::prescription::DirectiveV::SetColumnEncoding(
                            ctx.meta.columns@[column as int].path@,
                            crate::prescription::DataEncoding::DeltaBinaryPacked,
                        ),
                    ]),
                forall|c: usize|
                    c < col && spec_timestamp_encoding_fires(ctx.meta, c as int) ==> exists|k: int|
                        0 <= k < out@.len() && ((#[trigger] out@[k]).location
                            matches Location::Column { column, .. } && column == c),
            decreases ncols - col,
        {
            let d = &ctx.meta.columns[col];
            let is_int = matches!(
                d.physical,
                crate::meta::PhysicalKind::Int32 | crate::meta::PhysicalKind::Int64,
            );
            let is_temporal = matches!(
                d.logical,
                Option::Some(
                    crate::meta::LogicalKind::TimestampLogical { .. }
                        | crate::meta::LogicalKind::DateLogical,
                ),
            );
            let mut non_empty: usize = 0;
            let mut plain_no_delta: usize = 0;
            let mut g: usize = 0;
            while g < nrgs
                invariant
                    0 <= g <= nrgs,
                    col < ncols,
                    ncols == ctx.meta.columns@.len(),
                    nrgs == ctx.meta.row_groups@.len(),
                    ctx.wf(),
                    non_empty <= g,
                    plain_no_delta <= g,
                    (plain_no_delta > 0) == exists|h: int|
                        0 <= h < g && (#[trigger] ctx.meta.row_groups@[h]).columns@[col as int].num_values
                            > 0 && crate::meta::spec_has_encoding(
                            ctx.meta.row_groups@[h].columns@[col as int],
                            |e: crate::meta::EncodingKind| e == crate::meta::EncodingKind::Plain,
                        ) && !crate::meta::spec_has_encoding(
                            ctx.meta.row_groups@[h].columns@[col as int],
                            |e: crate::meta::EncodingKind| e
                                == crate::meta::EncodingKind::DeltaBinaryPacked,
                        ),
                decreases nrgs - g,
            {
                let c = &ctx.meta.row_groups[g].columns[col];
                if c.num_values > 0 {
                    non_empty += 1;
                    if crate::meta::has_plain_encoding(c) && !crate::meta::has_encoding(
                        c,
                        crate::meta::EncodingKind::DeltaBinaryPacked,
                    ) {
                        proof {
                            assert(ctx.meta.row_groups@[g as int].columns@[col as int].num_values
                                > 0);
                        }
                        plain_no_delta += 1;
                    }
                }
                g += 1;
            }
            let fires = is_int && is_temporal && plain_no_delta > 0;
            proof {
                assert(fires == spec_timestamp_encoding_fires(ctx.meta, col as int));
            }
            let ghost pre = out@;
            if fires {
                let path = ctx.meta.columns[col].path.dup();
                let mut prescription = Prescription::new();
                prescription.push(
                    Directive::SetColumnEncoding(
                        path.dup(),
                        crate::prescription::DataEncoding::DeltaBinaryPacked,
                    ),
                );
                let mut msg =
                    "timestamp/date column uses PLAIN without DELTA_BINARY_PACKED in ".to_owned();
                msg.append(fraction_text(plain_no_delta, non_empty).as_str());
                msg.append(" row groups; DELTA_BINARY_PACKED is typically more efficient");
                out.push(
                    Diagnostic {
                        rule_name: "timestamp-delta-encoding".to_owned(),
                        severity: Severity::Suggestion,
                        location: Location::Column { column: col, path },
                        message: msg,
                        prescription,
                    },
                );
            }
            proof {
                assert forall|c: usize|
                    c < col + 1 && spec_timestamp_encoding_fires(ctx.meta, c as int) implies exists|
                    k: int,
                |
                    0 <= k < out@.len() && ((#[trigger] out@[k]).location matches Location::Column {
                        column,
                        ..
                    } && column == c) by {
                    if c < col {
                        let k0 = choose|k0: int|
                            0 <= k0 < pre.len() && ((#[trigger] pre[k0]).location
                                matches Location::Column { column, .. } && column == c);
                        assert(out@[k0] == pre[k0]);
                    } else {
                        assert(fires);
                        assert(out@[pre.len() as int].location matches Location::Column {
                            column,
                            ..
                        } && column == col);
                    }
                }
            }
            col += 1;
        }
        out
    }
}

impl Rule for TimestampEncodingRule {
    fn name(&self) -> (r: String) {
        "timestamp-delta-encoding".to_owned()
    }

    fn check(&self, ctx: &RuleContext) -> (r: Vec<Diagnostic>) {
        Self::run(ctx)
    }
}

/// Byte-wise lexicographic order.
pub open spec fn spec_lex_le(a: Seq<u8>, b: Seq<u8>) -> bool
    decreases a.len(),
{
    if a.len() == 0 {
        true
    } else if b.len() == 0 {
        false
    } else if a[0] < b[0] {
        true
    } else if a[0] > b[0] {
        false
    } else {
        spec_lex_le(a.drop_first(), b.drop_first())
    }
}

/// Byte-wise lexicographic comparison.
pub fn bytes_le(a: &Vec<u8>, b: &Vec<u8>) -> (r: bool)
    ensures
        r == spec_lex_le(a@, b@),
{
    let mut i: usize = 0;
    proof {
        assert(a@.skip(0) =~= a@);
        assert(b@.skip(0) =~= b@);
    }
    loop
        invariant
            0 <= i <= a@.len(),
            i <= b@.len(),
            spec_lex_le(a@, b@) == spec_lex_le(a@.skip(i as int), b@.skip(i as int)),
        decreases a@.len() - i,
    {
        proof {
            if i < a@.len() && i < b@.len() {
                assert(a@.skip(i as int).drop_first() =~= a@.skip(i + 1 as int));
                assert(b@.skip(i as int).drop_first() =~= b@.skip(i + 1 as int));
            }
        }
        if i == a.len() {
            return true;
        }
        if i == b.len() {
            return false;
        }
        if a[i] < b[i] {
            return true;
        }
        if a[i] > b[i] {
            return false;
        }
        i += 1;
    }
}

/// Recommends the delta encoding for integer columns that a sorting
/// declaration or monotone per-group minima show to be sorted.
pub struct SortedIntegersRule;

/// Whether every chunk of the column already uses the delta encoding.
pub open spec fn spec_all_delta(meta: crate::meta::FileMeta, col: int) -> bool {
    forall|g: int|
        0 <= g < meta.row_groups@.len() ==> crate::meta::spec_has_encoding(
            (#[trigger] meta.row_groups@[g]).columns@[col],
            |e: crate::meta::EncodingKind| e == crate::meta::EncodingKind::DeltaBinaryPacked,
        )
}

/// Whether some row group declares the column as a sorting column.
pub open spec fn spec_in_sorting(meta: crate::meta::FileMeta, col: int) -> bool {
    exists|g: int|
        0 <= g < meta.row_groups@.len() && ((#[trigger] meta.row_groups@[g]).sorting_columns
            matches Option::Some(sc) && exists|k: int|
            0 <= k < sc@.len() && (#[trigger] sc@[k]).column_idx == col)
}

/// Whether adjacent row groups' recorded minima are all present and
/// byte-wise non-decreasing (only meaningful with two or more groups).
pub open spec fn spec_monotonic_mins(meta: crate::meta::FileMeta, col: int) -> bool {
    &&& meta.row_groups@.len() >= 2
    &&& forall|g: int|
        0 <= g < meta.row_groups@.len() - 1 ==> spec_min_pair_le(
            (#[trigger] meta.row_groups@[g]).columns@[col],
            meta.row_groups@[g + 1].columns@[col],
        )
}

/// Both chunks record a minimum and the first is byte-wise at most the
/// second.
pub open spec fn spec_min_pair_le(a: crate::meta::ChunkMeta, b: crate::meta::ChunkMeta) -> bool {
    a.statistics matches Option::Some(sa) && b.statistics matches Option::Some(sb)
        && sa.min_bytes matches Option::Some(ma) && sb.min_bytes matches Option::Some(mb)
        && spec_lex_le(ma@, mb@)
}

/// Whether the delta recommendation applies: an integer column not yet
/// fully on the delta encoding that a sorting declaration or monotone
/// minima show to be sorted.
pub open spec fn spec_sorted_fires(meta: crate::meta::FileMeta, col: int) -> bool {
    &&& (meta.columns@[col].physical == crate::meta::PhysicalKind::Int32 || meta.columns@[col].physical
        == crate::meta::PhysicalKind::Int64)
    &&& !spec_all_delta(meta, col)
    &&& (spec_in_sorting(meta, col) || spec_monotonic_mins(meta, col))
}

impl SortedIntegersRule {
    /// One suggestion per column the recommendation applies to,
    /// prescribing the delta encoding -- and none for the rest.
    pub fn run(ctx: &RuleContext) -> (r: Vec<Diagnostic>)
        requires
            ctx.wf(),
        ensures
            forall|k: int|
                0 <= k < r@.len() ==> ((#[trigger] r@[k]).location matches Location::Column {
                    column,
                    path,
                } && column < ctx.meta.columns@.len() && spec_sorted_fires(ctx.meta, column as int)
                    && path@ == ctx.meta.columns@[column as int].path@ && r@[k].severity
                    == Severity::Suggestion && r@[k].rule_name@ == "sorted-integer-delta"@
                    && r@[k].prescription@ =~~= seq![
                    crate::prescription::DirectiveV::SetColumnEncoding(
                        ctx.meta.columns@[column as int].path@,
                        crate::prescription::DataEncoding::DeltaBinaryPacked,
                    ),
                ]),
            ctx.meta.row_groups@.len() > 0 ==> forall|c: usize|
                c < ctx.meta.columns@.len() && spec_sorted_fires(ctx.meta, c as int) ==> exists|
                    k: int,
                |
                    0 <= k < r@.len() && ((#[trigger] r@[k]).location matches Location::Column {
                        column,
                        ..
                    } && column == c),
    {
        let mut out: Vec<Diagnostic> = Vec::new();
        let nrgs = ctx.meta.row_groups.len();
        if nrgs == 0 {
            return out;
        }
        let ncols = ctx.meta.columns.len();
        let mut col: usize = 0;
        while col < ncols
            invariant
                0 <= col <= ncols,
                ncols == ctx.meta.columns@.len(),
                nrgs == ctx.meta.row_groups@.len(),
                nrgs > 0,
                ctx.wf(),
                forall|k: int|
                    0 <= k < out@.len() ==> ((#[trigger] out@[k]).location matches Location::Column {
                        column,
                        path,
                    } && column < ncols && spec_sorted_fires(ctx.meta, column as int) && path@
                        == ctx.meta.columns@[column as int].path@ && out@[k].severity
                        == Severity::Suggestion && out@[k].rule_name@ == "sorted-integer-delta"@
                        && out@[k].prescription@ =~~= seq![
                        crate::prescription::DirectiveV::SetColumnEncoding(
                            ctx.meta.columns@[column as int].path@,
                            crate::prescription::DataEncoding::DeltaBinaryPacked,
                        ),
                    ]),
                forall|c: usize|
                    c < col && spec_sorted_fires(ctx.meta, c as int) ==> exists|k: int|
                        0 <= k < out@.len() && ((#[trigger] out@[k]).location
                            matches Location::Column { column, .. } && column == c),
            decreases ncols - col,
        {
            let d = &ctx.meta.columns[col];
            let is_int = matches!(
                d.physical,
                crate::meta::PhysicalKind::Int32 | crate::meta::PhysicalKind::Int64,
            );
            let mut already_delta = true;
            let mut in_sorting = false;
            let mut monotonic = nrgs >= 2;
            let mut g: usize = 0;
            while g < nrgs
                invariant
                    0 <= g <= nrgs,
                    col < ncols,
                    ncols == ctx.meta.columns@.len(),
                    nrgs == ctx.meta.row_groups@.len(),
                    ctx.wf(),
                    already_delta == forall|h: int|
                        0 <= h < g ==> crate::meta::spec_has_encoding(
                            (#[trigger] ctx.meta.row_groups@[h]).columns@[col as int],
                            |e: crate::meta::EncodingKind| e
                                == crate::meta::EncodingKind::DeltaBinaryPacked,
                        ),
                    in_sorting == exists|h: int|
                        0 <= h < g && ((#[trigger] ctx.meta.row_groups@[h]).sorting_columns
                            matches Option::Some(sc) && exists|k: int|
                            0 <= k < sc@.len() && (#[trigger] sc@[k]).column_idx == col as int),
                    monotonic == (nrgs >= 2 && forall|h: int|
                        0 <= h < g && h < nrgs - 1 ==> spec_min_pair_le(
                            (#[trigger] ctx.meta.row_groups@[h]).columns@[col as int],
                            ctx.meta.row_groups@[h + 1].columns@[col as int],
                        )),
                decreases nrgs - g,
            {
                let rg = &ctx.meta.row_groups[g];
                let c = &rg.columns[col];
                if !crate::meta::has_encoding(c, crate::meta::EncodingKind::DeltaBinaryPacked) {
                    already_delta = false;
                }
                match &rg.sorting_columns {
                    Option::Some(sc) => {
                        let mut k: usize = 0;
                        let mut found = false;
                        while k < sc.len()
                            invariant
                                0 <= k <= sc@.len(),
                                found == exists|k0: int|
                                    0 <= k0 < k && (#[trigger] sc@[k0]).column_idx == col as int,
                                col < ncols,
                            decreases sc@.len() - k,
                        {
                            if sc[k].column_idx >= 0 && col as u64 <= i32::MAX as u64
                                && sc[k].column_idx == col as i32 {
                                proof {
                                    assert(sc@[k as int].column_idx == col as int);
                                }
                                found = true;
                            }
                            proof {
                                if sc@[k as int].column_idx == col as int {
                                    assert(found);
                                }
                            }
                            k += 1;
                        }
                        if found {
                            proof {
                                assert(ctx.meta.row_groups@[g as int].sorting_columns
                                    matches Option::Some(scv) && exists|k0: int|
                                    0 <= k0 < scv@.len() && (#[trigger] scv@[k0]).column_idx == col
                                        as int);
                            }
                            in_sorting = true;
                        }
                    },
                    Option::None => {},
                }
                if monotonic && g + 1 < nrgs {
                    let here = &ctx.meta.row_groups[g].columns[col];
                    let next = &ctx.meta.row_groups[g + 1].columns[col];
                    let pair_ok = match (&here.statistics, &next.statistics) {
                        (Option::Some(sa), Option::Some(sb)) => match (
                            &sa.min_bytes,
                            &sb.min_bytes,
                        ) {
                            (Option::Some(ma), Option::Some(mb)) => bytes_le(ma, mb),
                            _ => false,
                        },
                        _ => false,
                    };
                    if !pair_ok {
                        monotonic = false;
                    }
                }
                g += 1;
            }
            let fires = is_int && !already_delta && (in_sorting || monotonic);
            proof {
                assert(fires == spec_sorted_fires(ctx.meta, col as int));
            }
            let ghost pre = out@;
            if fires {
                let path = ctx.meta.columns[col].path.dup();
                let mut prescription = Prescription::new();
                prescription.push(
                    Directive::SetColumnEncoding(
                        path.dup(),
                        crate::prescription::DataEncoding::DeltaBinaryPacked,
                    ),
                );
                let msg = if in_sorting {
                    "sorted integer column; DELTA_BINARY_PACKED encoding is more efficient".to_owned()
                } else {
                    "integer column appears sorted across row groups; DELTA_BINARY_PACKED encoding is more efficient".to_owned()
                };
                out.push(
                    Diagnostic {
                        rule_name: "sorted-integer-delta".to_owned(),
                        severity: Severity::Suggestion,
                        location: Location::Column { column: col, path },
                        message: msg,
                        prescription,
                    },
                );
            }
            proof {
                assert forall|c: usize|
                    c < col + 1 && spec_sorted_fires(ctx.meta, c as int) implies exists|k: int|
                    0 <= k < out@.len() && ((#[trigger] out@[k]).location matches Location::Column {
                        column,
                        ..
                    } && column == c) by {
                    if c < col {
                        let k0 = choose|k0: int|
                            0 <= k0 < pre.len() && ((#[trigger] pre[k0]).location
                                matches Location::Column { column, .. } && column == c);
                        assert(out@[k0] == pre[k0]);
                    } else {
                        assert(fires);
                        assert(out@[pre.len() as int].location matches Location::Column {
                            column,
                            ..
                        } && column == col);
                    }
                }
            }
            col += 1;
        }
        out
    }
}

impl Rule for SortedIntegersRule {
    fn name(&self) -> (r: String) {
        "sorted-integer-delta".to_owned()
    }

    fn check(&self, ctx: &RuleContext) -> (r: Vec<Diagnostic>) {
        Self::run(ctx)
    }
}

/// Byte length above which a recorded statistic counts as oversized.
pub const MAX_STAT_LENGTH: usize = 64;

/// Flags byte-array columns whose exact, untruncated statistics exceed
/// the truncation length, recommending truncation.
pub struct StringStatisticsRule;

/// Whether a chunk records an exact statistic longer than the
/// truncation length.
pub open spec fn spec_oversized_stat(c: crate::meta::ChunkMeta) -> bool {
    c.statistics matches Option::Some(st) && st.min_is_exact && ((st.min_bytes
        matches Option::Some(b) && b@.len() > MAX_STAT_LENGTH) || (st.max_bytes
        matches Option::Some(b) && b@.len() > MAX_STAT_LENGTH))
}

/// Whether the truncation recommendation applies: a byte-array column
/// with some oversized exact statistic.
pub open spec fn spec_string_stats_fires(meta: crate::meta::FileMeta, col: int) -> bool {
    &&& meta.columns@[col].physical == crate::meta::PhysicalKind::ByteArray
    &&& exists|g: int|
        0 <= g < meta.row_groups@.len() && spec_oversized_stat(
            (#[trigger] meta.row_groups@[g]).columns@[col],
        )
}

impl StringStatisticsRule {
    /// One warning per column the recommendation applies to,
    /// prescribing statistics truncation -- and none for the rest.
    pub fn run(ctx: &RuleContext) -> (r: Vec<Diagnostic>)
        requires
            ctx.wf(),
        ensures
            forall|k: int|
                0 <= k < r@.len() ==> ((#[trigger] r@[k]).location matches Location::Column {
                    column,
                    path,
                } && column < ctx.meta.columns@.len() && spec_string_stats_fires(
                    ctx.meta,
                    column as int,
                ) && path@ == ctx.meta.columns@[column as int].path@ && r@[k].severity
                    == Severity::Warning && r@[k].rule_name@ == "oversized-string-statistics"@
                    && r@[k].prescription@ =~~= seq![
                    crate::prescription::DirectiveV::SetFileStatisticsTruncateLength(
                        Some(MAX_STAT_LENGTH),
                    ),
                ]),
            ctx.meta.row_groups@.len() > 0 ==> forall|c: usize|
                c < ctx.meta.columns@.len() && spec_string_stats_fires(ctx.meta, c as int)
                    ==> exists|k: int|
                    0 <= k < r@.len() && ((#[trigger] r@[k]).location matches Location::Column {
                        column,
                        ..
                    } && column == c),
    {
        let mut out: Vec<Diagnostic> = Vec::new();
        let nrgs = ctx.meta.row_groups.len();
        if nrgs == 0 {
            return out;
        }
        let ncols = ctx.meta.columns.len();
        let mut col: usize = 0;
        while col < ncols
            invariant
                0 <= col <= ncols,
                ncols == ctx.meta.columns@.len(),
                nrgs == ctx.meta.row_groups@.len(),
                nrgs > 0,
                ctx.wf(),
                forall|k: int|
                    0 <= k < out@.len() ==> ((#[trigger] out@[k]).location matches Location::Column {
                        column,
                        path,
                    } && column < ncols && spec_string_stats_fires(ctx.meta, column as int) && path@
                        == ctx.meta.columns@[column as int].path@ && out@[k].severity
                        == Severity::Warning && out@[k].rule_name@ == "oversized-string-statistics"@
                        && out@[k].prescription@ =~~= seq![
                        crate::prescription::DirectiveV::SetFileStatisticsTruncateLength(
                            Some(MAX_STAT_LENGTH),
                        ),
                    ]),
                forall|c: usize|
                    c < col && spec_string_stats_fires(ctx.meta, c as int) ==> exists|k: int|
                        0 <= k < out@.len() && ((#[trigger] out@[k]).location
                            matches Location::Column { column, .. } && column == c),
            decreases ncols - col,
        {
            let is_byte_array = matches!(
                ctx.meta.columns[col].physical,
                crate::meta::PhysicalKind::ByteArray,
            );
            let mut affected: usize = 0;
            let mut g: usize = 0;
            while g < nrgs
                invariant
                    0 <= g <= nrgs,
                    col < ncols,
                    ncols == ctx.meta.columns@.len(),
                    nrgs == ctx.meta.row_groups@.len(),
                    ctx.wf(),
                    affected <= g,
                    (affected > 0) == exists|h: int|
                        0 <= h < g && spec_oversized_stat(
                            (#[trigger] ctx.meta.row_groups@[h]).columns@[col as int],
                        ),
                decreases nrgs - g,
            {
                let c = &ctx.meta.row_groups[g].columns[col];
                let oversized = match &c.statistics {
                    Option::Some(st) => {
                        if st.min_is_exact {
                            let min_over = match &st.min_bytes {
                                Option::Some(b) => b.len() > MAX_STAT_LENGTH,
                                Option::None => false,
                            };
                            let max_over = match &st.max_bytes {
                                Option::Some(b) => b.len() > MAX_STAT_LENGTH,
                                Option::None => false,
                            };
                            min_over || max_over
                        } else {
                            false
                        }
                    },
                    Option::None => false,
                };
                proof {
                    assert(oversized == spec_oversized_stat(
                        ctx.meta.row_groups@[g as int].columns@[col as int],
                    ));
                }
                if oversized {
                    affected += 1;
                }
                g += 1;
            }
            let fires = is_byte_array && affected > 0;
            proof {
                assert(fires == spec_string_stats_fires(ctx.meta, col as int));
            }
            let ghost pre = out@;
            if fires {
                let path = ctx.meta.columns[col].path.dup();
                let mut prescription = Prescription::new();
                prescription.push(
                    Directive::SetFileStatisticsTruncateLength(Some(MAX_STAT_LENGTH)),
                );
                let mut msg = "string statistics are large and untruncated in ".to_owned();
                msg.append(fraction_text(affected, nrgs).as_str());
                msg.append(" row groups; consider truncating to 64 bytes");
                out.push(
                    Diagnostic {
                        rule_name: "oversized-string-statistics".to_owned(),
                        severity: Severity::Warning,
                        location: Location::Column { column: col, path },
                        message: msg,
                        prescription,
                    },
                );
            }
            proof {
                assert forall|c: usize|
                    c < col + 1 && spec_string_stats_fires(ctx.meta, c as int) implies exists|
                    k: int,
                |
                    0 <= k < out@.len() && ((#[trigger] out@[k]).location matches Location::Column {
                        column,
                        ..
                    } && column == c) by {
                    if c < col {
                        let k0 = choose|k0: int|
                            0 <= k0 < pre.len() && ((#[trigger] pre[k0]).location
                                matches Location::Column { column, .. } && column == c);
                        assert(out@[k0] == pre[k0]);
                    } else {
                        assert(fires);
                        assert(out@[pre.len() as int].location matches Location::Column {
                            column,
                            ..
                        } && column == col);
                    }
                }
            }
            col += 1;
        }
        out
    }
}

impl Rule for StringStatisticsRule {
    fn name(&self) -> (r: String) {
        "oversized-string-statistics".to_owned()
    }

    fn check(&self, ctx: &RuleContext) -> (r: Vec<Diagnostic>) {
        Self::run(ctx)
    }
}

/// Data-page size to favor random access over scan throughput.
pub const SMALL_PAGE_SIZE: usize = 262144;

/// Values per row at which a repeated float column counts as an
/// embedding vector.
pub const MIN_ELEMENTS_PER_ROW: i64 = 64;

/// Flags repeated floating-point columns that look like embedding
/// vectors, recommending a smaller data-page size for point lookups.
pub struct VectorEmbeddingRule;

/// Row and value totals over the non-empty row groups.
pub open spec fn spec_embed_totals(meta: crate::meta::FileMeta, col: int, upto: int) -> (int, int)
    decreases upto,
{
    if upto <= 0 {
        (0, 0)
    } else {
        let (rows, values) = spec_embed_totals(meta, col, upto - 1);
        let rg = meta.row_groups@[upto - 1];
        if rg.num_rows > 0 {
            (
                rows + rg.num_rows as int,
                values + if rg.columns@[col].num_values > 0 {
                    rg.columns@[col].num_values as int
                } else {
                    0int
                },
            )
        } else {
            (rows, values)
        }
    }
}

/// Whether the embedding recommendation applies: a repeated
/// floating-point column averaging at least the element threshold per
/// row, on the saturated totals the scan computes.
pub open spec fn spec_embedding_fires(meta: crate::meta::FileMeta, col: int) -> bool {
    let (rows, values) = spec_embed_totals(meta, col, meta.row_groups@.len() as int);
    let trs = crate::cardinality::spec_sat64(rows);
    let tvs = crate::cardinality::spec_sat64(values);
    &&& (meta.columns@[col].physical == crate::meta::PhysicalKind::Float || meta.columns@[col].physical
        == crate::meta::PhysicalKind::Double)
    &&& meta.columns@[col].max_rep_level > 0
    &&& trs > 0
    &&& tvs / trs >= MIN_ELEMENTS_PER_ROW as u64
}

/// The totals are non-negative.
proof fn lemma_embed_totals_nonneg(meta: crate::meta::FileMeta, col: int, upto: int)
    requires
        0 <= upto,
    ensures
        spec_embed_totals(meta, col, upto).0 >= 0,
        spec_embed_totals(meta, col, upto).1 >= 0,
    decreases upto,
{
    if upto > 0 {
        lemma_embed_totals_nonneg(meta, col, upto - 1);
    }
}

impl VectorEmbeddingRule {
    /// One warning per column the recommendation applies to,
    /// prescribing the smaller page size -- and none for the rest.
    pub fn run(ctx: &RuleContext) -> (r: Vec<Diagnostic>)
        requires
            ctx.wf(),
        ensures
            forall|k: int|
                0 <= k < r@.len() ==> ((#[trigger] r@[k]).location matches Location::Column {
                    column,
                    path,
                } && column < ctx.meta.columns@.len() && spec_embedding_fires(
                    ctx.meta,
                    column as int,
                ) && path@ == ctx.meta.columns@[column as int].path@ && r@[k].severity
                    == Severity::Warning && r@[k].rule_name@ == "vector-embedding-page-size"@
                    && r@[k].prescription@ =~~= seq![
                    crate::prescription::DirectiveV::SetFileDataPageSizeLimit(SMALL_PAGE_SIZE),
                ]),
            ctx.meta.row_groups@.len() > 0 ==> forall|c: usize|
                c < ctx.meta.columns@.len() && spec_embedding_fires(ctx.meta, c as int)
                    ==> exists|k: int|
                    0 <= k < r@.len() && ((#[trigger] r@[k]).location matches Location::Column {
                        column,
                        ..
                    } && column == c),
    {
        let mut out: Vec<Diagnostic> = Vec::new();
        let nrgs = ctx.meta.row_groups.len();
        if nrgs == 0 {
            return out;
        }
        let ncols = ctx.meta.columns.len();
        let mut col: usize = 0;
        while col < ncols
            invariant
                0 <= col <= ncols,
                ncols == ctx.meta.columns@.len(),
                nrgs == ctx.meta.row_groups@.len(),
                nrgs > 0,
                ctx.wf(),
                forall|k: int|
                    0 <= k < out@.len() ==> ((#[trigger] out@[k]).location matches Location::Column {
                        column,
                        path,
                    } && column < ncols && spec_embedding_fires(ctx.meta, column as int) && path@
                        == ctx.meta.columns@[column as int].path@ && out@[k].severity
                        == Severity::Warning && out@[k].rule_name@ == "vector-embedding-page-size"@
                        && out@[k].prescription@ =~~= seq![
                        crate::prescription::DirectiveV::SetFileDataPageSizeLimit(SMALL_PAGE_SIZE),
                    ]),
                forall|c: usize|
                    c < col && spec_embedding_fires(ctx.meta, c as int) ==> exists|k: int|
                        0 <= k < out@.len() && ((#[trigger] out@[k]).location
                            matches Location::Column { column, .. } && column == c),
            decreases ncols - col,
        {
            let d = &ctx.meta.columns[col];
            let is_float = matches!(
                d.physical,
                crate::meta::PhysicalKind::Float | crate::meta::PhysicalKind::Double,
            );
            let mut total_rows: u64 = 0;
            let mut total_values: u64 = 0;
            let mut g: usize = 0;
            while g < nrgs
                invariant
                    0 <= g <= nrgs,
                    col < ncols,
                    ncols == ctx.meta.columns@.len(),
                    nrgs == ctx.meta.row_groups@.len(),
                    ctx.wf(),
                    total_rows == crate::cardinality::spec_sat64(
                        spec_embed_totals(ctx.meta, col as int, g as int).0,
                    ),
                    total_values == crate::cardinality::spec_sat64(
                        spec_embed_totals(ctx.meta, col as int, g as int).1,
                    ),
                decreases nrgs - g,
            {
                proof {
                    lemma_embed_totals_nonneg(ctx.meta, col as int, g as int);
                }
                let rg = &ctx.meta.row_groups[g];
                if rg.num_rows > 0 {
                    total_rows = sat_add_u64(total_rows, rg.num_rows as u64);
                    let nv = rg.columns[col].num_values;
                    if nv > 0 {
                        total_values = sat_add_u64(total_values, nv as u64);
                    }
                }
                g += 1;
            }
            let fires = is_float && d.max_rep_level > 0 && total_rows > 0 && total_values
                / total_rows >= MIN_ELEMENTS_PER_ROW as u64;
            proof {
                assert(fires == spec_embedding_fires(ctx.meta, col as int));
            }
            let ghost pre = out@;
            if fires {
                let path = ctx.meta.columns[col].path.dup();
                let mut prescription = Prescription::new();
                prescription.push(Directive::SetFileDataPageSizeLimit(SMALL_PAGE_SIZE));
                let mut msg = "column looks like a vector embedding (".to_owned();
                msg.append(u64_to_string(total_values / total_rows).as_str());
                msg.append(
                    " values/row on average), consider smaller page size for random-access lookups",
                );
                out.push(
                    Diagnostic {
                        rule_name: "vector-embedding-page-size".to_owned(),
                        severity: Severity::Warning,
                        location: Location::Column { column: col, path },
                        message: msg,
                        prescription,
                    },
                );
            }
            proof {
                assert forall|c: usize|
                    c < col + 1 && spec_embedding_fires(ctx.meta, c as int) implies exists|k: int|
                    0 <= k < out@.len() && ((#[trigger] out@[k]).location matches Location::Column {
                        column,
                        ..
                    } && column == c) by {
                    if c < col {
                        let k0 = choose|k0: int|
                            0 <= k0 < pre.len() && ((#[trigger] pre[k0]).location
                                matches Location::Column { column, .. } && column == c);
                        assert(out@[k0] == pre[k0]);
                    } else {
                        assert(fires);
                        assert(out@[pre.len() as int].location matches Location::Column {
                            column,
                            ..
                        } && column == col);
                    }
                }
            }
            col += 1;
        }
        out
    }
}

impl Rule for VectorEmbeddingRule {
    fn name(&self) -> (r: String) {
        "vector-embedding-page-size".to_owned()
    }

    fn check(&self, ctx: &RuleContext) -> (r: Vec<Diagnostic>) {
        Self::run(ctx)
    }
}

/// Flags byte-array columns missing bloom filters when they are UUIDs
/// or estimated to be high cardinality, recommending one sized by the
/// estimated distinct count.
pub struct BloomFilterRule;

/// Whether the bloom-filter recommendation applies to a column: a
/// byte-array column with some non-empty chunk lacking a bloom filter,
/// marked as a UUID or with a cardinality ratio above one half.
pub open spec fn spec_bloom_fires(
    meta: crate::meta::FileMeta,
    card: crate::cardinality::ColumnCardinality,
    col: int,
) -> bool {
    &&& (meta.columns@[col].physical == crate::meta::PhysicalKind::ByteArray
        || meta.columns@[col].physical == crate::meta::PhysicalKind::FixedLenByteArray)
    &&& exists|g: int|
        0 <= g < meta.row_groups@.len() && (#[trigger] meta.row_groups@[g]).columns@[col].num_values
            > 0 && !meta.row_groups@[g].columns@[col].has_bloom_filter
    &&& (meta.columns@[col].logical == Option::Some(crate::meta::LogicalKind::UuidLogical) || (
    card.non_null_count > 0 && card.distinct_count * 2 > card.non_null_count))
}

/// The whole shape of one bloom-filter finding for a column.
pub open spec fn spec_bloom_diag(
    meta: crate::meta::FileMeta,
    card: crate::cardinality::ColumnCardinality,
    column: usize,
    d: Diagnostic,
) -> bool {
    &&& column < meta.columns@.len()
    &&& spec_bloom_fires(meta, card, column as int)
    &&& d.severity == Severity::Suggestion
    &&& d.rule_name@ == "bloom-filter-recommendation"@
    &&& (d.location matches Location::Column { column: c2, path } && c2 == column && path@
        == meta.columns@[column as int].path@)
    &&& d.prescription@ =~~= seq![
        crate::prescription::DirectiveV::SetColumnBloomFilter(
            meta.columns@[column as int].path@,
            true,
        ),
        crate::prescription::DirectiveV::SetColumnBloomFilterNdv(
            meta.columns@[column as int].path@,
            card.distinct_count,
        ),
    ]
}

impl BloomFilterRule {
    /// Decides one column: the finding when the recommendation
    /// applies, nothing otherwise.
    fn check_column(ctx: &RuleContext, col: usize) -> (r: Option<Diagnostic>)
        requires
            ctx.wf(),
            col < ctx.meta.columns@.len(),
            ctx.meta.row_groups@.len() > 0,
        ensures
            r is Some <==> spec_bloom_fires(ctx.meta, ctx.cardinalities@[col as int], col as int),
            r matches Option::Some(d) ==> spec_bloom_diag(
                ctx.meta,
                ctx.cardinalities@[col as int],
                col,
                d,
            ),
    {
        let nrgs = ctx.meta.row_groups.len();
        let d = &ctx.meta.columns[col];
        let is_byte_array = matches!(
            d.physical,
            crate::meta::PhysicalKind::ByteArray | crate::meta::PhysicalKind::FixedLenByteArray,
        );
        let mut non_empty: usize = 0;
        let mut missing: usize = 0;
        let mut g: usize = 0;
        while g < nrgs
            invariant
                0 <= g <= nrgs,
                col < ctx.meta.columns@.len(),
                nrgs == ctx.meta.row_groups@.len(),
                ctx.wf(),
                non_empty <= g,
                missing <= g,
                (missing > 0) == exists|h: int|
                    0 <= h < g && (#[trigger] ctx.meta.row_groups@[h]).columns@[col as int].num_values
                        > 0 && !ctx.meta.row_groups@[h].columns@[col as int].has_bloom_filter,
            decreases nrgs - g,
        {
            let c = &ctx.meta.row_groups[g].columns[col];
            if c.num_values > 0 {
                non_empty += 1;
                if !c.has_bloom_filter {
                    proof {
                        assert(ctx.meta.row_groups@[g as int].columns@[col as int].num_values > 0);
                    }
                    missing += 1;
                }
            }
            g += 1;
        }
        let is_uuid = matches!(d.logical, Option::Some(crate::meta::LogicalKind::UuidLogical));
        let card = ctx.cardinalities[col];
        let fires = is_byte_array && missing > 0 && (is_uuid || card.ratio_gt(1, 2));
        proof {
            assert(fires == spec_bloom_fires(ctx.meta, ctx.cardinalities@[col as int], col as int));
        }
        if !fires {
            return None;
        }
        let path = ctx.meta.columns[col].path.dup();
        let ndv = card.distinct_count;
        let mut prescription = Prescription::new();
        prescription.push(Directive::SetColumnBloomFilter(path.dup(), true));
        prescription.push(Directive::SetColumnBloomFilterNdv(path.dup(), ndv));
        let mut msg = if is_uuid {
            "UUID column missing bloom filters in ".to_owned()
        } else {
            "high-cardinality byte array column missing bloom filters in ".to_owned()
        };
        msg.append(fraction_text(missing, non_empty).as_str());
        msg.append(" row groups (");
        msg.append(u64_to_string(ndv).as_str());
        msg.append(" estimated distinct values)");
        let diag = Diagnostic {
            rule_name: "bloom-filter-recommendation".to_owned(),
            severity: Severity::Suggestion,
            location: Location::Column { column: col, path },
            message: msg,
            prescription,
        };
        proof {
            assert(spec_bloom_diag(ctx.meta, ctx.cardinalities@[col as int], col, diag));
        }
        Some(diag)
    }

    /// One suggestion per column the recommendation applies to,
    /// prescribing a bloom filter sized by the estimated distinct
    /// count -- and none for the rest.
    #[verifier::spinoff_prover]
    pub fn run(ctx: &RuleContext) -> (r: Vec<Diagnostic>)
        requires
            ctx.wf(),
        ensures
            forall|k: int|
                0 <= k < r@.len() ==> ((#[trigger] r@[k]).location matches Location::Column {
                    column,
                    ..
                } && spec_bloom_diag(ctx.meta, ctx.cardinalities@[column as int], column, r@[k])),
            ctx.meta.row_groups@.len() > 0 ==> forall|c: usize|
                c < ctx.meta.columns@.len() && spec_bloom_fires(
                    ctx.meta,
                    ctx.cardinalities@[c as int],
                    c as int,
                ) ==> exists|k: int|
                    0 <= k < r@.len() && ((#[trigger] r@[k]).location matches Location::Column {
                        column,
                        ..
                    } && column == c),
    {
        let mut out: Vec<Diagnostic> = Vec::new();
        let nrgs = ctx.meta.row_groups.len();
        if nrgs == 0 {
            return out;
        }
        let ncols = ctx.meta.columns.len();
        let mut col: usize = 0;
        while col < ncols
            invariant
                0 <= col <= ncols,
                ncols == ctx.meta.columns@.len(),
                nrgs == ctx.meta.row_groups@.len(),
                nrgs > 0,
                ctx.wf(),
                forall|k: int|
                    0 <= k < out@.len() ==> ((#[trigger] out@[k]).location matches Location::Column {
                        column,
                        ..
                    } && spec_bloom_diag(
                        ctx.meta,
                        ctx.cardinalities@[column as int],
                        column,
                        out@[k],
                    )),
                forall|c: usize|
                    c < col && spec_bloom_fires(ctx.meta, ctx.cardinalities@[c as int], c as int)
                        ==> exists|k: int|
                        0 <= k < out@.len() && ((#[trigger] out@[k]).location
                            matches Location::Column { column, .. } && column == c),
            decreases ncols - col,
        {
            let found = Self::check_column(ctx, col);
            let ghost pre = out@;
            let ghost fired = found is Some;
            match found {
                Option::Some(diag) => {
                    out.push(diag);
                },
                Option::None => {},
            }
            proof {
                assert forall|c: usize|
                    c < col + 1 && spec_bloom_fires(
                        ctx.meta,
                        ctx.cardinalities@[c as int],
                        c as int,
                    ) implies exists|k: int|
                    0 <= k < out@.len() && ((#[trigger] out@[k]).location matches Location::Column {
                        column,
                        ..
                    } && column == c) by {
                    if c < col {
                        let k0 = choose|k0: int|
                            0 <= k0 < pre.len() && ((#[trigger] pre[k0]).location
                                matches Location::Column { column, .. } && column == c);
                        assert(out@[k0] == pre[k0]);
                    } else {
                        assert(fired);
                        assert(out@[pre.len() as int].location matches Location::Column {
                            column,
                            ..
                        } && column == col);
                    }
                }
            }
            col += 1;
        }
        out
    }
}

impl Rule for BloomFilterRule {
    fn name(&self) -> (r: String) {
        "bloom-filter-recommendation".to_owned()
    }

    fn check(&self, ctx: &RuleContext) -> (r: Vec<Diagnostic>) {
        Self::run(ctx)
    }
}

/// The page count accelerator scans want per row group.
pub const RECOMMENDED_PAGES_PER_ROW_GROUP: u64 = 100;

/// The count requests one non-empty row group contributes: its first
/// `upto` chunks that hold values but no offset index.
pub open spec fn spec_pc_row(meta: crate::meta::FileMeta, g: usize, upto: int) -> Seq<
    (usize, usize),
>
    decreases upto,
{
    if upto <= 0 {
        Seq::empty()
    } else {
        let c = meta.row_groups@[g as int].columns@[upto - 1];
        spec_pc_row(meta, g, upto - 1) + if c.num_values != 0 && c.page_location_count is None {
            seq![(g, (upto - 1) as usize)]
        } else {
            Seq::empty()
        }
    }
}

/// The count requests of the first `upto` row groups, in order.
pub open spec fn spec_pc_requests(meta: crate::meta::FileMeta, upto: int) -> Seq<(usize, usize)>
    decreases upto,
{
    if upto <= 0 {
        Seq::empty()
    } else {
        spec_pc_requests(meta, upto - 1) + if meta.row_groups@[upto - 1].num_rows > 0 {
            spec_pc_row(meta, (upto - 1) as usize, meta.columns@.len() as int)
        } else {
            Seq::empty()
        }
    }
}

/// The chunks whose pages the accelerator rule needs counted: exactly
/// those of non-empty row groups that hold values but no offset index,
/// in order.
pub fn page_count_requests(meta: &crate::meta::FileMeta) -> (r: Vec<(usize, usize)>)
    requires
        meta.wf(),
    ensures
        r@ =~= spec_pc_requests(*meta, meta.row_groups@.len() as int),
        forall|k: int|
            0 <= k < r@.len() ==> (#[trigger] r@[k]).0 < meta.row_groups@.len() && r@[k].1
                < meta.columns@.len(),
{
    let mut r: Vec<(usize, usize)> = Vec::new();
    let nrgs = meta.row_groups.len();
    let ncols = meta.columns.len();
    let mut g: usize = 0;
    while g < nrgs
        invariant
            0 <= g <= nrgs,
            nrgs == meta.row_groups@.len(),
            ncols == meta.columns@.len(),
            meta.wf(),
            r@ =~= spec_pc_requests(*meta, g as int),
            forall|k: int|
                0 <= k < r@.len() ==> (#[trigger] r@[k]).0 < nrgs && r@[k].1 < ncols,
        decreases nrgs - g,
    {
        if meta.row_groups[g].num_rows > 0 {
            let ghost before = r@;
            let mut c: usize = 0;
            while c < ncols
                invariant
                    0 <= c <= ncols,
                    g < nrgs,
                    nrgs == meta.row_groups@.len(),
                    ncols == meta.columns@.len(),
                    meta.wf(),
                    r@ =~= before + spec_pc_row(*meta, g, c as int),
                    forall|k: int|
                        0 <= k < r@.len() ==> (#[trigger] r@[k]).0 < nrgs && r@[k].1 < ncols,
                decreases ncols - c,
            {
                let ch = &meta.row_groups[g].columns[c];
                if ch.num_values != 0 && ch.page_location_count.is_none() {
                    r.push((g, c));
                }
                proof {
                    assert(r@ =~= before + spec_pc_row(*meta, g, c + 1 as int));
                }
                c += 1;
            }
            proof {
                assert(r@ =~= spec_pc_requests(*meta, g + 1 as int));
            }
        } else {
            proof {
                assert(r@ =~= spec_pc_requests(*meta, g + 1 as int));
            }
        }
        g += 1;
    }
    r
}

/// Checks, when accelerator scanning is of interest, that each row/// Checks, when accelerator scanning is of interest, that each row
/// group holds enough pages; columns averaging too few pages per row
/// group are reported.
pub struct GpuPageCountRule;

/// The page count of the first matching scan, if any.
pub open spec fn spec_probe_pages(
    probes: Seq<crate::rule::PageCountProbe>,
    rg: usize,
    col: usize,
    i: int,
) -> Option<u64>
    decreases probes.len() - i,
{
    if i < 0 || i >= probes.len() {
        Option::None
    } else if probes[i].row_group == rg && probes[i].column == col {
        probes[i].pages
    } else {
        spec_probe_pages(probes, rg, col, i + 1)
    }
}

/// The page count of one chunk: the offset index's page locations plus
/// a possible dictionary page, or the application's scan, or nothing.
pub open spec fn spec_chunk_pages(ctx: RuleContext, g: usize, c: usize) -> Option<u64> {
    let ch = ctx.meta.row_groups@[g as int].columns@[c as int];
    match ch.page_location_count {
        Option::Some(n) => Option::Some(
            crate::cardinality::spec_sat64(
                n + if ch.has_dictionary_page {
                    1int
                } else {
                    0int
                },
            ),
        ),
        Option::None => spec_probe_pages(ctx.page_counts@, g, c, 0),
    }
}

/// The saturated page total of a row group's first `upto` non-empty
/// countable chunks.
pub open spec fn spec_rg_pages(ctx: RuleContext, g: usize, upto: int) -> int
    decreases upto,
{
    if upto <= 0 {
        0
    } else {
        let prev = spec_rg_pages(ctx, g, upto - 1);
        let ch = ctx.meta.row_groups@[g as int].columns@[upto - 1];
        if ch.num_values != 0 && spec_chunk_pages(ctx, g, (upto - 1) as usize) is Some {
            crate::cardinality::spec_sat64(
                prev + spec_chunk_pages(ctx, g, (upto - 1) as usize)->Some_0,
            ) as int
        } else {
            prev
        }
    }
}

/// Whether a non-empty row group has a chunk whose pages cannot be
/// counted.
pub open spec fn spec_rg_failed(ctx: RuleContext, g: usize) -> bool {
    ctx.meta.row_groups@[g as int].num_rows > 0 && exists|c: usize|
        c < ctx.meta.columns@.len() && ctx.meta.row_groups@[g as int].columns@[c as int].num_values
            != 0 && #[trigger] spec_chunk_pages(ctx, g, c) is None
}

/// Whether a fully countable, non-empty row group holds too few pages
/// for accelerator scans.
pub open spec fn spec_rg_bad(ctx: RuleContext, g: usize) -> bool {
    ctx.meta.row_groups@[g as int].num_rows > 0 && !spec_rg_failed(ctx, g) && spec_rg_pages(
        ctx,
        g,
        ctx.meta.columns@.len() as int,
    ) < RECOMMENDED_PAGES_PER_ROW_GROUP as int
}

impl GpuPageCountRule {
    /// The page count of one chunk.
    fn chunk_pages(ctx: &RuleContext, g: usize, c: usize) -> (r: Option<u64>)
        requires
            ctx.wf(),
            g < ctx.meta.row_groups@.len(),
            c < ctx.meta.columns@.len(),
        ensures
            r == spec_chunk_pages(*ctx, g, c),
    {
        let ch = &ctx.meta.row_groups[g].columns[c];
        proof {
            assert(*ch == ctx.meta.row_groups@[g as int].columns@[c as int]);
        }
        match ch.page_location_count {
            Option::Some(n) => {
                let extra: u64 = if ch.has_dictionary_page {
                    1
                } else {
                    0
                };
                proof {
                    assert(ctx.meta.row_groups@[g as int].columns@[c as int].page_location_count
                        == Option::Some(n));
                }
                Some(n.saturating_add(extra))
            },
            Option::None => {
                proof {
                    assert(ctx.meta.row_groups@[g as int].columns@[c as int].page_location_count
                        is None);
                }
                let mut i: usize = 0;
                while i < ctx.page_counts.len()
                    invariant
                        0 <= i <= ctx.page_counts@.len(),
                        ctx.wf(),
                        g < ctx.meta.row_groups@.len(),
                        c < ctx.meta.columns@.len(),
                        ctx.meta.row_groups@[g as int].columns@[c as int].page_location_count
                            is None,
                        spec_probe_pages(ctx.page_counts@, g, c, 0) == spec_probe_pages(
                            ctx.page_counts@,
                            g,
                            c,
                            i as int,
                        ),
                    decreases ctx.page_counts@.len() - i,
                {
                    let p = &ctx.page_counts[i];
                    if p.row_group == g && p.column == c {
                        proof {
                            assert(ctx.page_counts@[i as int].row_group == g
                                && ctx.page_counts@[i as int].column == c);
                            assert(spec_probe_pages(ctx.page_counts@, g, c, i as int)
                                == ctx.page_counts@[i as int].pages);
                        }
                        return p.pages;
                    }
                    proof {
                        assert(spec_probe_pages(ctx.page_counts@, g, c, i as int)
                            == spec_probe_pages(ctx.page_counts@, g, c, i + 1 as int));
                    }
                    i += 1;
                }
                proof {
                    assert(spec_probe_pages(ctx.page_counts@, g, c, ctx.page_counts@.len() as int)
                        is None);
                }
                None
            },
        }
    }

    /// Findings when accelerator scanning is of interest: reported
    /// exactly when some row group is underfilled or could not be
    /// counted; every finding carries this rule's name and a warning.
    #[verifier::spinoff_prover]
    pub fn run(ctx: &RuleContext) -> (r: Vec<Diagnostic>)
        requires
            ctx.wf(),
        ensures
            !ctx.gpu ==> r@.len() == 0,
            ctx.gpu ==> ((r@.len() == 0) <==> !(exists|g: usize|
                g < ctx.meta.row_groups@.len() && (spec_rg_bad(*ctx, g) || spec_rg_failed(
                    *ctx,
                    g,
                )))),
            forall|k: int|
                0 <= k < r@.len() ==> (#[trigger] r@[k]).rule_name@ == "gpu-page-count"@ && r@[k].severity
                    == Severity::Warning && ((#[trigger] r@[k]).location matches Location::Column {
                    column,
                    path,
                } ==> column < ctx.meta.columns@.len() && path@ == ctx.meta.columns@[
                    column as int
                ].path@),
    {
        let mut out: Vec<Diagnostic> = Vec::new();
        if !ctx.gpu {
            return out;
        }
        let nrgs = ctx.meta.row_groups.len();
        let ncols = ctx.meta.columns.len();
        let mut col_pages: Vec<u64> = Vec::new();
        let mut col_groups: Vec<u64> = Vec::new();
        let mut c0: usize = 0;
        while c0 < ncols
            invariant
                0 <= c0 <= ncols,
                col_pages@.len() == c0,
                col_groups@.len() == c0,
            decreases ncols - c0,
        {
            col_pages.push(0);
            col_groups.push(0);
            c0 += 1;
        }
        let mut first_bad: Option<(usize, u64, usize)> = None;
        let mut read_failed: usize = 0;
        let ghost mut any_failed = false;
        let mut g: usize = 0;
        while g < nrgs
            invariant
                0 <= g <= nrgs,
                nrgs == ctx.meta.row_groups@.len(),
                ncols == ctx.meta.columns@.len(),
                ctx.wf(),
                col_pages@.len() == ncols,
                col_groups@.len() == ncols,
                read_failed <= g,
                any_failed == exists|h: usize| h < g && spec_rg_failed(*ctx, h),
                (read_failed > 0) == any_failed,
                match first_bad {
                    Option::Some(t) => t.0 < g && spec_rg_bad(*ctx, t.0),
                    Option::None => !(exists|h: usize| h < g && spec_rg_bad(*ctx, h)),
                },
            decreases nrgs - g,
        {
            if ctx.meta.row_groups[g].num_rows <= 0 {
                proof {
                    assert(!spec_rg_failed(*ctx, g) && !spec_rg_bad(*ctx, g));
                    assert(forall|h: usize| h < g + 1 && spec_rg_failed(*ctx, h) ==> h < g);
                    assert(forall|h: usize| h < g + 1 && spec_rg_bad(*ctx, h) ==> h < g);
                }
                g += 1;
                continue ;
            }
            let mut total_pages: u64 = 0;
            let mut non_empty_cols: usize = 0;
            let mut failed = false;
            let mut c: usize = 0;
            while c < ncols
                invariant
                    0 <= c <= ncols,
                    g < nrgs,
                    nrgs == ctx.meta.row_groups@.len(),
                    ncols == ctx.meta.columns@.len(),
                    ctx.wf(),
                    col_pages@.len() == ncols,
                    col_groups@.len() == ncols,
                    non_empty_cols <= c,
                    ctx.meta.row_groups@[g as int].num_rows > 0,
                    total_pages == spec_rg_pages(*ctx, g, c as int),
                    failed == exists|c2: usize|
                        c2 < c && ctx.meta.row_groups@[g as int].columns@[c2 as int].num_values
                            != 0 && #[trigger] spec_chunk_pages(*ctx, g, c2) is None,
                decreases ncols - c,
            {
                let ch = &ctx.meta.row_groups[g].columns[c];
                if ch.num_values != 0 {
                    match Self::chunk_pages(ctx, g, c) {
                        Option::Some(p) => {
                            total_pages = sat_add_u64(total_pages, p);
                            non_empty_cols += 1;
                            let old_p = col_pages[c];
                            col_pages.set(c, old_p.saturating_add(p));
                            let old_g = col_groups[c];
                            col_groups.set(c, old_g.saturating_add(1));
                        },
                        Option::None => {
                            proof {
                                assert(spec_chunk_pages(*ctx, g, c) is None);
                            }
                            failed = true;
                        },
                    }
                }
                c += 1;
            }
            if failed {
                proof {
                    assert(spec_rg_failed(*ctx, g));
                    assert(!spec_rg_bad(*ctx, g));
                }
                read_failed += 1;
                proof {
                    any_failed = true;
                }
            } else {
                proof {
                    assert(!spec_rg_failed(*ctx, g));
                }
                if total_pages < RECOMMENDED_PAGES_PER_ROW_GROUP && first_bad.is_none() {
                    proof {
                        assert(spec_rg_bad(*ctx, g));
                    }
                    first_bad = Some((g, total_pages, non_empty_cols));
                }
                proof {
                    if first_bad is None {
                        assert(!spec_rg_bad(*ctx, g));
                    }
                }
            }
            proof {
                assert(forall|h: usize| h < g + 1 && spec_rg_failed(*ctx, h) ==> (h < g
                    || spec_rg_failed(*ctx, g)));
                assert(forall|h: usize| h < g + 1 && spec_rg_bad(*ctx, h) ==> (h < g
                    || spec_rg_bad(*ctx, g)));
            }
            g += 1;
        }
        match first_bad {
            Option::None => {
                if read_failed > 0 {
                    let mut msg = "page count check could not read page counts for ".to_owned();
                    msg.append(usize_to_string(read_failed).as_str());
                    msg.append(" row groups; results may be incomplete");
                    out.push(
                        Diagnostic {
                            rule_name: "gpu-page-count".to_owned(),
                            severity: Severity::Warning,
                            location: Location::WholeFile,
                            message: msg,
                            prescription: Prescription::new(),
                        },
                    );
                }
                return out;
            },
            Option::Some((bad_idx, bad_pages, bad_cols)) => {
                let mut c: usize = 0;
                while c < ncols
                    invariant
                        0 <= c <= ncols,
                        ncols == ctx.meta.columns@.len(),
                        ctx.wf(),
                        col_pages@.len() == ncols,
                        col_groups@.len() == ncols,
                        nrgs == ctx.meta.row_groups@.len(),
                        forall|k: int|
                            0 <= k < out@.len() ==> (#[trigger] out@[k]).rule_name@
                                == "gpu-page-count"@ && out@[k].severity == Severity::Warning && ((
                            #[trigger] out@[k]).location matches Location::Column {
                                column,
                                path,
                            } ==> column < ncols && path@ == ctx.meta.columns@[column as int].path@),
                    decreases ncols - c,
                {
                    if col_groups[c] > 0 {
                        let path = ctx.meta.columns[c].path.dup();
                        let mut msg = "page count detail: this column has ".to_owned();
                        msg.append(u64_to_string(col_pages[c]).as_str());
                        msg.append(" total pages across ");
                        msg.append(u64_to_string(col_groups[c]).as_str());
                        msg.append("/");
                        msg.append(usize_to_string(nrgs).as_str());
                        msg.append(
                            " row groups; for accelerator scans each row group should hold more than 100 pages",
                        );
                        out.push(
                            Diagnostic {
                                rule_name: "gpu-page-count".to_owned(),
                                severity: Severity::Warning,
                                location: Location::Column { column: c, path },
                                message: msg,
                                prescription: Prescription::new(),
                            },
                        );
                    }
                    c += 1;
                }
                if out.len() == 0 {
                    let mut msg = "page count check failed for row group ".to_owned();
                    msg.append(usize_to_string(bad_idx).as_str());
                    msg.append(" (");
                    msg.append(u64_to_string(bad_pages).as_str());
                    msg.append(" total pages across ");
                    msg.append(usize_to_string(bad_cols).as_str());
                    msg.append(" non-empty column chunks); column averages unavailable");
                    out.push(
                        Diagnostic {
                            rule_name: "gpu-page-count".to_owned(),
                            severity: Severity::Warning,
                            location: Location::RowGroup { index: bad_idx },
                            message: msg,
                            prescription: Prescription::new(),
                        },
                    );
                }
                if read_failed > 0 {
                    let mut msg = "page count check could not read page counts for ".to_owned();
                    msg.append(usize_to_string(read_failed).as_str());
                    msg.append(" row groups; column averages may be incomplete");
                    out.push(
                        Diagnostic {
                            rule_name: "gpu-page-count".to_owned(),
                            severity: Severity::Warning,
                            location: Location::WholeFile,
                            message: msg,
                            prescription: Prescription::new(),
                        },
                    );
                }
            },
        }
        out
    }
}

impl Rule for GpuPageCountRule {
    fn name(&self) -> (r: String) {
        "gpu-page-count".to_owned()
    }

    fn check(&self, ctx: &RuleContext) -> (r: Vec<Diagnostic>) {
        Self::run(ctx)
    }
}

/// One of the registry's rules.
#[derive(Debug, Clone, Copy, PartialEq, Eq, Structural)]
pub enum RuleId {
    CompressionRatio,
    PageStatistics,
    VectorEmbedding,
    DictionaryEncoding,
    PageSize,
    FloatEncoding,
    GpuPageCount,
    StringEncoding,
    CompressionCodec,
    TimestampEncoding,
    StringStatistics,
    BloomFilter,
    SortedIntegers,
}

/// The registry, in its fixed run order.
pub open spec fn spec_registry() -> Seq<RuleId> {
    seq![
        RuleId::CompressionRatio,
        RuleId::PageStatistics,
        RuleId::VectorEmbedding,
        RuleId::DictionaryEncoding,
        RuleId::PageSize,
        RuleId::FloatEncoding,
        RuleId::GpuPageCount,
        RuleId::StringEncoding,
        RuleId::CompressionCodec,
        RuleId::TimestampEncoding,
        RuleId::StringStatistics,
        RuleId::BloomFilter,
        RuleId::SortedIntegers,
    ]
}

/// The name of a rule, for filtering.
pub open spec fn spec_rule_name(id: RuleId) -> Seq<char> {
    match id {
        RuleId::CompressionRatio => "low-compression-ratio"@,
        RuleId::PageStatistics => "missing-page-statistics"@,
        RuleId::VectorEmbedding => "vector-embedding-page-size"@,
        RuleId::DictionaryEncoding => "dictionary-encoding-cardinality"@,
        RuleId::PageSize => "page-row-group-size"@,
        RuleId::FloatEncoding => "float-byte-stream-split"@,
        RuleId::GpuPageCount => "gpu-page-count"@,
        RuleId::StringEncoding => "string-byte-array-encoding"@,
        RuleId::CompressionCodec => "compression-codec-upgrade"@,
        RuleId::TimestampEncoding => "timestamp-delta-encoding"@,
        RuleId::StringStatistics => "oversized-string-statistics"@,
        RuleId::BloomFilter => "bloom-filter-recommendation"@,
        RuleId::SortedIntegers => "sorted-integer-delta"@,
    }
}

/// Whether a diagnostic is one some rule of the registry would emit
/// against this context: its payload satisfies that rule's stated
/// shape.
pub open spec fn spec_diag_justified(ctx: &RuleContext, d: Diagnostic) -> bool {
    ||| (d.location matches Location::Column { column, path } && column < ctx.meta.columns@.len()
        && path@ == ctx.meta.columns@[column as int].path@ && {
        ||| (d.rule_name@ == "low-compression-ratio"@ && spec_nearly_incompressible(
            ctx.meta,
            column as int,
        ) && d.severity == Severity::Warning)
        ||| (d.rule_name@ == "missing-page-statistics"@ && spec_misses_column_index(
            ctx.meta,
            column as int,
        ) && d.severity == Severity::Warning)
        ||| (d.rule_name@ == "vector-embedding-page-size"@ && spec_embedding_fires(
            ctx.meta,
            column as int,
        ) && d.severity == Severity::Warning)
        ||| (d.rule_name@ == "float-byte-stream-split"@ && spec_float_encoding_fires(
            ctx.meta,
            ctx.cardinalities@[column as int],
            column as int,
        ) && d.severity == Severity::Suggestion)
        ||| (d.rule_name@ == "timestamp-delta-encoding"@ && spec_timestamp_encoding_fires(
            ctx.meta,
            column as int,
        ) && d.severity == Severity::Suggestion)
        ||| (d.rule_name@ == "sorted-integer-delta"@ && spec_sorted_fires(
            ctx.meta,
            column as int,
        ) && d.severity == Severity::Suggestion)
        ||| (d.rule_name@ == "oversized-string-statistics"@ && spec_string_stats_fires(
            ctx.meta,
            column as int,
        ) && d.severity == Severity::Warning)
        ||| (d.rule_name@ == "bloom-filter-recommendation"@ && spec_bloom_fires(
            ctx.meta,
            ctx.cardinalities@[column as int],
            column as int,
        ))
        ||| (d.rule_name@ == "string-byte-array-encoding"@ && spec_string_enc_fires(
            ctx.meta,
            column as int,
        ))
        ||| (d.rule_name@ == "compression-codec-upgrade"@ && spec_codec_rec(
            ctx.meta,
            column as int,
        ) is Some)
        ||| (d.rule_name@ == "dictionary-encoding-cardinality"@ && spec_dict_fires(
            ctx.meta,
            ctx.dict_probes@,
            ctx.cardinalities@[column as int],
            column as int,
        ))
        ||| (d.rule_name@ == "gpu-page-count"@ && ctx.gpu)
    })
    ||| (d.rule_name@ == "page-row-group-size"@ && d.severity == Severity::Warning && d.location
        is WholeFile && spec_rg_suggestion(spec_shapes(ctx.meta)) is Some)
    ||| (d.rule_name@ == "gpu-page-count"@ && d.severity == Severity::Warning && ctx.gpu && !(
    d.location matches Location::Column { .. }))
}

/// The completeness a rule owes in any result that holds its findings:
/// wherever its condition fires, a finding stands.
pub open spec fn spec_rule_witness(id: RuleId, ctx: &RuleContext, r: Seq<Diagnostic>) -> bool {
    let nrgs = ctx.meta.row_groups@.len();
    match id {
        RuleId::CompressionRatio => nrgs > 0 ==> forall|c: usize|
            c < ctx.meta.columns@.len() && spec_nearly_incompressible(ctx.meta, c as int)
                ==> exists|k: int|
                0 <= k < r.len() && ((#[trigger] r[k]).location matches Location::Column {
                    column,
                    ..
                } && column == c),
        RuleId::PageStatistics => nrgs > 0 ==> forall|c: usize|
            c < ctx.meta.columns@.len() && spec_misses_column_index(ctx.meta, c as int)
                ==> exists|k: int|
                0 <= k < r.len() && ((#[trigger] r[k]).location matches Location::Column {
                    column,
                    ..
                } && column == c),
        RuleId::VectorEmbedding => nrgs > 0 ==> forall|c: usize|
            c < ctx.meta.columns@.len() && spec_embedding_fires(ctx.meta, c as int) ==> exists|
                k: int,
            |
                0 <= k < r.len() && ((#[trigger] r[k]).location matches Location::Column {
                    column,
                    ..
                } && column == c),
        RuleId::DictionaryEncoding => nrgs > 0 ==> forall|c: usize|
            c < ctx.meta.columns@.len() && spec_dict_fires(
                ctx.meta,
                ctx.dict_probes@,
                ctx.cardinalities@[c as int],
                c as int,
            ) ==> exists|k: int|
                0 <= k < r.len() && ((#[trigger] r[k]).location matches Location::Column {
                    column,
                    ..
                } && column == c),
        RuleId::PageSize => spec_rg_suggestion(spec_shapes(ctx.meta)) is Some ==> exists|k: int|
            0 <= k < r.len() && (#[trigger] r[k]).rule_name@ == "page-row-group-size"@ && r[k].location
                is WholeFile,
        RuleId::FloatEncoding => nrgs > 0 ==> forall|c: usize|
            c < ctx.meta.columns@.len() && spec_float_encoding_fires(
                ctx.meta,
                ctx.cardinalities@[c as int],
                c as int,
            ) ==> exists|k: int|
                0 <= k < r.len() && ((#[trigger] r[k]).location matches Location::Column {
                    column,
                    ..
                } && column == c),
        RuleId::GpuPageCount => (ctx.gpu && exists|g: usize|
            g < nrgs && (spec_rg_bad(*ctx, g) || spec_rg_failed(*ctx, g))) ==> exists|k: int|
            0 <= k < r.len() && (#[trigger] r[k]).rule_name@ == "gpu-page-count"@,
        RuleId::StringEncoding => nrgs > 0 ==> forall|c: usize|
            c < ctx.meta.columns@.len() && spec_string_enc_fires(ctx.meta, c as int) ==> exists|
                k: int,
            |
                0 <= k < r.len() && ((#[trigger] r[k]).location matches Location::Column {
                    column,
                    ..
                } && column == c),
        RuleId::CompressionCodec => nrgs > 0 ==> forall|c: usize|
            c < ctx.meta.columns@.len() && spec_codec_rec(ctx.meta, c as int) is Some ==> exists|
                k: int,
            |
                0 <= k < r.len() && ((#[trigger] r[k]).location matches Location::Column {
                    column,
                    ..
                } && column == c),
        RuleId::TimestampEncoding => nrgs > 0 ==> forall|c: usize|
            c < ctx.meta.columns@.len() && spec_timestamp_encoding_fires(ctx.meta, c as int)
                ==> exists|k: int|
                0 <= k < r.len() && ((#[trigger] r[k]).location matches Location::Column {
                    column,
                    ..
                } && column == c),
        RuleId::StringStatistics => nrgs > 0 ==> forall|c: usize|
            c < ctx.meta.columns@.len() && spec_string_stats_fires(ctx.meta, c as int)
                ==> exists|k: int|
                0 <= k < r.len() && ((#[trigger] r[k]).location matches Location::Column {
                    column,
                    ..
                } && column == c),
        RuleId::BloomFilter => nrgs > 0 ==> forall|c: usize|
            c < ctx.meta.columns@.len() && spec_bloom_fires(
                ctx.meta,
                ctx.cardinalities@[c as int],
                c as int,
            ) ==> exists|k: int|
                0 <= k < r.len() && ((#[trigger] r[k]).location matches Location::Column {
                    column,
                    ..
                } && column == c),
        RuleId::SortedIntegers => nrgs > 0 ==> forall|c: usize|
            c < ctx.meta.columns@.len() && spec_sorted_fires(ctx.meta, c as int) ==> exists|
                k: int,
            |
                0 <= k < r.len() && ((#[trigger] r[k]).location matches Location::Column {
                    column,
                    ..
                } && column == c),
    }
}

/// Every element of `s` occurs in `t`.
pub open spec fn seq_covered(s: Seq<Diagnostic>, t: Seq<Diagnostic>) -> bool {
    forall|i: int| 0 <= i < s.len() ==> t.contains(#[trigger] s[i])
}

/// A concatenation covers both of its parts.
pub proof fn lemma_covered_concat(a: Seq<Diagnostic>, b: Seq<Diagnostic>, t: Seq<Diagnostic>)
    requires
        t == a + b,
    ensures
        seq_covered(a, t),
        seq_covered(b, t),
{
    assert forall|i: int| 0 <= i < a.len() implies t.contains(#[trigger] a[i]) by {
        assert(t[i] == a[i]);
    }
    assert forall|i: int| 0 <= i < b.len() implies t.contains(#[trigger] b[i]) by {
        assert(t[a.len() + i] == b[i]);
    }
}

/// A rule's completeness carries over to any result that holds its
/// findings.
pub proof fn lemma_witness_covered(id: RuleId, ctx: &RuleContext, s: Seq<Diagnostic>, t: Seq<Diagnostic>)
    requires
        spec_rule_witness(id, ctx, s),
        seq_covered(s, t),
    ensures
        spec_rule_witness(id, ctx, t),
{
    match id {
        RuleId::PageSize => {
            if spec_rg_suggestion(spec_shapes(ctx.meta)) is Some {
                let k = choose|k: int|
                    0 <= k < s.len() && (#[trigger] s[k]).rule_name@ == "page-row-group-size"@
                        && s[k].location is WholeFile;
                assert(t.contains(s[k]));
                let j = choose|j: int| 0 <= j < t.len() && t[j] == s[k];
                assert(t[j].rule_name@ == "page-row-group-size"@ && t[j].location is WholeFile);
            }
        },
        RuleId::GpuPageCount => {
            if ctx.gpu && exists|g: usize|
                g < ctx.meta.row_groups@.len() && (spec_rg_bad(*ctx, g) || spec_rg_failed(
                    *ctx,
                    g,
                )) {
                let k = choose|k: int|
                    0 <= k < s.len() && (#[trigger] s[k]).rule_name@ == "gpu-page-count"@;
                assert(t.contains(s[k]));
                let j = choose|j: int| 0 <= j < t.len() && t[j] == s[k];
                assert(t[j].rule_name@ == "gpu-page-count"@);
            }
        },
        _ => {
            assert forall|c: usize|
                #![auto]
                spec_column_witnessed(id, ctx, s, c) implies spec_column_witnessed(id, ctx, t, c) by {
                if exists|k: int|
                    0 <= k < s.len() && ((#[trigger] s[k]).location matches Location::Column {
                        column,
                        ..
                    } && column == c) {
                    let k = choose|k: int|
                        0 <= k < s.len() && ((#[trigger] s[k]).location matches Location::Column {
                            column,
                            ..
                        } && column == c);
                    assert(t.contains(s[k]));
                    let j = choose|j: int| 0 <= j < t.len() && t[j] == s[k];
                    assert(t[j].location matches Location::Column { column, .. } && column == c);
                }
            }
        },
    }
}

/// Shorthand for "some finding in `r` names column `c`".
pub open spec fn spec_column_witnessed(id: RuleId, ctx: &RuleContext, r: Seq<Diagnostic>, c: usize) -> bool {
    exists|k: int|
        0 <= k < r.len() && ((#[trigger] r[k]).location matches Location::Column { column, .. }
            && column == c)
}

impl RuleId {
    /// The rule's name, for filtering.
    pub fn name(&self) -> (r: String)
        ensures
            r@ == spec_rule_name(*self),
    {
        match self {
            RuleId::CompressionRatio => "low-compression-ratio".to_owned(),
            RuleId::PageStatistics => "missing-page-statistics".to_owned(),
            RuleId::VectorEmbedding => "vector-embedding-page-size".to_owned(),
            RuleId::DictionaryEncoding => "dictionary-encoding-cardinality".to_owned(),
            RuleId::PageSize => "page-row-group-size".to_owned(),
            RuleId::FloatEncoding => "float-byte-stream-split".to_owned(),
            RuleId::GpuPageCount => "gpu-page-count".to_owned(),
            RuleId::StringEncoding => "string-byte-array-encoding".to_owned(),
            RuleId::CompressionCodec => "compression-codec-upgrade".to_owned(),
            RuleId::TimestampEncoding => "timestamp-delta-encoding".to_owned(),
            RuleId::StringStatistics => "oversized-string-statistics".to_owned(),
            RuleId::BloomFilter => "bloom-filter-recommendation".to_owned(),
            RuleId::SortedIntegers => "sorted-integer-delta".to_owned(),
        }
    }

    /// Runs the rule: every finding is justified against the context,
    /// and the rule's completeness holds of the result.
    #[verifier::spinoff_prover]
    #[verifier::rlimit(60)]
    pub fn check(&self, ctx: &RuleContext) -> (r: Vec<Diagnostic>)
        requires
            ctx.wf(),
        ensures
            forall|k: int| 0 <= k < r@.len() ==> spec_diag_justified(ctx, #[trigger] r@[k]),
            spec_rule_witness(*self, ctx, r@),
    {
        match self {
            RuleId::CompressionRatio => {
                let r = CompressionRatioRule::run(ctx);
                proof {
                    assert(forall|k: int|
                        0 <= k < r@.len() ==> spec_diag_justified(ctx, #[trigger] r@[k]));
                }
                r
            },
            RuleId::PageStatistics => {
                let r = PageStatisticsRule::run(ctx);
                proof {
                    assert(forall|k: int|
                        0 <= k < r@.len() ==> spec_diag_justified(ctx, #[trigger] r@[k]));
                }
                r
            },
            RuleId::VectorEmbedding => {
                let r = VectorEmbeddingRule::run(ctx);
                proof {
                    assert(forall|k: int|
                        0 <= k < r@.len() ==> spec_diag_justified(ctx, #[trigger] r@[k]));
                }
                r
            },
            RuleId::DictionaryEncoding => {
                let r = DictionaryEncodingRule::run(ctx);
                proof {
                    assert(forall|k: int|
                        0 <= k < r@.len() ==> spec_diag_justified(ctx, #[trigger] r@[k]));
                }
                r
            },
            RuleId::PageSize => {
                let r = PageSizeRule::run(ctx);
                proof {
                    assert(forall|k: int|
                        0 <= k < r@.len() ==> spec_diag_justified(ctx, #[trigger] r@[k]));
                    if spec_rg_suggestion(spec_shapes(ctx.meta)) is Some {
                        assert(r@[0].rule_name@ == "page-row-group-size"@ && r@[0].location
                            is WholeFile);
                    }
                }
                r
            },
            RuleId::FloatEncoding => {
                let r = FloatEncodingRule::run(ctx);
                proof {
                    assert(forall|k: int|
                        0 <= k < r@.len() ==> spec_diag_justified(ctx, #[trigger] r@[k]));
                }
                r
            },
            RuleId::GpuPageCount => {
                let r = GpuPageCountRule::run(ctx);
                proof {
                    assert(forall|k: int|
                        0 <= k < r@.len() ==> spec_diag_justified(ctx, #[trigger] r@[k]));
                    if ctx.gpu && exists|g: usize|
                        g < ctx.meta.row_groups@.len() && (spec_rg_bad(*ctx, g) || spec_rg_failed(
                            *ctx,
                            g,
                        )) {
                        assert(r@.len() > 0);
                        assert(r@[0].rule_name@ == "gpu-page-count"@);
                    }
                }
                r
            },
            RuleId::StringEncoding => {
                let r = StringEncodingRule::run(ctx);
                proof {
                    assert(forall|k: int|
                        0 <= k < r@.len() ==> spec_diag_justified(ctx, #[trigger] r@[k]));
                }
                r
            },
            RuleId::CompressionCodec => {
                let r = CompressionCodecRule::run(ctx);
                proof {
                    assert(forall|k: int|
                        0 <= k < r@.len() ==> spec_diag_justified(ctx, #[trigger] r@[k]));
                }
                r
            },
            RuleId::TimestampEncoding => {
                let r = TimestampEncodingRule::run(ctx);
                proof {
                    assert(forall|k: int|
                        0 <= k < r@.len() ==> spec_diag_justified(ctx, #[trigger] r@[k]));
                }
                r
            },
            RuleId::StringStatistics => {
                let r = StringStatisticsRule::run(ctx);
                proof {
                    assert(forall|k: int|
                        0 <= k < r@.len() ==> spec_diag_justified(ctx, #[trigger] r@[k]));
                }
                r
            },
            RuleId::BloomFilter => {
                let r = BloomFilterRule::run(ctx);
                proof {
                    assert(forall|k: int|
                        0 <= k < r@.len() ==> spec_diag_justified(ctx, #[trigger] r@[k]));
                }
                r
            },
            RuleId::SortedIntegers => {
                let r = SortedIntegersRule::run(ctx);
                proof {
                    assert(forall|k: int|
                        0 <= k < r@.len() ==> spec_diag_justified(ctx, #[trigger] r@[k]));
                }
                r
            },
        }
    }
}

/// The whole registry, in its fixed run order.
pub fn all_rules() -> (r: Vec<RuleId>)
    ensures
        r@ =~= spec_registry(),
{
    let mut r: Vec<RuleId> = Vec::new();
    r.push(RuleId::CompressionRatio);
    r.push(RuleId::PageStatistics);
    r.push(RuleId::VectorEmbedding);
    r.push(RuleId::DictionaryEncoding);
    r.push(RuleId::PageSize);
    r.push(RuleId::FloatEncoding);
    r.push(RuleId::GpuPageCount);
    r.push(RuleId::StringEncoding);
    r.push(RuleId::CompressionCodec);
    r.push(RuleId::TimestampEncoding);
    r.push(RuleId::StringStatistics);
    r.push(RuleId::BloomFilter);
    r.push(RuleId::SortedIntegers);
    proof {
        assert(r@ =~= spec_registry());
    }
    r
}

/// Whether a rule's name occurs in a name list.
pub open spec fn spec_name_in(ns: Seq<Seq<char>>, n: Seq<char>) -> bool {
    exists|k: int| 0 <= k < ns.len() && #[trigger] ns[k] == n
}

/// The registry entries from position `i` on whose names occur in the
/// list, in order.
pub open spec fn spec_selected(ns: Seq<Seq<char>>, i: int) -> Seq<RuleId>
    decreases spec_registry().len() - i,
{
    if i < 0 || i >= spec_registry().len() {
        Seq::empty()
    } else {
        (if spec_name_in(ns, spec_rule_name(spec_registry()[i])) {
            seq![spec_registry()[i]]
        } else {
            Seq::empty()
        }) + spec_selected(ns, i + 1)
    }
}

/// The rules a lint run uses: the whole registry, or the selection by
/// name.
pub open spec fn spec_rules_for(names: Option<&Vec<String>>) -> Seq<RuleId> {
    match names {
        Option::None => spec_registry(),
        Option::Some(ns) => spec_selected(ns.deep_view(), 0),
    }
}

/// The registry filtered by name: `None` gives every rule in order; a
/// list gives exactly the registry subsequence whose names occur in
/// it.  An unknown name matches nothing.
pub fn get_rules(names: Option<&Vec<String>>) -> (r: Vec<RuleId>)
    ensures
        r@ =~= spec_rules_for(names),
{
    let all = all_rules();
    match names {
        Option::None => all,
        Option::Some(wanted) => {
            let ghost nsv = wanted.deep_view();
            let mut r: Vec<RuleId> = Vec::new();
            let mut i: usize = 0;
            while i < all.len()
                invariant
                    0 <= i <= all@.len(),
                    all@ =~= spec_registry(),
                    nsv == wanted.deep_view(),
                    spec_selected(nsv, 0) =~= r@ + spec_selected(nsv, i as int),
                decreases all@.len() - i,
            {
                let nm = all[i].name();
                let mut keep = false;
                let mut k: usize = 0;
                while k < wanted.len()
                    invariant
                        0 <= k <= wanted@.len(),
                        nsv == wanted.deep_view(),
                        nm@ == spec_rule_name(all@[i as int]),
                        i < all@.len(),
                        all@ =~= spec_registry(),
                        keep == exists|k0: int| 0 <= k0 < k && #[trigger] nsv[k0] == nm@,
                    decreases wanted@.len() - k,
                {
                    proof {
                        assert(wanted@[k as int]@ == nsv[k as int]);
                    }
                    if crate::strutil::str_eq(wanted[k].as_str(), nm.as_str()) {
                        keep = true;
                    }
                    k += 1;
                }
                let ghost old_r = r@;
                if keep {
                    r.push(all[i]);
                }
                proof {
                    assert(keep == spec_name_in(nsv, spec_rule_name(spec_registry()[i as int])));
                    if keep {
                        assert(r@ =~= old_r.push(spec_registry()[i as int]));
                    }
                    assert(spec_selected(nsv, i as int) =~= (if keep {
                        seq![spec_registry()[i as int]]
                    } else {
                        Seq::<RuleId>::empty()
                    }) + spec_selected(nsv, i + 1 as int));
                    assert(spec_selected(nsv, 0) =~= r@ + spec_selected(nsv, i + 1 as int));
                }
                i += 1;
            }
            proof {
                assert(spec_selected(nsv, all@.len() as int) =~= Seq::<RuleId>::empty());
                assert(r@ =~= spec_selected(nsv, 0));
            }
            r
        },
    }
}

} // verus!
