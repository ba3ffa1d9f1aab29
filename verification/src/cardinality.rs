//! The cardinality estimator: one distinct-count/non-null-count pair
//! per column, derived from metadata in tiers — declared statistics
//! first, then a dictionary-page probe, then a bounded row sample, and
//! finally the conservative assumption that every value is distinct.
//!
//! The two probing steps need bytes from the file; the surrounding
//! application fetches them for the columns named by `probe_requests`
//! and `sample_requests` and hands the findings back as plain values.

use crate::meta::{column_non_null_count, spec_chunk_non_null, FileMeta};
use vstd::prelude::*;

verus! {

/// How many rows a sample pass reads at most.
pub const SAMPLE_ROWS: usize = 16384;

/// The estimate for one column.
#[derive(Debug, Clone, Copy, PartialEq, Eq, Structural)]
pub struct ColumnCardinality {
    /// Estimated number of distinct non-null values in the file.
    pub distinct_count: u64,
    /// Number of non-null values in the file.
    pub non_null_count: u64,
}

/// The product of two 64-bit values fits in 128 bits.
pub proof fn lemma_u64_mul_fits(a: u64, b: u64)
    ensures
        0 <= (a as int) * (b as int) <= u128::MAX,
{
    assert((a as int) * (b as int) <= (u64::MAX as int) * (u64::MAX as int)) by (nonlinear_arith)
        requires
            0 <= a <= u64::MAX,
            0 <= b <= u64::MAX,
    ;
    assert((a as int) * (b as int) >= 0) by (nonlinear_arith)
        requires
            0 <= a,
            0 <= b,
    ;
}

impl ColumnCardinality {
    /// Whether the cardinality ratio `distinct / non_null` exceeds
    /// `num / den`.  A column with no non-null values has ratio zero.
    pub fn ratio_gt(&self, num: u64, den: u64) -> (r: bool)
        requires
            den > 0,
        ensures
            r == (self.non_null_count > 0 && self.distinct_count * den > num
                * self.non_null_count),
    {
        proof {
            lemma_u64_mul_fits(self.distinct_count, den);
            lemma_u64_mul_fits(num, self.non_null_count);
        }
        self.non_null_count > 0 && (self.distinct_count as u128) * (den as u128) > (num as u128)
            * (self.non_null_count as u128)
    }

    /// Whether the cardinality ratio `distinct / non_null` is below
    /// `num / den`.  A column with no non-null values has ratio zero,
    /// which is below any positive bound.
    pub fn ratio_lt(&self, num: u64, den: u64) -> (r: bool)
        requires
            den > 0,
        ensures
            r == (self.non_null_count == 0 && num > 0 || self.distinct_count * den < num
                * self.non_null_count),
    {
        proof {
            lemma_u64_mul_fits(self.distinct_count, den);
            lemma_u64_mul_fits(num, self.non_null_count);
        }
        if self.non_null_count == 0 {
            num > 0
        } else {
            (self.distinct_count as u128) * (den as u128) < (num as u128) * (self.non_null_count
                as u128)
        }
    }
}

/// What probing a column chunk's first page found.
#[derive(Debug, Clone, Copy, PartialEq, Eq, Structural)]
pub enum PageProbe {
    /// The first page is a dictionary page with this many entries.
    DictionaryOf { entries: u64 },
    /// The first page is a data page.
    OtherPage,
    /// The chunk was not probed or could not be read.
    Unavailable,
}

/// The non-null values one sampled column yielded, as plain values.
/// Floating-point values are carried by their bit patterns, so that
/// equal bit patterns — and only those — count as one value.
#[derive(Debug)]
pub enum ColumnSample {
    BoolSample(Vec<bool>),
    IntSample(Vec<i64>),
    BitsSample(Vec<u64>),
    TextSample(Vec<String>),
    BlobSample(Vec<Vec<u8>>),
    /// Values of a kind the sampler cannot compare; each position
    /// counts as its own value.
    OpaqueSample { rows: u64 },
    /// No sample was taken.
    NoSample,
}

/// The index of the representative row group: the first one with rows.
pub open spec fn spec_sample_rg(meta: FileMeta) -> int {
    spec_sample_rg_from(meta, 0)
}

pub open spec fn spec_sample_rg_from(meta: FileMeta, i: int) -> int
    decreases meta.row_groups@.len() - i,
{
    if i < 0 || i >= meta.row_groups@.len() {
        0
    } else if meta.row_groups@[i].num_rows > 0 {
        i
    } else {
        spec_sample_rg_from(meta, i + 1)
    }
}

/// Picks the representative row group for sampling.
pub fn pick_sample_row_group(meta: &FileMeta) -> (r: usize)
    ensures
        r == spec_sample_rg(*meta),
        meta.row_groups@.len() > 0 ==> r < meta.row_groups@.len(),
{
    let n = meta.row_groups.len();
    let mut i: usize = 0;
    while i < n
        invariant
            0 <= i <= n,
            n == meta.row_groups@.len(),
            spec_sample_rg(*meta) == spec_sample_rg_from(*meta, i as int),
        decreases n - i,
    {
        if meta.row_groups[i].num_rows > 0 {
            return i;
        }
        i += 1;
    }
    0
}

/// The file-wide non-null count of a column: the sum over the first
/// `upto` row groups.
pub open spec fn spec_non_null_total(meta: FileMeta, col: int, upto: int) -> int
    decreases upto,
{
    if upto <= 0 {
        0
    } else {
        spec_non_null_total(meta, col, upto - 1) + spec_chunk_non_null(
            meta.row_groups@[upto - 1].columns@[col],
        )
    }
}

/// The file-wide value count of a column (nulls included).
pub open spec fn spec_values_total(meta: FileMeta, col: int, upto: int) -> int
    decreases upto,
{
    if upto <= 0 {
        0
    } else {
        let v = meta.row_groups@[upto - 1].columns@[col].num_values;
        spec_values_total(meta, col, upto - 1) + if v > 0 {
            v as int
        } else {
            0
        }
    }
}

/// Per chunk, non-null values never outnumber values.
pub proof fn lemma_non_null_le_values(meta: FileMeta, col: int, upto: int)
    requires
        meta.wf(),
        0 <= col < meta.columns@.len(),
        0 <= upto <= meta.row_groups@.len(),
    ensures
        0 <= spec_non_null_total(meta, col, upto) <= spec_values_total(meta, col, upto),
    decreases upto,
{
    if upto > 0 {
        lemma_non_null_le_values(meta, col, upto - 1);
    }
}

/// The non-null total of one column, saturating at the largest `u64`.
pub fn total_non_null_for_column(meta: &FileMeta, col: usize) -> (r: u64)
    requires
        meta.wf(),
        col < meta.columns@.len(),
    ensures
        r == spec_sat64(spec_non_null_total(*meta, col as int, meta.row_groups@.len() as int)),
{
    let n = meta.row_groups.len();
    let mut total: u64 = 0;
    let mut g: usize = 0;
    while g < n
        invariant
            0 <= g <= n,
            n == meta.row_groups@.len(),
            meta.wf(),
            col < meta.columns@.len(),
            total == spec_sat64(spec_non_null_total(*meta, col as int, g as int)),
        decreases n - g,
    {
        proof {
            lemma_non_null_le_values(*meta, col as int, g as int);
        }
        let c = column_non_null_count(&meta.row_groups[g].columns[col]);
        total = total.saturating_add(c);
        g += 1;
    }
    total
}

/// Saturation of an unbounded sum at the largest `u64`.
pub open spec fn spec_sat64(v: int) -> u64 {
    if v < 0 {
        0
    } else if v > u64::MAX {
        u64::MAX
    } else {
        v as u64
    }
}

/// The non-null totals of all columns.
pub fn total_non_null_values_per_column(meta: &FileMeta) -> (r: Vec<u64>)
    requires
        meta.wf(),
    ensures
        r@.len() == meta.columns@.len(),
        forall|c: int|
            0 <= c < r@.len() ==> r@[c] == spec_sat64(
                spec_non_null_total(*meta, c, meta.row_groups@.len() as int),
            ),
{
    let n = meta.columns.len();
    let mut r: Vec<u64> = Vec::new();
    let mut c: usize = 0;
    while c < n
        invariant
            0 <= c <= n,
            n == meta.columns@.len(),
            meta.wf(),
            r@.len() == c,
            forall|k: int|
                0 <= k < c ==> r@[k] == spec_sat64(
                    spec_non_null_total(*meta, k, meta.row_groups@.len() as int),
                ),
        decreases n - c,
    {
        let t = total_non_null_for_column(meta, c);
        r.push(t);
        c += 1;
    }
    r
}

/// Scales a sampled distinct count to the whole file: the sample's
/// distinct/non-null ratio times the file's non-null total, floored at
/// the sampled count and capped at the file total.
pub open spec fn spec_scale_distinct(sample_distinct: u64, sample_total: u64, full_total: u64) -> u64 {
    if sample_total == 0 || full_total == 0 {
        full_total
    } else {
        let scaled = (sample_distinct as int * full_total as int) / (sample_total as int);
        let floored = if scaled > sample_distinct {
            scaled
        } else {
            sample_distinct as int
        };
        if floored > full_total {
            full_total
        } else {
            floored as u64
        }
    }
}

/// Scales a sampled distinct count to the whole file.
pub fn scale_distinct(sample_distinct: u64, sample_total: u64, full_total: u64) -> (r: u64)
    ensures
        r == spec_scale_distinct(sample_distinct, sample_total, full_total),
        r <= full_total,
{
    if sample_total == 0 || full_total == 0 {
        return full_total;
    }
    proof {
        lemma_u64_mul_fits(sample_distinct, full_total);
    }
    let scaled_wide = (sample_distinct as u128) * (full_total as u128) / (sample_total as u128);
    let scaled: u64 = if scaled_wide > u64::MAX as u128 {
        u64::MAX
    } else {
        scaled_wide as u64
    };
    let floored = if scaled > sample_distinct {
        scaled
    } else {
        sample_distinct
    };
    if floored > full_total {
        full_total
    } else {
        floored
    }
}

/// The number of distinct elements of a sequence.
pub open spec fn seq_distinct<T>(s: Seq<T>) -> int
    decreases s.len(),
{
    if s.len() == 0 {
        0
    } else {
        seq_distinct(s.drop_last()) + if s.drop_last().contains(s.last()) {
            0int
        } else {
            1int
        }
    }
}

/// There are never more distinct elements than elements.
pub proof fn lemma_seq_distinct_le_len<T>(s: Seq<T>)
    ensures
        0 <= seq_distinct(s) <= s.len(),
    decreases s.len(),
{
    if s.len() > 0 {
        lemma_seq_distinct_le_len(s.drop_last());
    }
}

/// Byte-string equality.
pub fn bytes_eq(a: &Vec<u8>, b: &Vec<u8>) -> (r: bool)
    ensures
        r == (a@ == b@),
{
    if a.len() != b.len() {
        proof {
            assert(a@ != b@);
        }
        return false;
    }
    let mut i: usize = 0;
    while i < a.len()
        invariant
            0 <= i <= a@.len(),
            a@.len() == b@.len(),
            forall|k: int| 0 <= k < i ==> a@[k] == b@[k],
        decreases a@.len() - i,
    {
        if a[i] != b[i] {
            return false;
        }
        i += 1;
    }
    proof {
        assert(a@ =~= b@);
    }
    true
}

/// The number of distinct values in a vector of integers.
pub fn distinct_i64(v: &Vec<i64>) -> (r: u64)
    ensures
        r == seq_distinct(v@),
{
    let mut count: u64 = 0;
    let mut i: usize = 0;
    while i < v.len()
        invariant
            0 <= i <= v@.len(),
            count == seq_distinct(v@.take(i as int)),
            count <= i,
        decreases v@.len() - i,
    {
        let mut seen = false;
        let mut j: usize = 0;
        while j < i
            invariant
                0 <= j <= i < v@.len(),
                seen == v@.take(j as int).contains(v@[i as int]),
            decreases i - j,
        {
            proof {
                let pre = v@.take(j as int);
                let post = v@.take(j + 1 as int);
                let x = v@[i as int];
                assert(post =~= pre.push(v@[j as int]));
                if pre.contains(x) {
                    let w = choose|w: int| 0 <= w < pre.len() && pre[w] == x;
                    assert(post[w] == x);
                    assert(post.contains(x));
                }
                if v@[j as int] == x {
                    assert(post[j as int] == x);
                    assert(post.contains(x));
                }
                if post.contains(x) {
                    let w = choose|w: int| 0 <= w < post.len() && post[w] == x;
                    if w < j {
                        assert(pre[w] == x);
                        assert(pre.contains(x));
                    }
                }
            }
            if v[j] == v[i] {
                seen = true;
            }
            j += 1;
        }
        proof {
            lemma_seq_distinct_le_len(v@.take(i as int));
            assert(v@.take(i + 1 as int).drop_last() =~= v@.take(i as int));
            assert(v@.take(i + 1 as int).last() == v@[i as int]);
        }
        if !seen {
            count += 1;
        }
        i += 1;
    }
    proof {
        assert(v@.take(v@.len() as int) =~= v@);
    }
    count
}

/// The number of distinct values in a vector of bit patterns.
pub fn distinct_u64(v: &Vec<u64>) -> (r: u64)
    ensures
        r == seq_distinct(v@),
{
    let mut count: u64 = 0;
    let mut i: usize = 0;
    while i < v.len()
        invariant
            0 <= i <= v@.len(),
            count == seq_distinct(v@.take(i as int)),
            count <= i,
        decreases v@.len() - i,
    {
        let mut seen = false;
        let mut j: usize = 0;
        while j < i
            invariant
                0 <= j <= i < v@.len(),
                seen == v@.take(j as int).contains(v@[i as int]),
            decreases i - j,
        {
            proof {
                let pre = v@.take(j as int);
                let post = v@.take(j + 1 as int);
                let x = v@[i as int];
                assert(post =~= pre.push(v@[j as int]));
                if pre.contains(x) {
                    let w = choose|w: int| 0 <= w < pre.len() && pre[w] == x;
                    assert(post[w] == x);
                    assert(post.contains(x));
                }
                if v@[j as int] == x {
                    assert(post[j as int] == x);
                    assert(post.contains(x));
                }
                if post.contains(x) {
                    let w = choose|w: int| 0 <= w < post.len() && post[w] == x;
                    if w < j {
                        assert(pre[w] == x);
                        assert(pre.contains(x));
                    }
                }
            }
            if v[j] == v[i] {
                seen = true;
            }
            j += 1;
        }
        proof {
            lemma_seq_distinct_le_len(v@.take(i as int));
            assert(v@.take(i + 1 as int).drop_last() =~= v@.take(i as int));
            assert(v@.take(i + 1 as int).last() == v@[i as int]);
        }
        if !seen {
            count += 1;
        }
        i += 1;
    }
    proof {
        assert(v@.take(v@.len() as int) =~= v@);
    }
    count
}

/// The number of distinct values in a vector of booleans.
pub fn distinct_bool(v: &Vec<bool>) -> (r: u64)
    ensures
        r == seq_distinct(v@),
{
    let mut count: u64 = 0;
    let mut i: usize = 0;
    while i < v.len()
        invariant
            0 <= i <= v@.len(),
            count == seq_distinct(v@.take(i as int)),
            count <= i,
        decreases v@.len() - i,
    {
        let mut seen = false;
        let mut j: usize = 0;
        while j < i
            invariant
                0 <= j <= i < v@.len(),
                seen == v@.take(j as int).contains(v@[i as int]),
            decreases i - j,
        {
            proof {
                let pre = v@.take(j as int);
                let post = v@.take(j + 1 as int);
                let x = v@[i as int];
                assert(post =~= pre.push(v@[j as int]));
                if pre.contains(x) {
                    let w = choose|w: int| 0 <= w < pre.len() && pre[w] == x;
                    assert(post[w] == x);
                    assert(post.contains(x));
                }
                if v@[j as int] == x {
                    assert(post[j as int] == x);
                    assert(post.contains(x));
                }
                if post.contains(x) {
                    let w = choose|w: int| 0 <= w < post.len() && post[w] == x;
                    if w < j {
                        assert(pre[w] == x);
                        assert(pre.contains(x));
                    }
                }
            }
            if v[j] == v[i] {
                seen = true;
            }
            j += 1;
        }
        proof {
            lemma_seq_distinct_le_len(v@.take(i as int));
            assert(v@.take(i + 1 as int).drop_last() =~= v@.take(i as int));
            assert(v@.take(i + 1 as int).last() == v@[i as int]);
        }
        if !seen {
            count += 1;
        }
        i += 1;
    }
    proof {
        assert(v@.take(v@.len() as int) =~= v@);
    }
    count
}

/// The number of distinct strings in a vector, by their characters.
pub fn distinct_text(v: &Vec<String>) -> (r: u64)
    ensures
        r == seq_distinct(v.deep_view()),
{
    let ghost dv = v.deep_view();
    let mut count: u64 = 0;
    let mut i: usize = 0;
    while i < v.len()
        invariant
            0 <= i <= dv.len(),
            dv == v.deep_view(),
            dv.len() == v@.len(),
            count == seq_distinct(dv.take(i as int)),
            count <= i,
        decreases dv.len() - i,
    {
        let mut seen = false;
        let mut j: usize = 0;
        while j < i
            invariant
                0 <= j <= i < dv.len(),
                dv == v.deep_view(),
                dv.len() == v@.len(),
                seen == dv.take(j as int).contains(dv[i as int]),
            decreases i - j,
        {
            proof {
                let pre = dv.take(j as int);
                let post = dv.take(j + 1 as int);
                let x = dv[i as int];
                assert(post =~= pre.push(dv[j as int]));
                assert(dv[j as int] == v@[j as int]@);
                assert(dv[i as int] == v@[i as int]@);
                if pre.contains(x) {
                    let w = choose|w: int| 0 <= w < pre.len() && pre[w] == x;
                    assert(post[w] == x);
                    assert(post.contains(x));
                }
                if dv[j as int] == x {
                    assert(post[j as int] == x);
                    assert(post.contains(x));
                }
                if post.contains(x) {
                    let w = choose|w: int| 0 <= w < post.len() && post[w] == x;
                    if w < j {
                        assert(pre[w] == x);
                        assert(pre.contains(x));
                    }
                }
            }
            if crate::strutil::str_eq(v[j].as_str(), v[i].as_str()) {
                seen = true;
            }
            j += 1;
        }
        proof {
            lemma_seq_distinct_le_len(dv.take(i as int));
            assert(dv.take(i + 1 as int).drop_last() =~= dv.take(i as int));
            assert(dv.take(i + 1 as int).last() == dv[i as int]);
        }
        if !seen {
            count += 1;
        }
        i += 1;
    }
    proof {
        assert(dv.take(dv.len() as int) =~= dv);
    }
    count
}

/// The number of distinct byte strings in a vector.
pub fn distinct_blob(v: &Vec<Vec<u8>>) -> (r: u64)
    ensures
        r == seq_distinct(v.deep_view()),
{
    let ghost dv = v.deep_view();
    let mut count: u64 = 0;
    let mut i: usize = 0;
    while i < v.len()
        invariant
            0 <= i <= dv.len(),
            dv == v.deep_view(),
            dv.len() == v@.len(),
            count == seq_distinct(dv.take(i as int)),
            count <= i,
        decreases dv.len() - i,
    {
        let mut seen = false;
        let mut j: usize = 0;
        while j < i
            invariant
                0 <= j <= i < dv.len(),
                dv == v.deep_view(),
                dv.len() == v@.len(),
                seen == dv.take(j as int).contains(dv[i as int]),
            decreases i - j,
        {
            proof {
                let pre = dv.take(j as int);
                let post = dv.take(j + 1 as int);
                let x = dv[i as int];
                assert(post =~= pre.push(dv[j as int]));
                assert(dv[j as int] == v@[j as int]@);
                assert(dv[i as int] == v@[i as int]@);
                if pre.contains(x) {
                    let w = choose|w: int| 0 <= w < pre.len() && pre[w] == x;
                    assert(post[w] == x);
                    assert(post.contains(x));
                }
                if dv[j as int] == x {
                    assert(post[j as int] == x);
                    assert(post.contains(x));
                }
                if post.contains(x) {
                    let w = choose|w: int| 0 <= w < post.len() && post[w] == x;
                    if w < j {
                        assert(pre[w] == x);
                        assert(pre.contains(x));
                    }
                }
            }
            if bytes_eq(&v[j], &v[i]) {
                seen = true;
            }
            j += 1;
        }
        proof {
            lemma_seq_distinct_le_len(dv.take(i as int));
            assert(dv.take(i + 1 as int).drop_last() =~= dv.take(i as int));
            assert(dv.take(i + 1 as int).last() == dv[i as int]);
        }
        if !seen {
            count += 1;
        }
        i += 1;
    }
    proof {
        assert(dv.take(dv.len() as int) =~= dv);
    }
    count
}

/// The number of values a sample yielded.
pub open spec fn spec_sample_count(s: ColumnSample) -> int {
    match s {
        ColumnSample::BoolSample(v) => v@.len() as int,
        ColumnSample::IntSample(v) => v@.len() as int,
        ColumnSample::BitsSample(v) => v@.len() as int,
        ColumnSample::TextSample(v) => v@.len() as int,
        ColumnSample::BlobSample(v) => v@.len() as int,
        ColumnSample::OpaqueSample { rows } => rows as int,
        ColumnSample::NoSample => 0,
    }
}

/// The number of distinct values a sample yielded.  Values the sampler
/// cannot compare each count as their own value.
pub open spec fn spec_sample_distinct(s: ColumnSample) -> int {
    match s {
        ColumnSample::BoolSample(v) => seq_distinct(v@),
        ColumnSample::IntSample(v) => seq_distinct(v@),
        ColumnSample::BitsSample(v) => seq_distinct(v@),
        ColumnSample::TextSample(v) => seq_distinct(v.deep_view()),
        ColumnSample::BlobSample(v) => seq_distinct(v.deep_view()),
        ColumnSample::OpaqueSample { rows } => rows as int,
        ColumnSample::NoSample => 0,
    }
}

/// The distinct count never exceeds the value count of a sample.
pub proof fn lemma_sample_distinct_le_count(s: ColumnSample)
    ensures
        0 <= spec_sample_distinct(s) <= spec_sample_count(s),
{
    match s {
        ColumnSample::BoolSample(v) => lemma_seq_distinct_le_len(v@),
        ColumnSample::IntSample(v) => lemma_seq_distinct_le_len(v@),
        ColumnSample::BitsSample(v) => lemma_seq_distinct_le_len(v@),
        ColumnSample::TextSample(v) => lemma_seq_distinct_le_len(v.deep_view()),
        ColumnSample::BlobSample(v) => lemma_seq_distinct_le_len(v.deep_view()),
        _ => {},
    }
}

/// The distinct and total value counts a sample yielded.
pub fn sample_stats(s: &ColumnSample) -> (r: (u64, u64))
    requires
        spec_sample_count(*s) <= u64::MAX,
    ensures
        r.0 == spec_sample_distinct(*s),
        r.1 == spec_sample_count(*s),
{
    proof {
        lemma_sample_distinct_le_count(*s);
    }
    match s {
        ColumnSample::BoolSample(v) => (distinct_bool(v), v.len() as u64),
        ColumnSample::IntSample(v) => (distinct_i64(v), v.len() as u64),
        ColumnSample::BitsSample(v) => (distinct_u64(v), v.len() as u64),
        ColumnSample::TextSample(v) => (distinct_text(v), v.len() as u64),
        ColumnSample::BlobSample(v) => (distinct_blob(v), v.len() as u64),
        ColumnSample::OpaqueSample { rows } => (*rows, *rows),
        ColumnSample::NoSample => (0, 0),
    }
}

/// The declared distinct count of a column's representative chunk.
pub open spec fn spec_stats_distinct(meta: FileMeta, col: int) -> Option<u64> {
    match meta.row_groups@[spec_sample_rg(meta)].columns@[col].statistics {
        Option::Some(s) => s.distinct_count,
        Option::None => Option::None,
    }
}

/// Whether estimating this column needs a first-page probe: its
/// representative chunk has non-null values but no declared distinct
/// count.
pub open spec fn spec_needs_probe(meta: FileMeta, col: int) -> bool {
    spec_chunk_non_null(meta.row_groups@[spec_sample_rg(meta)].columns@[col]) > 0
        && spec_stats_distinct(meta, col) is None
}

/// The columns whose first page is worth probing (statistics tier
/// failed), in ascending order.
pub fn probe_requests(meta: &FileMeta) -> (r: Vec<usize>)
    requires
        meta.wf(),
    ensures
        meta.row_groups@.len() == 0 ==> r@.len() == 0,
        forall|c: usize|
            c < meta.columns@.len() && meta.row_groups@.len() > 0 ==> (r@.contains(c)
                <==> spec_needs_probe(*meta, c as int)),
        forall|k: int| 0 <= k < r@.len() ==> #[trigger] r@[k] < meta.columns@.len(),
{
    let mut r: Vec<usize> = Vec::new();
    if meta.row_groups.len() == 0 {
        return r;
    }
    let s = pick_sample_row_group(meta);
    let n = meta.columns.len();
    let mut c: usize = 0;
    while c < n
        invariant
            0 <= c <= n,
            n == meta.columns@.len(),
            meta.wf(),
            meta.row_groups@.len() > 0,
            s == spec_sample_rg(*meta),
            s < meta.row_groups@.len(),
            forall|k: usize| k < c ==> (r@.contains(k) <==> spec_needs_probe(*meta, k as int)),
            forall|k: int| 0 <= k < r@.len() ==> #[trigger] r@[k] < c,
        decreases n - c,
    {
        let chunk = &meta.row_groups[s].columns[c];
        let nn = column_non_null_count(chunk);
        let needs = nn > 0 && match &chunk.statistics {
            Option::Some(st) => st.distinct_count.is_none(),
            Option::None => true,
        };
        let ghost old_r = r@;
        if needs {
            r.push(c);
            proof {
                assert(r@ =~= old_r.push(c));
            }
        }
        proof {
            assert(needs == spec_needs_probe(*meta, c as int));
            assert forall|k: usize| k < c + 1 implies (r@.contains(k) <==> spec_needs_probe(
                *meta,
                k as int,
            )) by {
                if k < c {
                    if old_r.contains(k) {
                        let w = choose|w: int| 0 <= w < old_r.len() && old_r[w] == k;
                        assert(r@[w] == k);
                    }
                    if r@.contains(k) {
                        let w = choose|w: int| 0 <= w < r@.len() && r@[w] == k;
                        assert(0 <= w < old_r.len() ==> old_r[w] == k);
                    }
                } else {
                    if needs {
                        assert(r@[r@.len() - 1] == c);
                    }
                    if r@.contains(c) {
                        let w = choose|w: int| 0 <= w < r@.len() && r@[w] == c;
                        assert(needs);
                    }
                }
            }
        }
        c += 1;
    }
    r
}

/// Whether tiers one and two left the column unresolved, given the
/// probe results.
pub open spec fn spec_unresolved(meta: FileMeta, probes: Seq<PageProbe>, col: int) -> bool {
    let snn = spec_chunk_non_null(meta.row_groups@[spec_sample_rg(meta)].columns@[col]);
    snn == 0 || (spec_stats_distinct(meta, col) is None && !(probes[col] is DictionaryOf))
}

/// The columns a bounded row sample should cover: those the first two
/// tiers left unresolved, on a flat schema.
pub fn sample_requests(meta: &FileMeta, probes: &Vec<PageProbe>) -> (r: Vec<usize>)
    requires
        meta.wf(),
        probes@.len() == meta.columns@.len(),
    ensures
        meta.row_groups@.len() == 0 || !meta.flat_schema ==> r@.len() == 0,
        forall|c: usize|
            c < meta.columns@.len() && meta.row_groups@.len() > 0 && meta.flat_schema ==> (
            r@.contains(c) <==> spec_unresolved(*meta, probes@, c as int)),
        forall|k: int| 0 <= k < r@.len() ==> #[trigger] r@[k] < meta.columns@.len(),
{
    let mut r: Vec<usize> = Vec::new();
    if meta.row_groups.len() == 0 || !meta.flat_schema {
        return r;
    }
    let s = pick_sample_row_group(meta);
    let n = meta.columns.len();
    let mut c: usize = 0;
    while c < n
        invariant
            0 <= c <= n,
            n == meta.columns@.len(),
            probes@.len() == n,
            meta.wf(),
            meta.row_groups@.len() > 0,
            s == spec_sample_rg(*meta),
            s < meta.row_groups@.len(),
            forall|k: usize| k < c ==> (r@.contains(k) <==> spec_unresolved(*meta, probes@, k as int)),
            forall|k: int| 0 <= k < r@.len() ==> #[trigger] r@[k] < c,
        decreases n - c,
    {
        let chunk = &meta.row_groups[s].columns[c];
        let nn = column_non_null_count(chunk);
        let no_stats = match &chunk.statistics {
            Option::Some(st) => st.distinct_count.is_none(),
            Option::None => true,
        };
        let unresolved = nn == 0 || (no_stats && !matches!(probes[c], PageProbe::DictionaryOf { .. }));
        let ghost old_r = r@;
        if unresolved {
            r.push(c);
            proof {
                assert(r@ =~= old_r.push(c));
            }
        }
        proof {
            assert(unresolved == spec_unresolved(*meta, probes@, c as int));
            assert forall|k: usize| k < c + 1 implies (r@.contains(k) <==> spec_unresolved(
                *meta,
                probes@,
                k as int,
            )) by {
                if k < c {
                    if old_r.contains(k) {
                        let w = choose|w: int| 0 <= w < old_r.len() && old_r[w] == k;
                        assert(r@[w] == k);
                    }
                    if r@.contains(k) {
                        let w = choose|w: int| 0 <= w < r@.len() && r@[w] == k;
                        assert(0 <= w < old_r.len() ==> old_r[w] == k);
                    }
                } else {
                    if unresolved {
                        assert(r@[r@.len() - 1] == c);
                    }
                    if r@.contains(c) {
                        let w = choose|w: int| 0 <= w < r@.len() && r@[w] == c;
                        assert(unresolved);
                    }
                }
            }
        }
        c += 1;
    }
    r
}

/// The file-wide non-null total of a column, saturated.
pub open spec fn spec_col_total(meta: FileMeta, col: int) -> u64 {
    spec_sat64(spec_non_null_total(meta, col, meta.row_groups@.len() as int))
}

/// Integer minimum on u64.
pub open spec fn min64(a: u64, b: u64) -> u64 {
    if a <= b {
        a
    } else {
        b
    }
}

/// Integer maximum on u64.
pub open spec fn max64(a: u64, b: u64) -> u64 {
    if a >= b {
        a
    } else {
        b
    }
}

/// Estimates per-column cardinality from metadata, the first-page
/// probes, and the row samples the application took.  An unprobed or
/// unsampled column falls through to the next tier; a column no tier
/// resolves is assumed fully unique.
pub fn estimate(meta: &FileMeta, probes: &Vec<PageProbe>, samples: &Vec<ColumnSample>) -> (r: Vec<
    ColumnCardinality,
>)
    requires
        meta.wf(),
        probes@.len() == meta.columns@.len(),
        samples@.len() == meta.columns@.len(),
        forall|c: int| 0 <= c < samples@.len() ==> spec_sample_count(#[trigger] samples@[c]) <= u64::MAX,
    ensures
        meta.row_groups@.len() == 0 ==> r@.len() == 0,
        meta.row_groups@.len() > 0 ==> r@.len() == meta.columns@.len(),
        // Every estimate is bounded: distinct <= non-null <= value count.
        forall|c: int|
            0 <= c < r@.len() ==> (#[trigger] r@[c]).non_null_count == spec_col_total(*meta, c),
        forall|c: int|
            0 <= c < r@.len() ==> (#[trigger] r@[c]).distinct_count <= r@[c].non_null_count,
        forall|c: int|
            0 <= c < r@.len() ==> (#[trigger] r@[c]).non_null_count <= spec_sat64(
                spec_values_total(*meta, c, meta.row_groups@.len() as int),
            ),
        // The tiers, first hit wins.
        forall|c: int|
            0 <= c < r@.len() ==> {
                let snn = spec_chunk_non_null(
                    meta.row_groups@[spec_sample_rg(*meta)].columns@[c],
                );
                let total = spec_col_total(*meta, c);
                (#[trigger] r@[c]).distinct_count == {
                    if snn > 0 && spec_stats_distinct(*meta, c) is Some {
                        spec_scale_distinct(
                            min64(spec_stats_distinct(*meta, c)->Some_0, snn),
                            snn,
                            total,
                        )
                    } else if snn > 0 && probes@[c] is DictionaryOf {
                        max64(
                            spec_scale_distinct(min64(probes@[c]->entries, snn), snn, total),
                            min64(probes@[c]->entries, total),
                        )
                    } else if meta.flat_schema && spec_sample_count(samples@[c]) > 0 {
                        min64(
                            max64(
                                spec_scale_distinct(
                                    spec_sample_distinct(samples@[c]) as u64,
                                    spec_sample_count(samples@[c]) as u64,
                                    total,
                                ),
                                spec_sample_distinct(samples@[c]) as u64,
                            ),
                            total,
                        )
                    } else {
                        total
                    }
                }
            },
        // A dictionary first page of N entries floors the estimate at
        // N, clamped to the file total.
        forall|c: int|
            0 <= c < r@.len() && spec_chunk_non_null(
                meta.row_groups@[spec_sample_rg(*meta)].columns@[c],
            ) > 0 && spec_stats_distinct(*meta, c) is None && probes@[c] is DictionaryOf ==> (
            #[trigger] r@[c]).distinct_count >= min64(probes@[c]->entries, spec_col_total(*meta, c)),
{
    let mut r: Vec<ColumnCardinality> = Vec::new();
    if meta.row_groups.len() == 0 {
        return r;
    }
    let s = pick_sample_row_group(meta);
    let n = meta.columns.len();
    let mut c: usize = 0;
    while c < n
        invariant
            0 <= c <= n,
            n == meta.columns@.len(),
            probes@.len() == n,
            samples@.len() == n,
            forall|k: int| 0 <= k < n ==> spec_sample_count(#[trigger] samples@[k]) <= u64::MAX,
            meta.wf(),
            meta.row_groups@.len() > 0,
            s == spec_sample_rg(*meta),
            s < meta.row_groups@.len(),
            r@.len() == c,
            forall|k: int|
                0 <= k < c ==> (#[trigger] r@[k]).non_null_count == spec_col_total(*meta, k),
            forall|k: int|
                0 <= k < c ==> (#[trigger] r@[k]).distinct_count <= r@[k].non_null_count,
            forall|k: int|
                0 <= k < c ==> {
                    let snn = spec_chunk_non_null(
                        meta.row_groups@[spec_sample_rg(*meta)].columns@[k],
                    );
                    let total = spec_col_total(*meta, k);
                    (#[trigger] r@[k]).distinct_count == {
                        if snn > 0 && spec_stats_distinct(*meta, k) is Some {
                            spec_scale_distinct(
                                min64(spec_stats_distinct(*meta, k)->Some_0, snn),
                                snn,
                                total,
                            )
                        } else if snn > 0 && probes@[k] is DictionaryOf {
                            max64(
                                spec_scale_distinct(min64(probes@[k]->entries, snn), snn, total),
                                min64(probes@[k]->entries, total),
                            )
                        } else if meta.flat_schema && spec_sample_count(samples@[k]) > 0 {
                            min64(
                                max64(
                                    spec_scale_distinct(
                                        spec_sample_distinct(samples@[k]) as u64,
                                        spec_sample_count(samples@[k]) as u64,
                                        total,
                                    ),
                                    spec_sample_distinct(samples@[k]) as u64,
                                ),
                                total,
                            )
                        } else {
                            total
                        }
                    }
                },
        decreases n - c,
    {
        let total = total_non_null_for_column(meta, c);
        let chunk = &meta.row_groups[s].columns[c];
        let snn = column_non_null_count(chunk);
        let stats_dc: Option<u64> = match &chunk.statistics {
            Option::Some(st) => st.distinct_count,
            Option::None => None,
        };
        let distinct: u64 = if snn > 0 && stats_dc.is_some() {
            let dc = match stats_dc {
                Option::Some(d) => d,
                Option::None => 0,
            };
            let capped = if dc <= snn {
                dc
            } else {
                snn
            };
            scale_distinct(capped, snn, total)
        } else if snn > 0 && matches!(probes[c], PageProbe::DictionaryOf { .. }) {
            let e = match probes[c] {
                PageProbe::DictionaryOf { entries } => entries,
                _ => 0,
            };
            let capped = if e <= snn {
                e
            } else {
                snn
            };
            let scaled = scale_distinct(capped, snn, total);
            let floor = if e <= total {
                e
            } else {
                total
            };
            if scaled >= floor {
                scaled
            } else {
                floor
            }
        } else {
            let mut tier3: Option<u64> = None;
            if meta.flat_schema {
                let (sd, sk) = sample_stats(&samples[c]);
                if sk > 0 {
                    let est = scale_distinct(sd, sk, total);
                    let floored = if est >= sd {
                        est
                    } else {
                        sd
                    };
                    let capped = if floored <= total {
                        floored
                    } else {
                        total
                    };
                    tier3 = Some(capped);
                }
            }
            match tier3 {
                Option::Some(v) => v,
                Option::None => total,
            }
        };
        r.push(ColumnCardinality { distinct_count: distinct, non_null_count: total });
        proof {
            lemma_non_null_le_values(*meta, c as int, meta.row_groups@.len() as int);
        }
        c += 1;
    }
    proof {
        assert forall|c0: int| 0 <= c0 < r@.len() implies (#[trigger] r@[c0]).non_null_count
            <= spec_sat64(spec_values_total(*meta, c0, meta.row_groups@.len() as int)) by {
            lemma_non_null_le_values(*meta, c0, meta.row_groups@.len() as int);
        }
    }
    r
}

} // verus!
