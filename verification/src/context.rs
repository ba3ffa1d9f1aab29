//! The per-column context: one normalized summary per leaf column,
//! combining type information, aggregated statistics and the
//! cardinality estimate.  Rules and callers read it; nothing mutates it
//! after it is built.

use crate::cardinality::{lemma_u64_mul_fits, ColumnCardinality, ColumnSample};
use crate::meta::{
    ChunkMeta, ColumnDescModel, FileMeta, LogicalKind, PhysicalKind, TimeUnitKind, TypedMinMax,
};
use vstd::prelude::*;

verus! {

/// The value type a column maps to, derived from its physical storage
/// type and logical annotation.
#[derive(Debug, Clone, Copy, PartialEq, Eq, Structural)]
pub enum MappedType {
    MBoolean,
    MInt8,
    MInt16,
    MInt32,
    MInt64,
    MUInt8,
    MUInt16,
    MUInt32,
    MUInt64,
    MDate32,
    MDecimal { precision: i32, scale: i32 },
    MTime32Millis,
    MTime64Micros,
    MTime64Nanos,
    MTimestamp { utc: bool, unit: TimeUnitKind },
    MFloat32,
    MFloat64,
    MUtf8,
    MBinary,
    MFixedSizeBinary { type_length: i32 },
}

/// The signedness and width of an integer column: its logical
/// annotation where one is declared, the physical width otherwise.
pub open spec fn spec_int_type_info(logical: Option<LogicalKind>, physical_bits: u8) -> (bool, u8) {
    match logical {
        Option::Some(LogicalKind::IntegerLogical { bit_width, is_signed }) => (
            is_signed,
            bit_width,
        ),
        _ => (true, physical_bits),
    }
}

/// The signedness and width of an integer column.
pub fn int_type_info(logical: Option<LogicalKind>, physical_bits: u8) -> (r: (bool, u8))
    ensures
        r == spec_int_type_info(logical, physical_bits),
{
    match logical {
        Option::Some(LogicalKind::IntegerLogical { bit_width, is_signed }) => (
            is_signed,
            bit_width,
        ),
        _ => (true, physical_bits),
    }
}

/// The mapped value type of a column, by structural derivation from
/// its physical type and logical annotation.
pub open spec fn spec_mapped_type(d: ColumnDescModel) -> MappedType {
    match d.physical {
        PhysicalKind::Boolean => MappedType::MBoolean,
        PhysicalKind::Int32 => match d.logical {
            Option::Some(LogicalKind::IntegerLogical { bit_width: 8, is_signed: true }) => {
                MappedType::MInt8
            },
            Option::Some(LogicalKind::IntegerLogical { bit_width: 16, is_signed: true }) => {
                MappedType::MInt16
            },
            Option::Some(LogicalKind::IntegerLogical { bit_width: 8, is_signed: false }) => {
                MappedType::MUInt8
            },
            Option::Some(LogicalKind::IntegerLogical { bit_width: 16, is_signed: false }) => {
                MappedType::MUInt16
            },
            Option::Some(LogicalKind::IntegerLogical { bit_width: 32, is_signed: false }) => {
                MappedType::MUInt32
            },
            Option::Some(LogicalKind::DateLogical) => MappedType::MDate32,
            Option::Some(LogicalKind::DecimalLogical { precision, scale }) => {
                MappedType::MDecimal { precision, scale }
            },
            Option::Some(
                LogicalKind::TimeLogical { unit: TimeUnitKind::Millis },
            ) => MappedType::MTime32Millis,
            _ => MappedType::MInt32,
        },
        PhysicalKind::Int64 => match d.logical {
            Option::Some(LogicalKind::IntegerLogical { bit_width: 64, is_signed: false }) => {
                MappedType::MUInt64
            },
            Option::Some(LogicalKind::TimestampLogical { utc, unit }) => {
                MappedType::MTimestamp { utc, unit }
            },
            Option::Some(
                LogicalKind::TimeLogical { unit: TimeUnitKind::Micros },
            ) => MappedType::MTime64Micros,
            Option::Some(
                LogicalKind::TimeLogical { unit: TimeUnitKind::Nanos },
            ) => MappedType::MTime64Nanos,
            Option::Some(LogicalKind::DecimalLogical { precision, scale }) => {
                MappedType::MDecimal { precision, scale }
            },
            _ => MappedType::MInt64,
        },
        PhysicalKind::Int96 => MappedType::MTimestamp { utc: false, unit: TimeUnitKind::Nanos },
        PhysicalKind::Float => MappedType::MFloat32,
        PhysicalKind::Double => MappedType::MFloat64,
        PhysicalKind::ByteArray => match d.logical {
            Option::Some(LogicalKind::StringLogical) => MappedType::MUtf8,
            Option::Some(LogicalKind::EnumLogical) => MappedType::MUtf8,
            Option::Some(LogicalKind::JsonLogical) => MappedType::MUtf8,
            _ => MappedType::MBinary,
        },
        PhysicalKind::FixedLenByteArray => match d.logical {
            Option::Some(LogicalKind::DecimalLogical { precision, scale }) => {
                MappedType::MDecimal { precision, scale }
            },
            _ => MappedType::MFixedSizeBinary { type_length: d.type_length },
        },
    }
}

/// The mapped value type of a column.
pub fn mapped_type_from_descriptor(d: &ColumnDescModel) -> (r: MappedType)
    ensures
        r == spec_mapped_type(*d),
{
    match d.physical {
        PhysicalKind::Boolean => MappedType::MBoolean,
        PhysicalKind::Int32 => match d.logical {
            Option::Some(LogicalKind::IntegerLogical { bit_width: 8, is_signed: true }) => {
                MappedType::MInt8
            },
            Option::Some(LogicalKind::IntegerLogical { bit_width: 16, is_signed: true }) => {
                MappedType::MInt16
            },
            Option::Some(LogicalKind::IntegerLogical { bit_width: 8, is_signed: false }) => {
                MappedType::MUInt8
            },
            Option::Some(LogicalKind::IntegerLogical { bit_width: 16, is_signed: false }) => {
                MappedType::MUInt16
            },
            Option::Some(LogicalKind::IntegerLogical { bit_width: 32, is_signed: false }) => {
                MappedType::MUInt32
            },
            Option::Some(LogicalKind::DateLogical) => MappedType::MDate32,
            Option::Some(LogicalKind::DecimalLogical { precision, scale }) => {
                MappedType::MDecimal { precision, scale }
            },
            Option::Some(
                LogicalKind::TimeLogical { unit: TimeUnitKind::Millis },
            ) => MappedType::MTime32Millis,
            _ => MappedType::MInt32,
        },
        PhysicalKind::Int64 => match d.logical {
            Option::Some(LogicalKind::IntegerLogical { bit_width: 64, is_signed: false }) => {
                MappedType::MUInt64
            },
            Option::Some(LogicalKind::TimestampLogical { utc, unit }) => {
                MappedType::MTimestamp { utc, unit }
            },
            Option::Some(
                LogicalKind::TimeLogical { unit: TimeUnitKind::Micros },
            ) => MappedType::MTime64Micros,
            Option::Some(
                LogicalKind::TimeLogical { unit: TimeUnitKind::Nanos },
            ) => MappedType::MTime64Nanos,
            Option::Some(LogicalKind::DecimalLogical { precision, scale }) => {
                MappedType::MDecimal { precision, scale }
            },
            _ => MappedType::MInt64,
        },
        PhysicalKind::Int96 => MappedType::MTimestamp { utc: false, unit: TimeUnitKind::Nanos },
        PhysicalKind::Float => MappedType::MFloat32,
        PhysicalKind::Double => MappedType::MFloat64,
        PhysicalKind::ByteArray => match d.logical {
            Option::Some(LogicalKind::StringLogical) => MappedType::MUtf8,
            Option::Some(LogicalKind::EnumLogical) => MappedType::MUtf8,
            Option::Some(LogicalKind::JsonLogical) => MappedType::MUtf8,
            _ => MappedType::MBinary,
        },
        PhysicalKind::FixedLenByteArray => match d.logical {
            Option::Some(LogicalKind::DecimalLogical { precision, scale }) => {
                MappedType::MDecimal { precision, scale }
            },
            _ => MappedType::MFixedSizeBinary { type_length: d.type_length },
        },
    }
}

/// Boolean minimum/maximum across row groups.
#[derive(Debug, Clone, Copy, PartialEq, Eq, Structural)]
pub struct BooleanStats {
    pub min: Option<bool>,
    pub max: Option<bool>,
}

/// Integer minimum/maximum across row groups, widened to 64 bits.
#[derive(Debug, Clone, Copy, PartialEq, Eq, Structural)]
pub struct IntStats {
    /// Logical bit width (8, 16, 32 or 64); the physical width when no
    /// annotation narrows it.
    pub bit_width: u8,
    pub is_signed: bool,
    pub min: Option<i64>,
    pub max: Option<i64>,
}

/// Floating-point minimum/maximum across row groups, carried as IEEE
/// 754 bit patterns of the column's physical width.
#[derive(Debug, Clone, Copy, PartialEq, Eq, Structural)]
pub struct FloatStats {
    pub bit_width: u8,
    pub min_bits: Option<u64>,
    pub max_bits: Option<u64>,
}

/// Byte-length distribution of sampled variable-length values.  The
/// average is carried exactly as a sum and a count.
#[derive(Debug, Clone, Copy, PartialEq, Eq, Structural)]
pub struct ByteLengthStats {
    pub min: usize,
    pub max: usize,
    pub total: u64,
    pub count: u64,
}

/// Minimum/maximum of a string column, as UTF-8 bytes, taken only from
/// statistics the writer marked exact.
#[derive(Debug)]
pub struct StringStats {
    pub min_value: Option<Vec<u8>>,
    pub max_value: Option<Vec<u8>>,
    pub lengths: Option<ByteLengthStats>,
}

/// Minimum/maximum of a binary column, taken only from statistics the
/// writer marked exact.
#[derive(Debug)]
pub struct BinaryStats {
    pub min_value: Option<Vec<u8>>,
    pub max_value: Option<Vec<u8>>,
    pub lengths: Option<ByteLengthStats>,
}

/// The fixed byte length of a fixed-length binary column.
#[derive(Debug, Clone, Copy, PartialEq, Eq, Structural)]
pub struct FixedLenBinaryStats {
    pub type_length: i32,
}

/// Type-specific statistics of one column.
#[derive(Debug)]
pub enum TypeStats {
    Boolean(BooleanStats),
    Int(IntStats),
    Float(FloatStats),
    Text(StringStats),
    Binary(BinaryStats),
    FixedLenBinary(FixedLenBinaryStats),
    Unknown,
}

/// One column's normalized summary.
#[derive(Debug)]
pub struct ColumnContext {
    pub physical_type: PhysicalKind,
    pub logical_type: Option<LogicalKind>,
    pub mapped_type: MappedType,
    /// Total number of values (nulls included) across all row groups.
    pub num_values: u64,
    /// Total null count across all row groups, clamped to `num_values`.
    pub null_count: u64,
    /// Estimated number of distinct non-null values in the file.
    pub distinct_count: u64,
    /// Total positive uncompressed bytes, saturating.
    pub uncompressed_size: u64,
    /// Total positive compressed bytes, saturating.
    pub compressed_size: u64,
    pub type_stats: TypeStats,
}

impl ColumnContext {
    /// Non-null values: the value count less the null count.
    pub fn non_null_count(&self) -> (r: u64)
        ensures
            r == if self.null_count <= self.num_values {
                (self.num_values - self.null_count) as u64
            } else {
                0u64
            },
    {
        if self.null_count <= self.num_values {
            self.num_values - self.null_count
        } else {
            0
        }
    }

    /// Well-formedness: the counts are consistent.
    pub open spec fn wf(&self) -> bool {
        self.null_count <= self.num_values && self.distinct_count <= self.num_values
            - self.null_count
    }

    /// Whether the cardinality ratio `distinct / non_null` exceeds
    /// `num / den`; zero ratio when all values are null.
    pub fn cardinality_ratio_gt(&self, num: u64, den: u64) -> (r: bool)
        requires
            den > 0,
            self.null_count <= self.num_values,
        ensures
            r == (self.num_values - self.null_count > 0 && self.distinct_count * den > num * (
            self.num_values - self.null_count)),
    {
        let nn = self.non_null_count();
        proof {
            lemma_u64_mul_fits(self.distinct_count, den);
            lemma_u64_mul_fits(num, nn);
        }
        nn > 0 && (self.distinct_count as u128) * (den as u128) > (num as u128) * (nn as u128)
    }
}

/// Whether a chunk records a typed integer minimum (widened to i64).
pub open spec fn spec_int_min_of(c: ChunkMeta) -> Option<i64> {
    match c.statistics {
        Option::Some(s) => match s.typed {
            TypedMinMax::TInt32 { min: Option::Some(v), .. } => Option::Some(v as i64),
            TypedMinMax::TInt64 { min: Option::Some(v), .. } => Option::Some(v),
            _ => Option::None,
        },
        Option::None => Option::None,
    }
}

/// Whether a chunk records a typed integer maximum (widened to i64).
pub open spec fn spec_int_max_of(c: ChunkMeta) -> Option<i64> {
    match c.statistics {
        Option::Some(s) => match s.typed {
            TypedMinMax::TInt32 { max: Option::Some(v), .. } => Option::Some(v as i64),
            TypedMinMax::TInt64 { max: Option::Some(v), .. } => Option::Some(v),
            _ => Option::None,
        },
        Option::None => Option::None,
    }
}

/// The typed integer bounds a chunk records.
fn int_bounds_of(c: &ChunkMeta) -> (r: (Option<i64>, Option<i64>))
    ensures
        r.0 == spec_int_min_of(*c),
        r.1 == spec_int_max_of(*c),
{
    match &c.statistics {
        Option::Some(s) => match s.typed {
            TypedMinMax::TInt32 { min, max } => (
                match min {
                    Option::Some(v) => Some(v as i64),
                    Option::None => None,
                },
                match max {
                    Option::Some(v) => Some(v as i64),
                    Option::None => None,
                },
            ),
            TypedMinMax::TInt64 { min, max } => (min, max),
            _ => (None, None),
        },
        Option::None => (None, None),
    }
}

/// Aggregates integer bounds over all row groups: the global minimum
/// is the least recorded minimum, present exactly when any chunk
/// records one; likewise the maximum.
pub fn aggregate_int_minmax(meta: &FileMeta, col: usize) -> (r: (Option<i64>, Option<i64>))
    requires
        meta.wf(),
        col < meta.columns@.len(),
    ensures
        ({
            let n = meta.row_groups@.len();
            &&& (r.0 is None <==> forall|g: int|
                0 <= g < n ==> spec_int_min_of(
                    #[trigger] meta.row_groups@[g].columns@[col as int],
                ) is None)
            &&& (r.0 matches Option::Some(m) ==> (exists|g: int|
                0 <= g < n && spec_int_min_of(#[trigger] meta.row_groups@[g].columns@[col as int])
                    == Option::Some(m)) && forall|g: int|
                0 <= g < n && spec_int_min_of(#[trigger] meta.row_groups@[g].columns@[col as int])
                    is Some ==> m <= spec_int_min_of(
                    meta.row_groups@[g].columns@[col as int],
                )->Some_0)
            &&& (r.1 matches Option::Some(m) ==> (exists|g: int|
                0 <= g < n && spec_int_max_of(#[trigger] meta.row_groups@[g].columns@[col as int])
                    == Option::Some(m)) && forall|g: int|
                0 <= g < n && spec_int_max_of(#[trigger] meta.row_groups@[g].columns@[col as int])
                    is Some ==> m >= spec_int_max_of(
                    meta.row_groups@[g].columns@[col as int],
                )->Some_0)
            &&& (r.1 is None <==> forall|g: int|
                0 <= g < n ==> spec_int_max_of(
                    #[trigger] meta.row_groups@[g].columns@[col as int],
                ) is None)
        }),
{
    let n = meta.row_groups.len();
    let mut lo: Option<i64> = None;
    let mut hi: Option<i64> = None;
    let mut g: usize = 0;
    while g < n
        invariant
            0 <= g <= n,
            n == meta.row_groups@.len(),
            meta.wf(),
            col < meta.columns@.len(),
            lo is None <==> forall|k: int|
                0 <= k < g ==> spec_int_min_of(
                    #[trigger] meta.row_groups@[k].columns@[col as int],
                ) is None,
            lo matches Option::Some(m) ==> (exists|k: int|
                0 <= k < g && spec_int_min_of(#[trigger] meta.row_groups@[k].columns@[col as int])
                    == Option::Some(m)) && forall|k: int|
                0 <= k < g && spec_int_min_of(#[trigger] meta.row_groups@[k].columns@[col as int])
                    is Some ==> m <= spec_int_min_of(
                    meta.row_groups@[k].columns@[col as int],
                )->Some_0,
            hi is None <==> forall|k: int|
                0 <= k < g ==> spec_int_max_of(
                    #[trigger] meta.row_groups@[k].columns@[col as int],
                ) is None,
            hi matches Option::Some(m) ==> (exists|k: int|
                0 <= k < g && spec_int_max_of(#[trigger] meta.row_groups@[k].columns@[col as int])
                    == Option::Some(m)) && forall|k: int|
                0 <= k < g && spec_int_max_of(#[trigger] meta.row_groups@[k].columns@[col as int])
                    is Some ==> m >= spec_int_max_of(
                    meta.row_groups@[k].columns@[col as int],
                )->Some_0,
        decreases n - g,
    {
        let (cmin, cmax) = int_bounds_of(&meta.row_groups[g].columns[col]);
        proof {
            assert(meta.row_groups@[g as int].columns@[col as int] == meta.row_groups@[g as int].columns@[col as int]);
        }
        match cmin {
            Option::Some(v) => {
                lo = match lo {
                    Option::Some(m) => if v < m {
                        Some(v)
                    } else {
                        Some(m)
                    },
                    Option::None => Some(v),
                };
            },
            Option::None => {},
        }
        match cmax {
            Option::Some(v) => {
                hi = match hi {
                    Option::Some(m) => if v > m {
                        Some(v)
                    } else {
                        Some(m)
                    },
                    Option::None => Some(v),
                };
            },
            Option::None => {},
        }
        g += 1;
    }
    (lo, hi)
}

/// Whether a chunk records a boolean minimum.
pub open spec fn spec_bool_min_of(c: ChunkMeta) -> Option<bool> {
    match c.statistics {
        Option::Some(s) => match s.typed {
            TypedMinMax::TBool { min, .. } => min,
            _ => Option::None,
        },
        Option::None => Option::None,
    }
}

/// Whether a chunk records a boolean maximum.
pub open spec fn spec_bool_max_of(c: ChunkMeta) -> Option<bool> {
    match c.statistics {
        Option::Some(s) => match s.typed {
            TypedMinMax::TBool { max, .. } => max,
            _ => Option::None,
        },
        Option::None => Option::None,
    }
}

/// Aggregates boolean bounds: the minimum is the conjunction of the
/// recorded minima, the maximum the disjunction of the recorded
/// maxima, each present when any chunk records one.
pub fn aggregate_bool_minmax(meta: &FileMeta, col: usize) -> (r: (Option<bool>, Option<bool>))
    requires
        meta.wf(),
        col < meta.columns@.len(),
    ensures
        ({
            let n = meta.row_groups@.len();
            &&& (r.0 matches Option::Some(b) ==> b == !exists|g: int|
                0 <= g < n && spec_bool_min_of(#[trigger] meta.row_groups@[g].columns@[col as int])
                    == Option::Some(false))
            &&& (r.1 matches Option::Some(b) ==> b == exists|g: int|
                0 <= g < n && spec_bool_max_of(#[trigger] meta.row_groups@[g].columns@[col as int])
                    == Option::Some(true))
        }),
{
    let n = meta.row_groups.len();
    let mut lo: Option<bool> = None;
    let mut hi: Option<bool> = None;
    let mut g: usize = 0;
    while g < n
        invariant
            0 <= g <= n,
            n == meta.row_groups@.len(),
            meta.wf(),
            col < meta.columns@.len(),
            lo matches Option::Some(b) ==> b == !exists|k: int|
                0 <= k < g && spec_bool_min_of(#[trigger] meta.row_groups@[k].columns@[col as int])
                    == Option::Some(false),
            lo is None ==> !exists|k: int|
                0 <= k < g && spec_bool_min_of(#[trigger] meta.row_groups@[k].columns@[col as int])
                    == Option::Some(false),
            hi matches Option::Some(b) ==> b == exists|k: int|
                0 <= k < g && spec_bool_max_of(#[trigger] meta.row_groups@[k].columns@[col as int])
                    == Option::Some(true),
            hi is None ==> !exists|k: int|
                0 <= k < g && spec_bool_max_of(#[trigger] meta.row_groups@[k].columns@[col as int])
                    == Option::Some(true),
        decreases n - g,
    {
        let c = &meta.row_groups[g].columns[col];
        let (bmin, bmax) = match &c.statistics {
            Option::Some(s) => match s.typed {
                TypedMinMax::TBool { min, max } => (min, max),
                _ => (None, None),
            },
            Option::None => (None, None),
        };
        match bmin {
            Option::Some(v) => {
                proof {
                    if !v {
                        assert(spec_bool_min_of(meta.row_groups@[g as int].columns@[col as int])
                            == Option::Some(false));
                    }
                }
                lo = match lo {
                    Option::Some(m) => Some(m && v),
                    Option::None => Some(v),
                };
            },
            Option::None => {},
        }
        match bmax {
            Option::Some(v) => {
                proof {
                    if v {
                        assert(spec_bool_max_of(meta.row_groups@[g as int].columns@[col as int])
                            == Option::Some(true));
                    }
                }
                hi = match hi {
                    Option::Some(m) => Some(m || v),
                    Option::None => Some(v),
                };
            },
            Option::None => {},
        }
        g += 1;
    }
    (lo, hi)
}

/// The exact byte minimum a chunk records, if marked exact.
pub open spec fn spec_exact_min_bytes(c: ChunkMeta) -> Option<Seq<u8>> {
    match c.statistics {
        Option::Some(s) => if s.min_is_exact {
            match s.min_bytes {
                Option::Some(b) => Option::Some(b@),
                Option::None => Option::None,
            }
        } else {
            Option::None
        },
        Option::None => Option::None,
    }
}

/// The exact byte maximum a chunk records, if marked exact.
pub open spec fn spec_exact_max_bytes(c: ChunkMeta) -> Option<Seq<u8>> {
    match c.statistics {
        Option::Some(s) => if s.max_is_exact {
            match s.max_bytes {
                Option::Some(b) => Option::Some(b@),
                Option::None => Option::None,
            }
        } else {
            Option::None
        },
        Option::None => Option::None,
    }
}

/// Copies a byte string.
fn copy_bytes(v: &Vec<u8>) -> (r: Vec<u8>)
    ensures
        r@ =~= v@,
{
    let mut r: Vec<u8> = Vec::new();
    let mut i: usize = 0;
    while i < v.len()
        invariant
            0 <= i <= v@.len(),
            r@ =~= v@.take(i as int),
        decreases v@.len() - i,
    {
        r.push(v[i]);
        proof {
            assert(r@ =~= v@.take(i + 1 as int));
        }
        i += 1;
    }
    proof {
        assert(v@.take(v@.len() as int) =~= v@);
    }
    r
}

/// Aggregates byte-string bounds over row groups, using only
/// statistics the writer marked exact; truncated bounds are never
/// used, to avoid reporting wrong extremes.  The minimum is the
/// byte-wise least recorded exact minimum; likewise the maximum.
pub fn aggregate_bytes_minmax(meta: &FileMeta, col: usize) -> (r: (Option<Vec<u8>>, Option<Vec<u8>>))
    requires
        meta.wf(),
        col < meta.columns@.len(),
    ensures
        ({
            let n = meta.row_groups@.len();
            &&& (r.0 matches Option::Some(m) ==> (exists|g: int|
                0 <= g < n && spec_exact_min_bytes(
                    #[trigger] meta.row_groups@[g].columns@[col as int],
                ) == Option::Some(m@)) && forall|g: int|
                0 <= g < n && spec_exact_min_bytes(
                    #[trigger] meta.row_groups@[g].columns@[col as int],
                ) is Some ==> crate::rules::spec_lex_le(
                    m@,
                    spec_exact_min_bytes(meta.row_groups@[g].columns@[col as int])->Some_0,
                ))
            &&& (r.0 is None <==> forall|g: int|
                0 <= g < n ==> spec_exact_min_bytes(
                    #[trigger] meta.row_groups@[g].columns@[col as int],
                ) is None)
            &&& (r.1 matches Option::Some(m) ==> (exists|g: int|
                0 <= g < n && spec_exact_max_bytes(
                    #[trigger] meta.row_groups@[g].columns@[col as int],
                ) == Option::Some(m@)) && forall|g: int|
                0 <= g < n && spec_exact_max_bytes(
                    #[trigger] meta.row_groups@[g].columns@[col as int],
                ) is Some ==> crate::rules::spec_lex_le(
                    spec_exact_max_bytes(meta.row_groups@[g].columns@[col as int])->Some_0,
                    m@,
                ))
            &&& (r.1 is None <==> forall|g: int|
                0 <= g < n ==> spec_exact_max_bytes(
                    #[trigger] meta.row_groups@[g].columns@[col as int],
                ) is None)
        }),
{
    let n = meta.row_groups.len();
    let mut lo: Option<Vec<u8>> = None;
    let mut hi: Option<Vec<u8>> = None;
    let mut g: usize = 0;
    while g < n
        invariant
            0 <= g <= n,
            n == meta.row_groups@.len(),
            meta.wf(),
            col < meta.columns@.len(),
            lo matches Option::Some(m) ==> (exists|k: int|
                0 <= k < g && spec_exact_min_bytes(
                    #[trigger] meta.row_groups@[k].columns@[col as int],
                ) == Option::Some(m@)) && forall|k: int|
                0 <= k < g && spec_exact_min_bytes(
                    #[trigger] meta.row_groups@[k].columns@[col as int],
                ) is Some ==> crate::rules::spec_lex_le(
                    m@,
                    spec_exact_min_bytes(meta.row_groups@[k].columns@[col as int])->Some_0,
                ),
            lo is None <==> forall|k: int|
                0 <= k < g ==> spec_exact_min_bytes(
                    #[trigger] meta.row_groups@[k].columns@[col as int],
                ) is None,
            hi matches Option::Some(m) ==> (exists|k: int|
                0 <= k < g && spec_exact_max_bytes(
                    #[trigger] meta.row_groups@[k].columns@[col as int],
                ) == Option::Some(m@)) && forall|k: int|
                0 <= k < g && spec_exact_max_bytes(
                    #[trigger] meta.row_groups@[k].columns@[col as int],
                ) is Some ==> crate::rules::spec_lex_le(
                    spec_exact_max_bytes(meta.row_groups@[k].columns@[col as int])->Some_0,
                    m@,
                ),
            hi is None <==> forall|k: int|
                0 <= k < g ==> spec_exact_max_bytes(
                    #[trigger] meta.row_groups@[k].columns@[col as int],
                ) is None,
        decreases n - g,
    {
        let c = &meta.row_groups[g].columns[col];
        match &c.statistics {
            Option::Some(s) => {
                if s.min_is_exact {
                    match &s.min_bytes {
                        Option::Some(b) => {
                            let replace = match &lo {
                                Option::Some(m) => !crate::rules::bytes_le(m, b),
                                Option::None => true,
                            };
                            if replace {
                                lo = Some(copy_bytes(b));
                            }
                            proof {
                                lemma_lex_total(meta, col as int, g as int);
                            }
                        },
                        Option::None => {},
                    }
                }
                if s.max_is_exact {
                    match &s.max_bytes {
                        Option::Some(b) => {
                            let replace = match &hi {
                                Option::Some(m) => !crate::rules::bytes_le(b, m),
                                Option::None => true,
                            };
                            if replace {
                                hi = Some(copy_bytes(b));
                            }
                            proof {
                                lemma_lex_total(meta, col as int, g as int);
                            }
                        },
                        Option::None => {},
                    }
                }
            },
            Option::None => {},
        }
        g += 1;
    }
    (lo, hi)
}

/// Byte-wise lexicographic order is total and transitive.
pub proof fn lemma_lex_props(a: Seq<u8>, b: Seq<u8>, c: Seq<u8>)
    ensures
        crate::rules::spec_lex_le(a, b) || crate::rules::spec_lex_le(b, a),
        crate::rules::spec_lex_le(a, b) && crate::rules::spec_lex_le(b, c)
            ==> crate::rules::spec_lex_le(a, c),
        crate::rules::spec_lex_le(a, a),
    decreases a.len() + b.len() + c.len(),
{
    if a.len() > 0 && b.len() > 0 && c.len() > 0 {
        lemma_lex_props(a.drop_first(), b.drop_first(), c.drop_first());
    } else if a.len() > 0 && b.len() > 0 {
        lemma_lex_props(a.drop_first(), b.drop_first(), c);
    } else if a.len() > 0 {
        lemma_lex_props(a.drop_first(), b, c);
    } else if b.len() > 0 {
        lemma_lex_props(a, b.drop_first(), c);
    }
}

/// Helper totality fact at one scan position.
proof fn lemma_lex_total(meta: &FileMeta, col: int, g: int)
    ensures
        forall|x: Seq<u8>, y: Seq<u8>|
            !#[trigger] crate::rules::spec_lex_le(x, y) ==> crate::rules::spec_lex_le(y, x),
        forall|x: Seq<u8>, y: Seq<u8>, z: Seq<u8>|
            #[trigger] crate::rules::spec_lex_le(x, y) && #[trigger] crate::rules::spec_lex_le(
                y,
                z,
            ) ==> crate::rules::spec_lex_le(x, z),
        forall|x: Seq<u8>| #[trigger] crate::rules::spec_lex_le(x, x),
{
    assert forall|x: Seq<u8>, y: Seq<u8>| !#[trigger] crate::rules::spec_lex_le(x, y) implies
        crate::rules::spec_lex_le(y, x) by {
        lemma_lex_props(x, y, Seq::empty());
    }
    assert forall|x: Seq<u8>, y: Seq<u8>, z: Seq<u8>|
        #[trigger] crate::rules::spec_lex_le(x, y) && #[trigger] crate::rules::spec_lex_le(
            y,
            z,
        ) implies crate::rules::spec_lex_le(x, z) by {
        lemma_lex_props(x, y, z);
    }
    assert forall|x: Seq<u8>| #[trigger] crate::rules::spec_lex_le(x, x) by {
        lemma_lex_props(x, x, x);
    }
}

/// The order key of an IEEE 754 bit pattern: monotone in the float
/// order for every non-NaN value.  Negative patterns reverse, positive
/// ones shift up.
pub open spec fn spec_float_key(bits: u64, width: u8) -> int {
    if width == 32 {
        if bits >= 0x8000_0000 {
            0xFFFF_FFFF - bits
        } else {
            bits + 0x8000_0000
        }
    } else {
        if bits >= 0x8000_0000_0000_0000 {
            0xFFFF_FFFF_FFFF_FFFF - bits
        } else {
            bits + 0x8000_0000_0000_0000
        }
    }
}

/// The recorded floating-point minimum of a chunk, as bits of the
/// column's physical width.
pub open spec fn spec_float_min_of(c: ChunkMeta) -> Option<(u64, u8)> {
    match c.statistics {
        Option::Some(s) => match s.typed {
            TypedMinMax::TFloatBits { min: Option::Some(v), .. } => Option::Some((v as u64, 32u8)),
            TypedMinMax::TDoubleBits { min: Option::Some(v), .. } => Option::Some((v, 64u8)),
            _ => Option::None,
        },
        Option::None => Option::None,
    }
}

/// The recorded floating-point maximum of a chunk.
pub open spec fn spec_float_max_of(c: ChunkMeta) -> Option<(u64, u8)> {
    match c.statistics {
        Option::Some(s) => match s.typed {
            TypedMinMax::TFloatBits { max: Option::Some(v), .. } => Option::Some((v as u64, 32u8)),
            TypedMinMax::TDoubleBits { max: Option::Some(v), .. } => Option::Some((v, 64u8)),
            _ => Option::None,
        },
        Option::None => Option::None,
    }
}

/// Aggregates floating-point bounds over row groups by the bit-pattern
/// order key (monotone in the float order for non-NaN values): the
/// result is one of the recorded bounds, present exactly when any
/// chunk records one.
pub fn aggregate_float_minmax(meta: &FileMeta, col: usize, width: u8) -> (r: (
    Option<u64>,
    Option<u64>,
))
    requires
        meta.wf(),
        col < meta.columns@.len(),
    ensures
        ({
            let n = meta.row_groups@.len();
            &&& (r.0 matches Option::Some(m) ==> exists|g: int|
                0 <= g < n && spec_float_min_of(#[trigger] meta.row_groups@[g].columns@[col as int])
                    is Some && spec_float_min_of(meta.row_groups@[g].columns@[col as int])->Some_0.0
                    == m)
            &&& (r.0 is None <==> forall|g: int|
                0 <= g < n ==> spec_float_min_of(
                    #[trigger] meta.row_groups@[g].columns@[col as int],
                ) is None)
            &&& (r.1 matches Option::Some(m) ==> exists|g: int|
                0 <= g < n && spec_float_max_of(#[trigger] meta.row_groups@[g].columns@[col as int])
                    is Some && spec_float_max_of(meta.row_groups@[g].columns@[col as int])->Some_0.0
                    == m)
            &&& (r.1 is None <==> forall|g: int|
                0 <= g < n ==> spec_float_max_of(
                    #[trigger] meta.row_groups@[g].columns@[col as int],
                ) is None)
        }),
{
    let n = meta.row_groups.len();
    let mut lo: Option<u64> = None;
    let mut hi: Option<u64> = None;
    let mut g: usize = 0;
    while g < n
        invariant
            0 <= g <= n,
            n == meta.row_groups@.len(),
            meta.wf(),
            col < meta.columns@.len(),
            lo matches Option::Some(m) ==> exists|k: int|
                0 <= k < g && spec_float_min_of(#[trigger] meta.row_groups@[k].columns@[col as int])
                    is Some && spec_float_min_of(meta.row_groups@[k].columns@[col as int])->Some_0.0
                    == m,
            lo is None <==> forall|k: int|
                0 <= k < g ==> spec_float_min_of(
                    #[trigger] meta.row_groups@[k].columns@[col as int],
                ) is None,
            hi matches Option::Some(m) ==> exists|k: int|
                0 <= k < g && spec_float_max_of(#[trigger] meta.row_groups@[k].columns@[col as int])
                    is Some && spec_float_max_of(meta.row_groups@[k].columns@[col as int])->Some_0.0
                    == m,
            hi is None <==> forall|k: int|
                0 <= k < g ==> spec_float_max_of(
                    #[trigger] meta.row_groups@[k].columns@[col as int],
                ) is None,
        decreases n - g,
    {
        let c = &meta.row_groups[g].columns[col];
        let (cmin, cmax): (Option<u64>, Option<u64>) = match &c.statistics {
            Option::Some(s) => match s.typed {
                TypedMinMax::TFloatBits { min, max } => (
                    match min {
                        Option::Some(v) => Some(v as u64),
                        Option::None => None,
                    },
                    match max {
                        Option::Some(v) => Some(v as u64),
                        Option::None => None,
                    },
                ),
                TypedMinMax::TDoubleBits { min, max } => (min, max),
                _ => (None, None),
            },
            Option::None => (None, None),
        };
        match cmin {
            Option::Some(v) => {
                proof {
                    assert(spec_float_min_of(meta.row_groups@[g as int].columns@[col as int])
                        is Some && spec_float_min_of(
                        meta.row_groups@[g as int].columns@[col as int],
                    )->Some_0.0 == v);
                }
                let vkey = float_key(v, width);
                lo = match lo {
                    Option::Some(m) => {
                        if vkey < float_key(m, width) {
                            Some(v)
                        } else {
                            Some(m)
                        }
                    },
                    Option::None => Some(v),
                };
            },
            Option::None => {
                proof {
                    assert(spec_float_min_of(meta.row_groups@[g as int].columns@[col as int])
                        is None);
                }
            },
        }
        match cmax {
            Option::Some(v) => {
                proof {
                    assert(spec_float_max_of(meta.row_groups@[g as int].columns@[col as int])
                        is Some && spec_float_max_of(
                        meta.row_groups@[g as int].columns@[col as int],
                    )->Some_0.0 == v);
                }
                let vkey = float_key(v, width);
                hi = match hi {
                    Option::Some(m) => {
                        if vkey > float_key(m, width) {
                            Some(v)
                        } else {
                            Some(m)
                        }
                    },
                    Option::None => Some(v),
                };
            },
            Option::None => {
                proof {
                    assert(spec_float_max_of(meta.row_groups@[g as int].columns@[col as int])
                        is None);
                }
            },
        }
        g += 1;
    }
    (lo, hi)
}

/// The order key of a bit pattern, as a comparable integer.
pub fn float_key(bits: u64, width: u8) -> (r: i128)
    ensures
        r == spec_float_key(bits, width),
{
    if width == 32 {
        if bits >= 0x8000_0000 {
            0xFFFF_FFFFi128 - bits as i128
        } else {
            bits as i128 + 0x8000_0000
        }
    } else {
        if bits >= 0x8000_0000_0000_0000 {
            0xFFFF_FFFF_FFFF_FFFFi128 - bits as i128
        } else {
            bits as i128 + 0x8000_0000_0000_0000
        }
    }
}

/// The type-specific statistics of one column, aggregated from the
/// statistics the writer recorded.
pub fn extract_type_stats(meta: &FileMeta, col: usize) -> (r: TypeStats)
    requires
        meta.wf(),
        col < meta.columns@.len(),
    ensures
        ({
            let d = meta.columns@[col as int];
            match d.physical {
                PhysicalKind::Boolean => r is Boolean,
                PhysicalKind::Int32 => r is Int,
                PhysicalKind::Int64 => r is Int,
                PhysicalKind::Float => r is Float,
                PhysicalKind::Double => r is Float,
                PhysicalKind::ByteArray => r is Text || r is Binary,
                PhysicalKind::FixedLenByteArray => r is FixedLenBinary,
                PhysicalKind::Int96 => r is Unknown,
            }
        }),
        // Boolean bounds aggregate by conjunction and disjunction of
        // the recorded bounds.
        r matches TypeStats::Boolean(s) ==> (s.min matches Option::Some(b) ==> b == !exists|g: int|
            0 <= g < meta.row_groups@.len() && spec_bool_min_of(
                #[trigger] meta.row_groups@[g].columns@[col as int],
            ) == Option::Some(false)) && (s.max matches Option::Some(b) ==> b == exists|g: int|
            0 <= g < meta.row_groups@.len() && spec_bool_max_of(
                #[trigger] meta.row_groups@[g].columns@[col as int],
            ) == Option::Some(true)),
        // Integer bounds are the extremes of the recorded bounds, with
        // the width and signedness of the logical annotation.
        r matches TypeStats::Int(s) ==> (s.is_signed, s.bit_width) == spec_int_type_info(
            meta.columns@[col as int].logical,
            if meta.columns@[col as int].physical == PhysicalKind::Int32 {
                32u8
            } else {
                64u8
            },
        ) && (s.min matches Option::Some(m) ==> (exists|g: int|
            0 <= g < meta.row_groups@.len() && spec_int_min_of(
                #[trigger] meta.row_groups@[g].columns@[col as int],
            ) == Option::Some(m)) && forall|g: int|
            0 <= g < meta.row_groups@.len() && spec_int_min_of(
                #[trigger] meta.row_groups@[g].columns@[col as int],
            ) is Some ==> m <= spec_int_min_of(
                meta.row_groups@[g].columns@[col as int],
            )->Some_0) && (s.max matches Option::Some(m) ==> (exists|g: int|
            0 <= g < meta.row_groups@.len() && spec_int_max_of(
                #[trigger] meta.row_groups@[g].columns@[col as int],
            ) == Option::Some(m)) && forall|g: int|
            0 <= g < meta.row_groups@.len() && spec_int_max_of(
                #[trigger] meta.row_groups@[g].columns@[col as int],
            ) is Some ==> m >= spec_int_max_of(meta.row_groups@[g].columns@[col as int])->Some_0),
        // The fixed byte length is the schema's.
        r matches TypeStats::FixedLenBinary(s) ==> s.type_length == meta.columns@[
            col as int
        ].type_length,
{
    let d = &meta.columns[col];
    match d.physical {
        PhysicalKind::Boolean => {
            let (min, max) = aggregate_bool_minmax(meta, col);
            TypeStats::Boolean(BooleanStats { min, max })
        },
        PhysicalKind::Int32 => {
            let (is_signed, bit_width) = int_type_info(d.logical, 32);
            let (min, max) = aggregate_int_minmax(meta, col);
            TypeStats::Int(IntStats { bit_width, is_signed, min, max })
        },
        PhysicalKind::Int64 => {
            let (is_signed, bit_width) = int_type_info(d.logical, 64);
            let (min, max) = aggregate_int_minmax(meta, col);
            TypeStats::Int(IntStats { bit_width, is_signed, min, max })
        },
        PhysicalKind::Float => {
            let (min_bits, max_bits) = aggregate_float_minmax(meta, col, 32);
            TypeStats::Float(FloatStats { bit_width: 32, min_bits, max_bits })
        },
        PhysicalKind::Double => {
            let (min_bits, max_bits) = aggregate_float_minmax(meta, col, 64);
            TypeStats::Float(FloatStats { bit_width: 64, min_bits, max_bits })
        },
        PhysicalKind::ByteArray => {
            let is_string = match d.logical {
                Option::Some(LogicalKind::StringLogical) => true,
                Option::Some(LogicalKind::JsonLogical) => true,
                Option::Some(LogicalKind::EnumLogical) => true,
                Option::Some(LogicalKind::BsonLogical) => true,
                _ => false,
            };
            let (min_value, max_value) = aggregate_bytes_minmax(meta, col);
            if is_string {
                TypeStats::Text(StringStats { min_value, max_value, lengths: None })
            } else {
                TypeStats::Binary(BinaryStats { min_value, max_value, lengths: None })
            }
        },
        PhysicalKind::FixedLenByteArray => {
            TypeStats::FixedLenBinary(FixedLenBinaryStats { type_length: d.type_length })
        },
        PhysicalKind::Int96 => TypeStats::Unknown,
    }
}

/// Whether a column still has gaps a bounded sample could fill.
pub fn needs_sampling(c: &ColumnContext) -> (r: bool)
    ensures
        r == match c.type_stats {
            TypeStats::Boolean(s) => s.min is None || s.max is None,
            TypeStats::Int(s) => s.min is None || s.max is None,
            TypeStats::Float(s) => s.min_bits is None || s.max_bits is None,
            TypeStats::Text(ref s) => s.lengths is None || s.min_value is None || s.max_value
                is None,
            TypeStats::Binary(ref s) => s.lengths is None || s.min_value is None || s.max_value
                is None,
            _ => false,
        },
{
    match &c.type_stats {
        TypeStats::Boolean(s) => s.min.is_none() || s.max.is_none(),
        TypeStats::Int(s) => s.min.is_none() || s.max.is_none(),
        TypeStats::Float(s) => s.min_bits.is_none() || s.max_bits.is_none(),
        TypeStats::Text(s) => s.lengths.is_none() || s.min_value.is_none() || s.max_value.is_none(),
        TypeStats::Binary(s) => s.lengths.is_none() || s.min_value.is_none()
            || s.max_value.is_none(),
        _ => false,
    }
}

/// Whether `x` occurs among the first `upto` booleans.
pub open spec fn v_prefix_contains(v: Seq<bool>, upto: int, x: bool) -> bool {
    exists|j: int| 0 <= j < upto && #[trigger] v[j] == x
}

/// The byte-length distribution of sampled byte strings: the least
/// and greatest lengths, both attained, bounding every sampled value.
fn lengths_of_blobs(vals: &Vec<Vec<u8>>) -> (r: Option<ByteLengthStats>)
    ensures
        r is Some <==> vals@.len() > 0,
        r matches Option::Some(l) ==> (exists|i: int|
            0 <= i < vals@.len() && (#[trigger] vals@[i])@.len() == l.min) && (exists|i: int|
            0 <= i < vals@.len() && (#[trigger] vals@[i])@.len() == l.max) && (forall|i: int|
            0 <= i < vals@.len() ==> l.min <= (#[trigger] vals@[i])@.len() <= l.max) && l.count
            > 0,
{
    if vals.len() == 0 {
        return None;
    }
    let mut lmin: usize = vals[0].len();
    let mut lmax: usize = vals[0].len();
    let mut total: u64 = vals[0].len() as u64;
    let mut count: u64 = 1;
    let mut i: usize = 1;
    while i < vals.len()
        invariant
            1 <= i <= vals@.len(),
            1 <= count <= i,
            exists|j: int| 0 <= j < i && (#[trigger] vals@[j])@.len() == lmin,
            exists|j: int| 0 <= j < i && (#[trigger] vals@[j])@.len() == lmax,
            forall|j: int| 0 <= j < i ==> lmin <= (#[trigger] vals@[j])@.len() <= lmax,
        decreases vals@.len() - i,
    {
        let len = vals[i].len();
        if len < lmin {
            lmin = len;
        }
        if len > lmax {
            lmax = len;
        }
        total = total.saturating_add(len as u64);
        if count < u64::MAX {
            count = count + 1;
        }
        i += 1;
    }
    Some(ByteLengthStats { min: lmin, max: lmax, total, count })
}

/// The byte-wise least and greatest sampled values: attained, and
/// bounding every sampled value.
fn blob_minmax(vals: &Vec<Vec<u8>>) -> (r: (Option<Vec<u8>>, Option<Vec<u8>>))
    ensures
        r.0 is Some <==> vals@.len() > 0,
        r.1 is Some <==> vals@.len() > 0,
        r.0 matches Option::Some(m) ==> (exists|i: int|
            0 <= i < vals@.len() && (#[trigger] vals@[i])@ == m@) && forall|i: int|
            0 <= i < vals@.len() ==> crate::rules::spec_lex_le(m@, (#[trigger] vals@[i])@),
        r.1 matches Option::Some(m) ==> (exists|i: int|
            0 <= i < vals@.len() && (#[trigger] vals@[i])@ == m@) && forall|i: int|
            0 <= i < vals@.len() ==> crate::rules::spec_lex_le((#[trigger] vals@[i])@, m@),
{
    if vals.len() == 0 {
        return (None, None);
    }
    let mut lo = copy_bytes(&vals[0]);
    let mut hi = copy_bytes(&vals[0]);
    proof {
        lemma_lex_props(lo@, lo@, lo@);
    }
    let mut i: usize = 1;
    while i < vals.len()
        invariant
            1 <= i <= vals@.len(),
            exists|j: int| 0 <= j < i && (#[trigger] vals@[j])@ == lo@,
            exists|j: int| 0 <= j < i && (#[trigger] vals@[j])@ == hi@,
            forall|j: int| 0 <= j < i ==> crate::rules::spec_lex_le(lo@, (#[trigger] vals@[j])@),
            forall|j: int| 0 <= j < i ==> crate::rules::spec_lex_le((#[trigger] vals@[j])@, hi@),
        decreases vals@.len() - i,
    {
        proof {
            lemma_lex_total_here();
        }
        if !crate::rules::bytes_le(&lo, &vals[i]) {
            lo = copy_bytes(&vals[i]);
        }
        if !crate::rules::bytes_le(&vals[i], &hi) {
            hi = copy_bytes(&vals[i]);
        }
        i += 1;
    }
    (Some(lo), Some(hi))
}

/// Totality, transitivity and reflexivity of the byte order, as ambient
/// facts for one proof step.
proof fn lemma_lex_total_here()
    ensures
        forall|x: Seq<u8>, y: Seq<u8>|
            !#[trigger] crate::rules::spec_lex_le(x, y) ==> crate::rules::spec_lex_le(y, x),
        forall|x: Seq<u8>, y: Seq<u8>, z: Seq<u8>|
            #[trigger] crate::rules::spec_lex_le(x, y) && #[trigger] crate::rules::spec_lex_le(
                y,
                z,
            ) ==> crate::rules::spec_lex_le(x, z),
        forall|x: Seq<u8>| #[trigger] crate::rules::spec_lex_le(x, x),
{
    assert forall|x: Seq<u8>, y: Seq<u8>| !#[trigger] crate::rules::spec_lex_le(x, y) implies
        crate::rules::spec_lex_le(y, x) by {
        lemma_lex_props(x, y, Seq::empty());
    }
    assert forall|x: Seq<u8>, y: Seq<u8>, z: Seq<u8>|
        #[trigger] crate::rules::spec_lex_le(x, y) && #[trigger] crate::rules::spec_lex_le(
            y,
            z,
        ) implies crate::rules::spec_lex_le(x, z) by {
        lemma_lex_props(x, y, z);
    }
    assert forall|x: Seq<u8>| #[trigger] crate::rules::spec_lex_le(x, x) by {
        lemma_lex_props(x, x, x);
    }
}

/// Fills the still-missing fields of a column's type statistics from
/// one sampled column.  Values already known from exact statistics are
/// never overwritten.  Text and binary columns sample as their UTF-8
/// byte strings.
pub fn fill_sampled_stats(c: ColumnContext, sample: &ColumnSample) -> (r: ColumnContext)
    ensures
        ({
            // Never overwrite a known value; fill a missing one from a
            // non-empty sample of the matching kind.
            match (c.type_stats, r.type_stats) {
                (TypeStats::Boolean(a), TypeStats::Boolean(b)) => (a.min is Some ==> b.min
                    == a.min) && (a.max is Some ==> b.max == a.max) && (match *sample {
                    ColumnSample::BoolSample(ref v) => v@.len() > 0 ==> (a.min is None ==> b.min
                        == Option::Some(!v@.contains(false))) && (a.max is None ==> b.max
                        == Option::Some(v@.contains(true))),
                    _ => b.min == a.min && b.max == a.max,
                }),
                (TypeStats::Int(a), TypeStats::Int(b)) => (a.min is Some ==> b.min == a.min) && (
                a.max is Some ==> b.max == a.max) && b.bit_width == a.bit_width && b.is_signed
                    == a.is_signed && (match *sample {
                    ColumnSample::IntSample(ref v) => v@.len() > 0 ==> (a.min is None ==> (b.min
                        matches Option::Some(m) && v@.contains(m) && forall|j: int|
                        0 <= j < v@.len() ==> m <= #[trigger] v@[j])) && (a.max is None ==> (b.max
                        matches Option::Some(m) && v@.contains(m) && forall|j: int|
                        0 <= j < v@.len() ==> m >= #[trigger] v@[j])),
                    _ => b.min == a.min && b.max == a.max,
                }),
                (TypeStats::Float(a), TypeStats::Float(b)) => (a.min_bits is Some ==> b.min_bits
                    == a.min_bits) && (a.max_bits is Some ==> b.max_bits == a.max_bits)
                    && b.bit_width == a.bit_width && (match *sample {
                    ColumnSample::BitsSample(ref v) => v@.len() > 0 ==> (a.min_bits is None ==> (
                    b.min_bits matches Option::Some(m) && v@.contains(m))) && (a.max_bits is None
                        ==> (b.max_bits matches Option::Some(m) && v@.contains(m))),
                    _ => b.min_bits == a.min_bits && b.max_bits == a.max_bits,
                }),
                (TypeStats::Text(a), TypeStats::Text(b)) => (a.min_value is Some ==> b.min_value
                    == a.min_value) && (a.max_value is Some ==> b.max_value == a.max_value) && (
                a.lengths is Some ==> b.lengths == a.lengths) && (match *sample {
                    ColumnSample::BlobSample(ref v) => v@.len() > 0 ==> (a.min_value is None
                        ==> b.min_value is Some) && (a.max_value is None ==> b.max_value is Some)
                        && (a.lengths is None ==> b.lengths is Some),
                    _ => b.min_value == a.min_value && b.max_value == a.max_value && b.lengths
                        == a.lengths,
                }),
                (TypeStats::Binary(a), TypeStats::Binary(b)) => (a.min_value is Some
                    ==> b.min_value == a.min_value) && (a.max_value is Some ==> b.max_value
                    == a.max_value) && (a.lengths is Some ==> b.lengths == a.lengths) && (match *sample {
                    ColumnSample::BlobSample(ref v) => v@.len() > 0 ==> (a.min_value is None
                        ==> b.min_value is Some) && (a.max_value is None ==> b.max_value is Some)
                        && (a.lengths is None ==> b.lengths is Some),
                    _ => b.min_value == a.min_value && b.max_value == a.max_value && b.lengths
                        == a.lengths,
                }),
                (TypeStats::FixedLenBinary(a), TypeStats::FixedLenBinary(b)) => a == b,
                (TypeStats::Unknown, TypeStats::Unknown) => true,
                _ => false,
            }
        }),
        r.physical_type == c.physical_type,
        r.logical_type == c.logical_type,
        r.mapped_type == c.mapped_type,
        r.num_values == c.num_values,
        r.null_count == c.null_count,
        r.distinct_count == c.distinct_count,
        r.uncompressed_size == c.uncompressed_size,
        r.compressed_size == c.compressed_size,
{
    let ColumnContext {
        physical_type,
        logical_type,
        mapped_type,
        num_values,
        null_count,
        distinct_count,
        uncompressed_size,
        compressed_size,
        type_stats,
    } = c;
    let new_stats = match type_stats {
        TypeStats::Boolean(s) => {
            let mut s2 = s;
            match sample {
                ColumnSample::BoolSample(vals) => {
                    if vals.len() > 0 && (s2.min.is_none() || s2.max.is_none()) {
                        let mut any_false = false;
                        let mut any_true = false;
                        let mut i: usize = 0;
                        while i < vals.len()
                            invariant
                                0 <= i <= vals@.len(),
                                any_false == v_prefix_contains(vals@, i as int, false),
                                any_true == v_prefix_contains(vals@, i as int, true),
                            decreases vals@.len() - i,
                        {
                            if vals[i] {
                                any_true = true;
                            } else {
                                any_false = true;
                            }
                            proof {
                                assert(v_prefix_contains(vals@, i + 1 as int, true) == (
                                v_prefix_contains(vals@, i as int, true) || vals@[i as int]));
                                assert(v_prefix_contains(vals@, i + 1 as int, false) == (
                                v_prefix_contains(vals@, i as int, false) || !vals@[i as int]));
                            }
                            i += 1;
                        }
                        proof {
                            assert(any_false == vals@.contains(false));
                            assert(any_true == vals@.contains(true));
                        }
                        if s2.min.is_none() {
                            s2.min = Some(!any_false);
                        }
                        if s2.max.is_none() {
                            s2.max = Some(any_true);
                        }
                    }
                },
                _ => {},
            }
            TypeStats::Boolean(s2)
        },
        TypeStats::Int(s) => {
            let mut s2 = s;
            match sample {
                ColumnSample::IntSample(vals) => {
                    if vals.len() > 0 && (s2.min.is_none() || s2.max.is_none()) {
                        let mut lo = vals[0];
                        let mut hi = vals[0];
                        let mut i: usize = 1;
                        while i < vals.len()
                            invariant
                                1 <= i <= vals@.len(),
                                vals@.contains(lo),
                                vals@.contains(hi),
                                forall|j: int| 0 <= j < i ==> lo <= #[trigger] vals@[j] <= hi,
                            decreases vals@.len() - i,
                        {
                            if vals[i] < lo {
                                lo = vals[i];
                                proof {
                                    assert(vals@[i as int] == lo);
                                }
                            }
                            if vals[i] > hi {
                                hi = vals[i];
                                proof {
                                    assert(vals@[i as int] == hi);
                                }
                            }
                            i += 1;
                        }
                        if s2.min.is_none() {
                            s2.min = Some(lo);
                        }
                        if s2.max.is_none() {
                            s2.max = Some(hi);
                        }
                    }
                },
                _ => {},
            }
            TypeStats::Int(s2)
        },
        TypeStats::Float(s) => {
            let mut s2 = s;
            match sample {
                ColumnSample::BitsSample(vals) => {
                    if vals.len() > 0 && (s2.min_bits.is_none() || s2.max_bits.is_none()) {
                        let w = s2.bit_width;
                        let mut lo = vals[0];
                        let mut hi = vals[0];
                        let mut i: usize = 1;
                        while i < vals.len()
                            invariant
                                1 <= i <= vals@.len(),
                                vals@.contains(lo),
                                vals@.contains(hi),
                            decreases vals@.len() - i,
                        {
                            if float_key(vals[i], w) < float_key(lo, w) {
                                lo = vals[i];
                                proof {
                                    assert(vals@[i as int] == lo);
                                }
                            }
                            if float_key(vals[i], w) > float_key(hi, w) {
                                hi = vals[i];
                                proof {
                                    assert(vals@[i as int] == hi);
                                }
                            }
                            i += 1;
                        }
                        if s2.min_bits.is_none() {
                            s2.min_bits = Some(lo);
                        }
                        if s2.max_bits.is_none() {
                            s2.max_bits = Some(hi);
                        }
                    }
                },
                _ => {},
            }
            TypeStats::Float(s2)
        },
        TypeStats::Text(s) => {
            let mut s2 = s;
            match sample {
                ColumnSample::BlobSample(vals) => {
                    let (lo, hi) = blob_minmax(vals);
                    if s2.min_value.is_none() {
                        s2.min_value = lo;
                    }
                    if s2.max_value.is_none() {
                        s2.max_value = hi;
                    }
                    if s2.lengths.is_none() {
                        s2.lengths = lengths_of_blobs(vals);
                    }
                },
                _ => {},
            }
            TypeStats::Text(s2)
        },
        TypeStats::Binary(s) => {
            let mut s2 = s;
            match sample {
                ColumnSample::BlobSample(vals) => {
                    let (lo, hi) = blob_minmax(vals);
                    if s2.min_value.is_none() {
                        s2.min_value = lo;
                    }
                    if s2.max_value.is_none() {
                        s2.max_value = hi;
                    }
                    if s2.lengths.is_none() {
                        s2.lengths = lengths_of_blobs(vals);
                    }
                },
                _ => {},
            }
            TypeStats::Binary(s2)
        },
        other => other,
    };
    ColumnContext {
        physical_type,
        logical_type,
        mapped_type,
        num_values,
        null_count,
        distinct_count,
        uncompressed_size,
        compressed_size,
        type_stats: new_stats,
    }
}

/// The positive byte totals of a column over the first `upto` row
/// groups.
pub open spec fn spec_col_byte_sums(meta: FileMeta, col: int, upto: int) -> (int, int)
    decreases upto,
{
    if upto <= 0 {
        (0, 0)
    } else {
        let (unc, comp) = spec_col_byte_sums(meta, col, upto - 1);
        let c = meta.row_groups@[upto - 1].columns@[col];
        (
            unc + if c.uncompressed_size > 0 {
                c.uncompressed_size as int
            } else {
                0int
            },
            comp + if c.compressed_size > 0 {
                c.compressed_size as int
            } else {
                0int
            },
        )
    }
}

/// The byte totals are non-negative.
proof fn lemma_byte_sums_nonneg(meta: FileMeta, col: int, upto: int)
    requires
        0 <= upto,
    ensures
        spec_col_byte_sums(meta, col, upto).0 >= 0,
        spec_col_byte_sums(meta, col, upto).1 >= 0,
    decreases upto,
{
    if upto > 0 {
        lemma_byte_sums_nonneg(meta, col, upto - 1);
    }
}

/// The file-wide recorded null total of a column over the first `upto`
/// row groups.
pub open spec fn spec_null_total(meta: FileMeta, col: int, upto: int) -> int
    decreases upto,
{
    if upto <= 0 {
        0
    } else {
        let nc = match meta.row_groups@[upto - 1].columns@[col].statistics {
            Option::Some(s) => match s.null_count {
                Option::Some(n) => n as int,
                Option::None => 0,
            },
            Option::None => 0,
        };
        spec_null_total(meta, col, upto - 1) + nc
    }
}

/// The null totals are sums of non-negative counts.
proof fn lemma_null_total_nonneg(meta: FileMeta, col: int, upto: int)
    requires
        0 <= upto,
    ensures
        spec_null_total(meta, col, upto) >= 0,
    decreases upto,
{
    if upto > 0 {
        lemma_null_total_nonneg(meta, col, upto - 1);
    }
}

/// Builds one normalized context per column from the metadata, the
/// cardinality estimates, and the sampled values for columns the
/// statistics left incomplete.  The counts obey the invariant
/// `null_count <= num_values` and `distinct_count <= non-null count`.
pub fn build(meta: &FileMeta, cardinalities: &Vec<ColumnCardinality>, samples: &Vec<ColumnSample>) -> (r: Vec<ColumnContext>)
    requires
        meta.wf(),
        cardinalities@.len() == meta.columns@.len(),
        samples@.len() == meta.columns@.len(),
    ensures
        r@.len() == meta.columns@.len(),
        forall|c: int|
            0 <= c < r@.len() ==> (#[trigger] r@[c]).wf() && r@[c].physical_type
                == meta.columns@[c].physical && r@[c].logical_type == meta.columns@[c].logical
                && r@[c].mapped_type == spec_mapped_type(meta.columns@[c]) && r@[c].num_values
                == crate::cardinality::spec_sat64(
                crate::cardinality::spec_values_total(*meta, c, meta.row_groups@.len() as int),
            ),
        // Counts and sizes are the stated sums, clamped to the
        // documented invariants.
        forall|c: int|
            0 <= c < r@.len() ==> {
                let nt = crate::cardinality::spec_sat64(
                    spec_null_total(*meta, c, meta.row_groups@.len() as int),
                );
                (#[trigger] r@[c]).null_count == if nt <= r@[c].num_values {
                    nt
                } else {
                    r@[c].num_values
                }
            },
        forall|c: int|
            0 <= c < r@.len() ==> {
                let nn = (r@[c].num_values - r@[c].null_count) as u64;
                (#[trigger] r@[c]).distinct_count == if cardinalities@[c].distinct_count <= nn {
                    cardinalities@[c].distinct_count
                } else {
                    nn
                }
            },
        forall|c: int|
            0 <= c < r@.len() ==> (#[trigger] r@[c]).uncompressed_size
                == crate::cardinality::spec_sat64(
                spec_col_byte_sums(*meta, c, meta.row_groups@.len() as int).0,
            ) && r@[c].compressed_size == crate::cardinality::spec_sat64(
                spec_col_byte_sums(*meta, c, meta.row_groups@.len() as int).1,
            ),
{
    let ncols = meta.columns.len();
    let nrgs = meta.row_groups.len();
    let mut out: Vec<ColumnContext> = Vec::new();
    let mut col: usize = 0;
    while col < ncols
        invariant
            0 <= col <= ncols,
            ncols == meta.columns@.len(),
            nrgs == meta.row_groups@.len(),
            meta.wf(),
            cardinalities@.len() == ncols,
            samples@.len() == ncols,
            out@.len() == col,
            forall|c: int|
                0 <= c < col ==> (#[trigger] out@[c]).wf() && out@[c].physical_type
                    == meta.columns@[c].physical && out@[c].logical_type == meta.columns@[c].logical
                    && out@[c].mapped_type == spec_mapped_type(meta.columns@[c])
                    && out@[c].num_values == crate::cardinality::spec_sat64(
                    crate::cardinality::spec_values_total(*meta, c, meta.row_groups@.len() as int),
                ),
            forall|c: int|
                0 <= c < col ==> {
                    let nt = crate::cardinality::spec_sat64(
                        spec_null_total(*meta, c, meta.row_groups@.len() as int),
                    );
                    (#[trigger] out@[c]).null_count == if nt <= out@[c].num_values {
                        nt
                    } else {
                        out@[c].num_values
                    }
                },
            forall|c: int|
                0 <= c < col ==> {
                    let nn = (out@[c].num_values - out@[c].null_count) as u64;
                    (#[trigger] out@[c]).distinct_count == if cardinalities@[c].distinct_count
                        <= nn {
                        cardinalities@[c].distinct_count
                    } else {
                        nn
                    }
                },
            forall|c: int|
                0 <= c < col ==> (#[trigger] out@[c]).uncompressed_size
                    == crate::cardinality::spec_sat64(
                    spec_col_byte_sums(*meta, c, meta.row_groups@.len() as int).0,
                ) && out@[c].compressed_size == crate::cardinality::spec_sat64(
                    spec_col_byte_sums(*meta, c, meta.row_groups@.len() as int).1,
                ),
        decreases ncols - col,
    {
        let mut num_values: u64 = 0;
        let mut null_count: u64 = 0;
        let mut unc: u64 = 0;
        let mut comp: u64 = 0;
        let mut g: usize = 0;
        while g < nrgs
            invariant
                0 <= g <= nrgs,
                col < ncols,
                nrgs == meta.row_groups@.len(),
                ncols == meta.columns@.len(),
                meta.wf(),
                num_values == crate::cardinality::spec_sat64(
                    crate::cardinality::spec_values_total(*meta, col as int, g as int),
                ),
                null_count == crate::cardinality::spec_sat64(
                    spec_null_total(*meta, col as int, g as int),
                ),
                unc == crate::cardinality::spec_sat64(
                    spec_col_byte_sums(*meta, col as int, g as int).0,
                ),
                comp == crate::cardinality::spec_sat64(
                    spec_col_byte_sums(*meta, col as int, g as int).1,
                ),
            decreases nrgs - g,
        {
            proof {
                crate::cardinality::lemma_non_null_le_values(*meta, col as int, g as int);
                lemma_null_total_nonneg(*meta, col as int, g as int);
                lemma_byte_sums_nonneg(*meta, col as int, g as int);
            }
            let c = &meta.row_groups[g].columns[col];
            if c.num_values > 0 {
                num_values = num_values.saturating_add(c.num_values as u64);
            }
            let nc: u64 = match &c.statistics {
                Option::Some(s) => match s.null_count {
                    Option::Some(n) => n,
                    Option::None => 0,
                },
                Option::None => 0,
            };
            null_count = null_count.saturating_add(nc);
            if c.uncompressed_size > 0 {
                unc = unc.saturating_add(c.uncompressed_size as u64);
            }
            if c.compressed_size > 0 {
                comp = comp.saturating_add(c.compressed_size as u64);
            }
            g += 1;
        }
        // The counts obey the documented invariant: clamp the recorded
        // null count to the value count, and the estimate to the
        // non-null count.
        let null_clamped = if null_count <= num_values {
            null_count
        } else {
            num_values
        };
        let non_null = num_values - null_clamped;
        let card = cardinalities[col];
        let distinct = if card.distinct_count <= non_null {
            card.distinct_count
        } else {
            non_null
        };
        let type_stats = extract_type_stats(meta, col);
        let mut ctx = ColumnContext {
            physical_type: meta.columns[col].physical,
            logical_type: meta.columns[col].logical,
            mapped_type: mapped_type_from_descriptor(&meta.columns[col]),
            num_values,
            null_count: null_clamped,
            distinct_count: distinct,
            uncompressed_size: unc,
            compressed_size: comp,
            type_stats,
        };
        if needs_sampling(&ctx) {
            ctx = fill_sampled_stats(ctx, &samples[col]);
        }
        out.push(ctx);
        col += 1;
    }
    out
}

} // verus!
