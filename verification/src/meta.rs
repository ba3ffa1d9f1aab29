//! A plain-value model of a Parquet file's metadata: schema, row
//! groups, column chunks, their statistics and encodings.  The
//! surrounding application fills this model from a real file; every
//! algorithm of the library is stated and verified over it.

use crate::prescription::ColPath;
use vstd::prelude::*;

verus! {

/// The physical storage type of a column.
#[derive(Debug, Clone, Copy, PartialEq, Eq, Structural)]
pub enum PhysicalKind {
    Boolean,
    Int32,
    Int64,
    Int96,
    Float,
    Double,
    ByteArray,
    FixedLenByteArray,
}

/// The unit of a temporal logical type.
#[derive(Debug, Clone, Copy, PartialEq, Eq, Structural)]
pub enum TimeUnitKind {
    Millis,
    Micros,
    Nanos,
}

/// The logical annotation of a column, where one is declared.
#[derive(Debug, Clone, Copy, PartialEq, Eq, Structural)]
pub enum LogicalKind {
    StringLogical,
    EnumLogical,
    JsonLogical,
    BsonLogical,
    UuidLogical,
    DateLogical,
    IntegerLogical { bit_width: u8, is_signed: bool },
    DecimalLogical { precision: i32, scale: i32 },
    TimeLogical { unit: TimeUnitKind },
    TimestampLogical { utc: bool, unit: TimeUnitKind },
    OtherLogical,
}

/// A page or chunk encoding.
#[derive(Debug, Clone, Copy, PartialEq, Eq, Structural)]
pub enum EncodingKind {
    Plain,
    PlainDictionary,
    Rle,
    BitPacked,
    DeltaBinaryPacked,
    DeltaLengthByteArray,
    DeltaByteArray,
    RleDictionary,
    ByteStreamSplit,
}

/// A compression codec as recorded in a chunk's metadata.
#[derive(Debug, Clone, Copy, PartialEq, Eq, Structural)]
pub enum CompressionKind {
    Uncompressed,
    Snappy,
    GzipLevel(u32),
    Lzo,
    BrotliLevel(u32),
    Lz4,
    ZstdLevel(i32),
    Lz4Raw,
}

/// The type of a page, as recorded in page encoding statistics.
#[derive(Debug, Clone, Copy, PartialEq, Eq, Structural)]
pub enum PageTypeKind {
    DataPage,
    DataPageV2,
    DictionaryPage,
    IndexPage,
}

/// One entry of a chunk's page encoding statistics.
#[derive(Debug, Clone, Copy, PartialEq, Eq, Structural)]
pub struct PageEncodingStat {
    pub page_type: PageTypeKind,
    pub encoding: EncodingKind,
    pub count: i32,
}

/// Typed minimum and maximum of a chunk's statistics.  Floating-point
/// bounds are carried as their IEEE 754 bit patterns.
#[derive(Debug, Clone, Copy, PartialEq, Eq, Structural)]
pub enum TypedMinMax {
    TBool { min: Option<bool>, max: Option<bool> },
    TInt32 { min: Option<i32>, max: Option<i32> },
    TInt64 { min: Option<i64>, max: Option<i64> },
    TFloatBits { min: Option<u32>, max: Option<u32> },
    TDoubleBits { min: Option<u64>, max: Option<u64> },
    TBytes,
    TNone,
}

/// The statistics a writer recorded for one column chunk.
#[derive(Debug, Clone)]
pub struct ChunkStats {
    /// Raw bytes of the minimum, where recorded.
    pub min_bytes: Option<Vec<u8>>,
    /// Raw bytes of the maximum, where recorded.
    pub max_bytes: Option<Vec<u8>>,
    /// Whether the recorded minimum is exact rather than truncated.
    pub min_is_exact: bool,
    /// Whether the recorded maximum is exact rather than truncated.
    pub max_is_exact: bool,
    pub null_count: Option<u64>,
    pub distinct_count: Option<u64>,
    pub typed: TypedMinMax,
}

/// The metadata of one column chunk within one row group.
#[derive(Debug, Clone)]
pub struct ChunkMeta {
    pub num_values: i64,
    pub uncompressed_size: i64,
    pub compressed_size: i64,
    pub compression: CompressionKind,
    /// The set of encodings used anywhere in the chunk.
    pub encodings: Vec<EncodingKind>,
    /// Whether the chunk starts with a dictionary page.
    pub has_dictionary_page: bool,
    /// Whether a bloom filter is stored for the chunk.
    pub has_bloom_filter: bool,
    /// Whether a page-level column index is stored for the chunk.
    pub has_column_index: bool,
    /// Number of data pages, where the file carries an offset index.
    pub page_location_count: Option<u64>,
    pub statistics: Option<ChunkStats>,
    /// Per-page-type encoding counts, where recorded.
    pub page_encoding_stats: Option<Vec<PageEncodingStat>>,
}

/// One sorting column of a row group.
#[derive(Debug, Clone, Copy, PartialEq, Eq, Structural)]
pub struct SortingColumnModel {
    pub column_idx: i32,
    pub descending: bool,
    pub nulls_first: bool,
}

/// The metadata of one row group.
#[derive(Debug, Clone)]
pub struct RowGroupMeta {
    pub num_rows: i64,
    pub compressed_size: i64,
    pub sorting_columns: Option<Vec<SortingColumnModel>>,
    pub columns: Vec<ChunkMeta>,
}

/// The schema description of one leaf column.
#[derive(Debug)]
pub struct ColumnDescModel {
    pub path: ColPath,
    pub physical: PhysicalKind,
    pub logical: Option<LogicalKind>,
    pub max_rep_level: i16,
    pub max_def_level: i16,
    /// Byte length of fixed-length binary values.
    pub type_length: i32,
}

/// One key/value entry of the file's metadata.
#[derive(Debug, Clone)]
pub struct KeyValueModel {
    pub key: String,
    pub value: Option<String>,
}

/// The whole file's metadata.
#[derive(Debug)]
pub struct FileMeta {
    pub version: i32,
    pub created_by: Option<String>,
    pub key_value_metadata: Option<Vec<KeyValueModel>>,
    /// Whether the schema is flat: every root field is a leaf column.
    pub flat_schema: bool,
    pub columns: Vec<ColumnDescModel>,
    pub row_groups: Vec<RowGroupMeta>,
}

impl FileMeta {
    /// Shape invariant: every row group has one chunk per leaf column.
    pub open spec fn wf(&self) -> bool {
        forall|g: int|
            0 <= g < self.row_groups@.len() ==> (#[trigger] self.row_groups@[g]).columns@.len()
                == self.columns@.len()
    }

    /// Tests the shape invariant, for callers outside verified code.
    pub fn check_wf(&self) -> (r: bool)
        ensures
            r == self.wf(),
    {
        let ncols = self.columns.len();
        let mut g: usize = 0;
        while g < self.row_groups.len()
            invariant
                0 <= g <= self.row_groups@.len(),
                ncols == self.columns@.len(),
                forall|k: int|
                    0 <= k < g ==> (#[trigger] self.row_groups@[k]).columns@.len()
                        == self.columns@.len(),
            decreases self.row_groups@.len() - g,
        {
            if self.row_groups[g].columns.len() != ncols {
                return false;
            }
            g += 1;
        }
        true
    }

    /// The number of leaf columns.
    pub fn num_columns(&self) -> (r: usize)
        ensures
            r == self.columns@.len(),
    {
        self.columns.len()
    }

    /// The number of row groups.
    pub fn num_row_groups(&self) -> (r: usize)
        ensures
            r == self.row_groups@.len(),
    {
        self.row_groups.len()
    }
}

/// The non-null value count of one chunk: its value count less the
/// recorded null count (clamped), zero when the chunk is empty.
pub open spec fn spec_chunk_non_null(c: ChunkMeta) -> u64 {
    if c.num_values <= 0 {
        0
    } else {
        let total = c.num_values as u64;
        let nulls = match c.statistics {
            Option::Some(s) => match s.null_count {
                Option::Some(n) => if n <= total {
                    n
                } else {
                    total
                },
                Option::None => 0,
            },
            Option::None => 0,
        };
        (total - nulls) as u64
    }
}

/// The non-null value count of one chunk.
pub fn column_non_null_count(c: &ChunkMeta) -> (r: u64)
    ensures
        r == spec_chunk_non_null(*c),
{
    if c.num_values <= 0 {
        return 0;
    }
    let total = c.num_values as u64;
    let nulls = match &c.statistics {
        Option::Some(s) => match s.null_count {
            Option::Some(n) => if n <= total {
                n
            } else {
                total
            },
            Option::None => 0,
        },
        Option::None => 0,
    };
    total - nulls
}

/// Whether an encoding carries repetition/definition levels rather
/// than values.
pub open spec fn spec_is_level_encoding(e: EncodingKind) -> bool {
    e == EncodingKind::Rle || e == EncodingKind::BitPacked
}

/// Whether an encoding is a dictionary-index encoding.
pub open spec fn spec_is_dictionary_encoding(e: EncodingKind) -> bool {
    e == EncodingKind::PlainDictionary || e == EncodingKind::RleDictionary
}

/// Whether an encoding carries repetition/definition levels.
pub fn is_level_encoding(e: EncodingKind) -> (r: bool)
    ensures
        r == spec_is_level_encoding(e),
{
    match e {
        EncodingKind::Rle => true,
        EncodingKind::BitPacked => true,
        _ => false,
    }
}

/// Whether an encoding is a dictionary-index encoding.
pub fn is_dictionary_encoding(e: EncodingKind) -> (r: bool)
    ensures
        r == spec_is_dictionary_encoding(e),
{
    match e {
        EncodingKind::PlainDictionary => true,
        EncodingKind::RleDictionary => true,
        _ => false,
    }
}

/// Whether a chunk's encoding set contains an encoding satisfying `q`.
pub open spec fn spec_has_encoding(c: ChunkMeta, q: spec_fn(EncodingKind) -> bool) -> bool {
    exists|i: int| 0 <= i < c.encodings@.len() && q(#[trigger] c.encodings@[i])
}

/// Whether the chunk lists a plain encoding.
pub fn has_plain_encoding(c: &ChunkMeta) -> (r: bool)
    ensures
        r == spec_has_encoding(*c, |e: EncodingKind| e == EncodingKind::Plain),
{
    let ghost q = |e: EncodingKind| e == EncodingKind::Plain;
    let mut i: usize = 0;
    while i < c.encodings.len()
        invariant
            0 <= i <= c.encodings@.len(),
            forall|k: int| 0 <= k < i ==> !q(#[trigger] c.encodings@[k]),
            q == (|e: EncodingKind| e == EncodingKind::Plain),
        decreases c.encodings@.len() - i,
    {
        if matches!(c.encodings[i], EncodingKind::Plain) {
            proof {
                assert(q(c.encodings@[i as int]));
            }
            return true;
        }
        i += 1;
    }
    false
}

/// Whether the chunk lists a dictionary-index encoding.
pub fn has_dictionary_encoding(c: &ChunkMeta) -> (r: bool)
    ensures
        r == spec_has_encoding(*c, |e: EncodingKind| spec_is_dictionary_encoding(e)),
{
    let ghost q = |e: EncodingKind| spec_is_dictionary_encoding(e);
    let mut i: usize = 0;
    while i < c.encodings.len()
        invariant
            0 <= i <= c.encodings@.len(),
            forall|k: int| 0 <= k < i ==> !q(#[trigger] c.encodings@[k]),
            q == (|e: EncodingKind| spec_is_dictionary_encoding(e)),
        decreases c.encodings@.len() - i,
    {
        if is_dictionary_encoding(c.encodings[i]) {
            proof {
                assert(q(c.encodings@[i as int]));
            }
            return true;
        }
        i += 1;
    }
    false
}

/// Whether the chunk lists an encoding equal to `e0`.
pub fn has_encoding(c: &ChunkMeta, e0: EncodingKind) -> (r: bool)
    ensures
        r == spec_has_encoding(*c, |e: EncodingKind| e == e0),
{
    let ghost q = |e: EncodingKind| e == e0;
    let mut i: usize = 0;
    while i < c.encodings.len()
        invariant
            0 <= i <= c.encodings@.len(),
            forall|k: int| 0 <= k < i ==> !q(#[trigger] c.encodings@[k]),
            q == (|e: EncodingKind| e == e0),
        decreases c.encodings@.len() - i,
    {
        if c.encodings[i] == e0 {
            proof {
                assert(q(c.encodings@[i as int]));
            }
            return true;
        }
        i += 1;
    }
    false
}

} // verus!
