//! Writer properties as plain values: the file-level settings and
//! per-column overrides a rewrite will use.  A base is inferred from
//! the source file's metadata; a prescription is then folded on top,
//! later directives winning.  The application converts the result into
//! its writer's configuration.

use crate::meta::{CompressionKind, EncodingKind, FileMeta, KeyValueModel, SortingColumnModel};
use crate::prescription::{
    path_text, Codec, DataEncoding, Directive, DirectiveV, FppValue, Prescription,
    StatisticsConfig,
};
use vstd::prelude::*;

verus! {

/// The compression a codec request stands for.
pub open spec fn spec_codec_compression(c: Codec) -> CompressionKind {
    match c {
        Codec::Uncompressed => CompressionKind::Uncompressed,
        Codec::Snappy => CompressionKind::Snappy,
        Codec::Gzip(l) => CompressionKind::GzipLevel(l as u32),
        Codec::Brotli(l) => CompressionKind::BrotliLevel(l as u32),
        Codec::Zstd(l) => CompressionKind::ZstdLevel(l),
        Codec::Lz4Raw => CompressionKind::Lz4Raw,
    }
}

/// Converts a codec request into the recorded compression kind.
pub fn codec_compression(c: Codec) -> (r: CompressionKind)
    ensures
        r == spec_codec_compression(c),
{
    match c {
        Codec::Uncompressed => CompressionKind::Uncompressed,
        Codec::Snappy => CompressionKind::Snappy,
        Codec::Gzip(l) => CompressionKind::GzipLevel(l as u32),
        Codec::Brotli(l) => CompressionKind::BrotliLevel(l as u32),
        Codec::Zstd(l) => CompressionKind::ZstdLevel(l),
        Codec::Lz4Raw => CompressionKind::Lz4Raw,
    }
}

/// The page encoding a data-encoding request stands for.
pub open spec fn spec_data_encoding_kind(e: DataEncoding) -> EncodingKind {
    match e {
        DataEncoding::Plain => EncodingKind::Plain,
        DataEncoding::DeltaBinaryPacked => EncodingKind::DeltaBinaryPacked,
        DataEncoding::DeltaLengthByteArray => EncodingKind::DeltaLengthByteArray,
        DataEncoding::DeltaByteArray => EncodingKind::DeltaByteArray,
        DataEncoding::ByteStreamSplit => EncodingKind::ByteStreamSplit,
    }
}

/// Converts a data-encoding request into the recorded encoding kind.
pub fn data_encoding_kind(e: DataEncoding) -> (r: EncodingKind)
    ensures
        r == spec_data_encoding_kind(e),
{
    match e {
        DataEncoding::Plain => EncodingKind::Plain,
        DataEncoding::DeltaBinaryPacked => EncodingKind::DeltaBinaryPacked,
        DataEncoding::DeltaLengthByteArray => EncodingKind::DeltaLengthByteArray,
        DataEncoding::DeltaByteArray => EncodingKind::DeltaByteArray,
        DataEncoding::ByteStreamSplit => EncodingKind::ByteStreamSplit,
    }
}

/// The per-column overrides of the writer configuration, keyed by the
/// column's dotted path.
#[derive(Debug)]
pub struct ColumnWriterProps {
    pub path_text: String,
    pub compression: Option<CompressionKind>,
    pub encoding: Option<EncodingKind>,
    pub dictionary_enabled: Option<bool>,
    pub dictionary_page_size_limit: Option<usize>,
    pub statistics: Option<StatisticsConfig>,
    pub bloom_filter_enabled: Option<bool>,
    pub bloom_filter_ndv: Option<u64>,
    pub bloom_filter_fpp: Option<FppValue>,
}

/// The mathematical shape of a column override.
#[verifier::ext_equal]
pub struct ColumnWriterPropsV {
    pub path_text: Seq<char>,
    pub compression: Option<CompressionKind>,
    pub encoding: Option<EncodingKind>,
    pub dictionary_enabled: Option<bool>,
    pub dictionary_page_size_limit: Option<usize>,
    pub statistics: Option<StatisticsConfig>,
    pub bloom_filter_enabled: Option<bool>,
    pub bloom_filter_ndv: Option<u64>,
    pub bloom_filter_fpp: Option<Seq<char>>,
}

impl View for ColumnWriterProps {
    type V = ColumnWriterPropsV;

    open spec fn view(&self) -> ColumnWriterPropsV {
        ColumnWriterPropsV {
            path_text: self.path_text@,
            compression: self.compression,
            encoding: self.encoding,
            dictionary_enabled: self.dictionary_enabled,
            dictionary_page_size_limit: self.dictionary_page_size_limit,
            statistics: self.statistics,
            bloom_filter_enabled: self.bloom_filter_enabled,
            bloom_filter_ndv: self.bloom_filter_ndv,
            bloom_filter_fpp: match self.bloom_filter_fpp {
                Option::Some(f) => Option::Some(f@),
                Option::None => Option::None,
            },
        }
    }
}

impl DeepView for ColumnWriterProps {
    type V = ColumnWriterPropsV;

    open spec fn deep_view(&self) -> ColumnWriterPropsV {
        self.view()
    }
}

/// A fresh override with nothing set.
pub open spec fn spec_empty_col(path_text: Seq<char>) -> ColumnWriterPropsV {
    ColumnWriterPropsV {
        path_text,
        compression: Option::None,
        encoding: Option::None,
        dictionary_enabled: Option::None,
        dictionary_page_size_limit: Option::None,
        statistics: Option::None,
        bloom_filter_enabled: Option::None,
        bloom_filter_ndv: Option::None,
        bloom_filter_fpp: Option::None,
    }
}

impl ColumnWriterProps {
    /// A fresh override with nothing set.
    pub fn empty(path_text: String) -> (r: ColumnWriterProps)
        ensures
            r@ =~= spec_empty_col(path_text@),
    {
        ColumnWriterProps {
            path_text,
            compression: None,
            encoding: None,
            dictionary_enabled: None,
            dictionary_page_size_limit: None,
            statistics: None,
            bloom_filter_enabled: None,
            bloom_filter_ndv: None,
            bloom_filter_fpp: None,
        }
    }
}

/// The writer configuration a rewrite will use.
#[derive(Debug)]
pub struct PhysicalProperties {
    /// The format version to write: 1 or 2, where known.
    pub writer_version: Option<i32>,
    pub created_by: Option<String>,
    pub key_value_metadata: Option<Vec<KeyValueModel>>,
    pub sorting_columns: Option<Vec<SortingColumnModel>>,
    pub max_row_group_size: Option<usize>,
    /// File-wide default compression.
    pub compression: Option<CompressionKind>,
    pub data_page_size_limit: Option<usize>,
    /// `Some(limit)` when set; the inner `None` disables truncation.
    pub statistics_truncate_length: Option<Option<usize>>,
    pub columns: Vec<ColumnWriterProps>,
}

/// The first override entry for a path, or -1.
pub open spec fn find_col(cols: Seq<ColumnWriterPropsV>, pt: Seq<char>, i: int) -> int
    decreases cols.len() - i,
{
    if i < 0 || i >= cols.len() {
        -1
    } else if cols[i].path_text == pt {
        i
    } else {
        find_col(cols, pt, i + 1)
    }
}

/// The override list after setting one field for one path: the first
/// matching entry updated, or a fresh entry appended.
pub open spec fn spec_set_col(
    cols: Seq<ColumnWriterPropsV>,
    pt: Seq<char>,
    update: spec_fn(ColumnWriterPropsV) -> ColumnWriterPropsV,
) -> Seq<ColumnWriterPropsV> {
    let i = find_col(cols, pt, 0);
    if i >= 0 {
        cols.update(i, update(cols[i]))
    } else {
        cols.push(update(spec_empty_col(pt)))
    }
}

/// One directive folded onto the configuration.
pub open spec fn spec_apply_one(p: PhysicalProperties, cols: Seq<ColumnWriterPropsV>, d: DirectiveV) -> (
    PhysicalProperties,
    Seq<ColumnWriterPropsV>,
) {
    match d {
        DirectiveV::SetFileCompression(c) => (
            PhysicalProperties { compression: Option::Some(spec_codec_compression(c)), ..p },
            cols,
        ),
        DirectiveV::SetFileMaxRowGroupSize(n) => (
            PhysicalProperties { max_row_group_size: Option::Some(n), ..p },
            cols,
        ),
        DirectiveV::SetFileDataPageSizeLimit(n) => (
            PhysicalProperties { data_page_size_limit: Option::Some(n), ..p },
            cols,
        ),
        DirectiveV::SetFileStatisticsTruncateLength(v) => (
            PhysicalProperties { statistics_truncate_length: Option::Some(v), ..p },
            cols,
        ),
        DirectiveV::SetColumnCompression(path, c) => (
            p,
            spec_set_col(
                cols,
                path_text(path),
                |e: ColumnWriterPropsV|
                    ColumnWriterPropsV {
                        compression: Option::Some(spec_codec_compression(c)),
                        ..e
                    },
            ),
        ),
        DirectiveV::SetColumnEncoding(path, enc) => (
            p,
            spec_set_col(
                cols,
                path_text(path),
                |e: ColumnWriterPropsV|
                    ColumnWriterPropsV {
                        encoding: Option::Some(spec_data_encoding_kind(enc)),
                        ..e
                    },
            ),
        ),
        DirectiveV::SetColumnDictionary(path, b) => (
            p,
            spec_set_col(
                cols,
                path_text(path),
                |e: ColumnWriterPropsV| ColumnWriterPropsV { dictionary_enabled: Option::Some(b), ..e },
            ),
        ),
        DirectiveV::SetColumnDictionaryPageSizeLimit(path, n) => (
            p,
            spec_set_col(
                cols,
                path_text(path),
                |e: ColumnWriterPropsV|
                    ColumnWriterPropsV { dictionary_page_size_limit: Option::Some(n), ..e },
            ),
        ),
        DirectiveV::SetColumnStatistics(path, s) => (
            p,
            spec_set_col(
                cols,
                path_text(path),
                |e: ColumnWriterPropsV| ColumnWriterPropsV { statistics: Option::Some(s), ..e },
            ),
        ),
        DirectiveV::SetColumnBloomFilter(path, b) => (
            p,
            spec_set_col(
                cols,
                path_text(path),
                |e: ColumnWriterPropsV|
                    ColumnWriterPropsV { bloom_filter_enabled: Option::Some(b), ..e },
            ),
        ),
        DirectiveV::SetColumnBloomFilterNdv(path, n) => (
            p,
            spec_set_col(
                cols,
                path_text(path),
                |e: ColumnWriterPropsV|
                    ColumnWriterPropsV {
                        bloom_filter_enabled: Option::Some(true),
                        bloom_filter_ndv: Option::Some(n),
                        ..e
                    },
            ),
        ),
        DirectiveV::SetColumnBloomFilterFpp(path, f) => (
            p,
            spec_set_col(
                cols,
                path_text(path),
                |e: ColumnWriterPropsV|
                    ColumnWriterPropsV {
                        bloom_filter_enabled: Option::Some(true),
                        bloom_filter_fpp: Option::Some(f),
                        ..e
                    },
            ),
        ),
    }
}

/// A whole prescription folded onto the configuration, in order.
pub open spec fn spec_apply(p: PhysicalProperties, cols: Seq<ColumnWriterPropsV>, ds: Seq<DirectiveV>, i: int) -> (
    PhysicalProperties,
    Seq<ColumnWriterPropsV>,
)
    decreases ds.len() - i,
{
    if i < 0 || i >= ds.len() {
        (p, cols)
    } else {
        let (p2, cols2) = spec_apply_one(p, cols, ds[i]);
        spec_apply(p2, cols2, ds, i + 1)
    }
}

/// The non-column fields of two configurations agree.
pub open spec fn file_fields_eq(a: PhysicalProperties, b: PhysicalProperties) -> bool {
    &&& a.writer_version == b.writer_version
    &&& a.created_by == b.created_by
    &&& a.key_value_metadata == b.key_value_metadata
    &&& a.sorting_columns == b.sorting_columns
    &&& a.max_row_group_size == b.max_row_group_size
    &&& a.compression == b.compression
    &&& a.data_page_size_limit == b.data_page_size_limit
    &&& a.statistics_truncate_length == b.statistics_truncate_length
}

impl PhysicalProperties {
    /// A configuration with nothing set.
    pub fn unset() -> (r: PhysicalProperties)
        ensures
            r.writer_version is None,
            r.created_by is None,
            r.key_value_metadata is None,
            r.sorting_columns is None,
            r.max_row_group_size is None,
            r.compression is None,
            r.data_page_size_limit is None,
            r.statistics_truncate_length is None,
            r.columns@.len() == 0,
    {
        PhysicalProperties {
            writer_version: None,
            created_by: None,
            key_value_metadata: None,
            sorting_columns: None,
            max_row_group_size: None,
            compression: None,
            data_page_size_limit: None,
            statistics_truncate_length: None,
            columns: Vec::new(),
        }
    }

    /// The first override entry for a dotted path, if any.
    pub fn find_column(&self, pt: &str) -> (r: Option<usize>)
        ensures
            match r {
                Option::Some(i) => i < self.columns@.len() && find_col(
                    self.columns.deep_view(),
                    pt@,
                    0,
                ) == i,
                Option::None => find_col(self.columns.deep_view(), pt@, 0) == -1,
            },
    {
        let ghost cols = self.columns.deep_view();
        let mut i: usize = 0;
        while i < self.columns.len()
            invariant
                0 <= i <= self.columns@.len(),
                cols == self.columns.deep_view(),
                cols.len() == self.columns@.len(),
                find_col(cols, pt@, 0) == find_col(cols, pt@, i as int),
            decreases self.columns@.len() - i,
        {
            proof {
                assert(cols[i as int] == self.columns@[i as int]@);
            }
            if crate::strutil::str_eq(self.columns[i].path_text.as_str(), pt) {
                proof {
                    assert(cols[i as int].path_text == pt@);
                }
                return Some(i);
            }
            proof {
                assert(cols[i as int].path_text != pt@);
            }
            i += 1;
        }
        None
    }
}

/// `spec_apply` reads and writes only the non-column fields of its
/// first argument.
proof fn lemma_apply_file_congr(
    p1: PhysicalProperties,
    p2: PhysicalProperties,
    cols: Seq<ColumnWriterPropsV>,
    ds: Seq<DirectiveV>,
    i: int,
)
    requires
        file_fields_eq(p1, p2),
    ensures
        file_fields_eq(spec_apply(p1, cols, ds, i).0, spec_apply(p2, cols, ds, i).0),
        spec_apply(p1, cols, ds, i).1 =~~= spec_apply(p2, cols, ds, i).1,
    decreases ds.len() - i,
{
    if 0 <= i < ds.len() {
        let (a1, c1) = spec_apply_one(p1, cols, ds[i]);
        let (a2, c2) = spec_apply_one(p2, cols, ds[i]);
        assert(file_fields_eq(a1, a2));
        assert(c1 =~~= c2);
        assert(c1 == c2);
        lemma_apply_file_congr(a1, a2, c1, ds, i + 1);
    }
}

impl PhysicalProperties {
    /// Applies one directive: sets the named file field, or the named
    /// field of the path's override entry, creating the entry if it is
    /// new.
    pub fn apply_directive(&mut self, d: &Directive)
        ensures
            ({
                let (p2, c2) = spec_apply_one(*old(self), old(self).columns.deep_view(), d@);
                file_fields_eq(*final(self), p2) && final(self).columns.deep_view() =~~= c2
            }),
    {
        let ghost old_cols = self.columns.deep_view();
        match d {
            Directive::SetFileCompression(c) => {
                self.compression = Some(codec_compression(*c));
                proof {
                    assert(self.columns.deep_view() =~~= old_cols);
                }
            },
            Directive::SetFileMaxRowGroupSize(n) => {
                self.max_row_group_size = Some(*n);
                proof {
                    assert(self.columns.deep_view() =~~= old_cols);
                }
            },
            Directive::SetFileDataPageSizeLimit(n) => {
                self.data_page_size_limit = Some(*n);
                proof {
                    assert(self.columns.deep_view() =~~= old_cols);
                }
            },
            Directive::SetFileStatisticsTruncateLength(v) => {
                self.statistics_truncate_length = Some(*v);
                proof {
                    assert(self.columns.deep_view() =~~= old_cols);
                }
            },
            Directive::SetColumnCompression(p, c) => {
                let pt = p.text();
                match self.find_column(pt.as_str()) {
                    Option::Some(i) => {
                        let mut e = self.columns.remove(i);
                        e.compression = Some(codec_compression(*c));
                        self.columns.insert(i, e);
                        proof {
                            assert(self.columns.deep_view() =~~= spec_apply_one(
                                *old(self),
                                old_cols,
                                d@,
                            ).1);
                        }
                    },
                    Option::None => {
                        let mut e = ColumnWriterProps::empty(pt);
                        e.compression = Some(codec_compression(*c));
                        self.columns.push(e);
                        proof {
                            assert(self.columns.deep_view() =~~= spec_apply_one(
                                *old(self),
                                old_cols,
                                d@,
                            ).1);
                        }
                    },
                }
            },
            Directive::SetColumnEncoding(p, enc) => {
                let pt = p.text();
                match self.find_column(pt.as_str()) {
                    Option::Some(i) => {
                        let mut e = self.columns.remove(i);
                        e.encoding = Some(data_encoding_kind(*enc));
                        self.columns.insert(i, e);
                        proof {
                            assert(self.columns.deep_view() =~~= spec_apply_one(
                                *old(self),
                                old_cols,
                                d@,
                            ).1);
                        }
                    },
                    Option::None => {
                        let mut e = ColumnWriterProps::empty(pt);
                        e.encoding = Some(data_encoding_kind(*enc));
                        self.columns.push(e);
                        proof {
                            assert(self.columns.deep_view() =~~= spec_apply_one(
                                *old(self),
                                old_cols,
                                d@,
                            ).1);
                        }
                    },
                }
            },
            Directive::SetColumnDictionary(p, b) => {
                let pt = p.text();
                match self.find_column(pt.as_str()) {
                    Option::Some(i) => {
                        let mut e = self.columns.remove(i);
                        e.dictionary_enabled = Some(*b);
                        self.columns.insert(i, e);
                        proof {
                            assert(self.columns.deep_view() =~~= spec_apply_one(
                                *old(self),
                                old_cols,
                                d@,
                            ).1);
                        }
                    },
                    Option::None => {
                        let mut e = ColumnWriterProps::empty(pt);
                        e.dictionary_enabled = Some(*b);
                        self.columns.push(e);
                        proof {
                            assert(self.columns.deep_view() =~~= spec_apply_one(
                                *old(self),
                                old_cols,
                                d@,
                            ).1);
                        }
                    },
                }
            },
            Directive::SetColumnDictionaryPageSizeLimit(p, n) => {
                let pt = p.text();
                match self.find_column(pt.as_str()) {
                    Option::Some(i) => {
                        let mut e = self.columns.remove(i);
                        e.dictionary_page_size_limit = Some(*n);
                        self.columns.insert(i, e);
                        proof {
                            assert(self.columns.deep_view() =~~= spec_apply_one(
                                *old(self),
                                old_cols,
                                d@,
                            ).1);
                        }
                    },
                    Option::None => {
                        let mut e = ColumnWriterProps::empty(pt);
                        e.dictionary_page_size_limit = Some(*n);
                        self.columns.push(e);
                        proof {
                            assert(self.columns.deep_view() =~~= spec_apply_one(
                                *old(self),
                                old_cols,
                                d@,
                            ).1);
                        }
                    },
                }
            },
            Directive::SetColumnStatistics(p, s) => {
                let pt = p.text();
                match self.find_column(pt.as_str()) {
                    Option::Some(i) => {
                        let mut e = self.columns.remove(i);
                        e.statistics = Some(*s);
                        self.columns.insert(i, e);
                        proof {
                            assert(self.columns.deep_view() =~~= spec_apply_one(
                                *old(self),
                                old_cols,
                                d@,
                            ).1);
                        }
                    },
                    Option::None => {
                        let mut e = ColumnWriterProps::empty(pt);
                        e.statistics = Some(*s);
                        self.columns.push(e);
                        proof {
                            assert(self.columns.deep_view() =~~= spec_apply_one(
                                *old(self),
                                old_cols,
                                d@,
                            ).1);
                        }
                    },
                }
            },
            Directive::SetColumnBloomFilter(p, b) => {
                let pt = p.text();
                match self.find_column(pt.as_str()) {
                    Option::Some(i) => {
                        let mut e = self.columns.remove(i);
                        e.bloom_filter_enabled = Some(*b);
                        self.columns.insert(i, e);
                        proof {
                            assert(self.columns.deep_view() =~~= spec_apply_one(
                                *old(self),
                                old_cols,
                                d@,
                            ).1);
                        }
                    },
                    Option::None => {
                        let mut e = ColumnWriterProps::empty(pt);
                        e.bloom_filter_enabled = Some(*b);
                        self.columns.push(e);
                        proof {
                            assert(self.columns.deep_view() =~~= spec_apply_one(
                                *old(self),
                                old_cols,
                                d@,
                            ).1);
                        }
                    },
                }
            },
            Directive::SetColumnBloomFilterNdv(p, n) => {
                let pt = p.text();
                match self.find_column(pt.as_str()) {
                    Option::Some(i) => {
                        let mut e = self.columns.remove(i);
                        e.bloom_filter_enabled = Some(true);
                        e.bloom_filter_ndv = Some(*n);
                        self.columns.insert(i, e);
                        proof {
                            assert(self.columns.deep_view() =~~= spec_apply_one(
                                *old(self),
                                old_cols,
                                d@,
                            ).1);
                        }
                    },
                    Option::None => {
                        let mut e = ColumnWriterProps::empty(pt);
                        e.bloom_filter_enabled = Some(true);
                        e.bloom_filter_ndv = Some(*n);
                        self.columns.push(e);
                        proof {
                            assert(self.columns.deep_view() =~~= spec_apply_one(
                                *old(self),
                                old_cols,
                                d@,
                            ).1);
                        }
                    },
                }
            },
            Directive::SetColumnBloomFilterFpp(p, f) => {
                let pt = p.text();
                match self.find_column(pt.as_str()) {
                    Option::Some(i) => {
                        let mut e = self.columns.remove(i);
                        e.bloom_filter_enabled = Some(true);
                        e.bloom_filter_fpp = Some(f.dup());
                        self.columns.insert(i, e);
                        proof {
                            assert(self.columns.deep_view() =~~= spec_apply_one(
                                *old(self),
                                old_cols,
                                d@,
                            ).1);
                        }
                    },
                    Option::None => {
                        let mut e = ColumnWriterProps::empty(pt);
                        e.bloom_filter_enabled = Some(true);
                        e.bloom_filter_fpp = Some(f.dup());
                        self.columns.push(e);
                        proof {
                            assert(self.columns.deep_view() =~~= spec_apply_one(
                                *old(self),
                                old_cols,
                                d@,
                            ).1);
                        }
                    },
                }
            },
        }
    }
}

impl Prescription {
    /// Folds the prescription onto a configuration, in order: later
    /// directives for the same key overwrite earlier ones.
    pub fn apply(&self, base: PhysicalProperties) -> (r: PhysicalProperties)
        ensures
            ({
                let (p2, c2) = spec_apply(base, base.columns.deep_view(), self@, 0);
                file_fields_eq(r, p2) && r.columns.deep_view() =~~= c2
            }),
    {
        let mut props = base;
        let ghost ds = self@;
        let ghost base0 = props;
        let ghost cols0 = props.columns.deep_view();
        let n = self.items.len();
        let mut i: usize = 0;
        while i < n
            invariant
                0 <= i <= n,
                n == self@.len(),
                ds == self@,
                self@.len() == self.items@.len(),
                ({
                    let full = spec_apply(base0, cols0, ds, 0);
                    let rest = spec_apply(props, props.columns.deep_view(), ds, i as int);
                    file_fields_eq(full.0, rest.0) && full.1 =~~= rest.1
                }),
            decreases n - i,
        {
            let ghost before = props;
            let ghost before_cols = props.columns.deep_view();
            proof {
                assert(self.items@[i as int]@ == ds[i as int]);
            }
            props.apply_directive(&self.items[i]);
            proof {
                let (sp, sc) = spec_apply_one(before, before_cols, ds[i as int]);
                lemma_apply_file_congr(sp, props, sc, ds, i + 1);
                assert(spec_apply(sp, sc, ds, i + 1).1 =~~= spec_apply(
                    props,
                    props.columns.deep_view(),
                    ds,
                    i + 1,
                ).1) by {
                    assert(sc =~~= props.columns.deep_view());
                    assert(sc == props.columns.deep_view());
                }
            }
            i += 1;
        }
        props
    }
}

/// Builds a writer configuration from a prescription alone, starting
/// from nothing set.
pub fn build_writer_properties(prescription: &Prescription) -> (r: PhysicalProperties)
    ensures
        ({
            // The fold never reads the base's column list (it is passed
            // separately), so any value completes the record; the
            // result's own list is at hand.
            let base = PhysicalProperties {
                writer_version: Option::None,
                created_by: Option::None,
                key_value_metadata: Option::None,
                sorting_columns: Option::None,
                max_row_group_size: Option::None,
                compression: Option::None,
                data_page_size_limit: Option::None,
                statistics_truncate_length: Option::None,
                columns: r.columns,
            };
            let (p2, c2) = spec_apply(base, Seq::empty(), prescription@, 0);
            file_fields_eq(r, p2) && r.columns.deep_view() =~~= c2
        }),
{
    let base = PhysicalProperties::unset();
    proof {
        assert(base.columns.deep_view() =~~= Seq::<ColumnWriterPropsV>::empty());
    }
    let r = prescription.apply(base);
    proof {
        let ghost_base = PhysicalProperties {
            writer_version: Option::None,
            created_by: Option::None,
            key_value_metadata: Option::None,
            sorting_columns: Option::None,
            max_row_group_size: Option::None,
            compression: Option::None,
            data_page_size_limit: Option::None,
            statistics_truncate_length: Option::None,
            columns: r.columns,
        };
        lemma_apply_file_congr(base, ghost_base, Seq::empty(), prescription@, 0);
        lemma_apply_cols_congr(
            base,
            base.columns.deep_view(),
            Seq::empty(),
            prescription@,
            0,
        );
    }
    r
}

/// `spec_apply` is determined by the view of its column list.
proof fn lemma_apply_cols_congr(
    p: PhysicalProperties,
    cols1: Seq<ColumnWriterPropsV>,
    cols2: Seq<ColumnWriterPropsV>,
    ds: Seq<DirectiveV>,
    i: int,
)
    requires
        cols1 =~~= cols2,
    ensures
        file_fields_eq(spec_apply(p, cols1, ds, i).0, spec_apply(p, cols2, ds, i).0),
        spec_apply(p, cols1, ds, i).1 =~~= spec_apply(p, cols2, ds, i).1,
{
    assert(cols1 == cols2);
}

/// How often `x` occurs in `s`.
pub open spec fn count_eq_comp(s: Seq<CompressionKind>, x: CompressionKind) -> int
    decreases s.len(),
{
    if s.len() == 0 {
        0
    } else {
        count_eq_comp(s.drop_last(), x) + if s.last() == x {
            1int
        } else {
            0int
        }
    }
}

/// An element of maximal multiplicity, if the sequence is non-empty.
/// Which element wins among ties is not specified.
pub fn most_frequent(values: &Vec<CompressionKind>) -> (r: Option<CompressionKind>)
    ensures
        r is Some <==> values@.len() > 0,
        r matches Option::Some(v) ==> values@.contains(v) && forall|x: CompressionKind|
            #[trigger] count_eq_comp(values@, x) <= count_eq_comp(values@, v),
{
    let n = values.len();
    if n == 0 {
        return None;
    }
    let mut best: CompressionKind = values[0];
    let mut best_count: usize = 0;
    let mut i: usize = 0;
    while i < n
        invariant
            0 <= i <= n,
            n == values@.len(),
            n > 0,
            i > 0 ==> values@.contains(best) && best_count == count_eq_comp(values@, best)
                && forall|j: int| 0 <= j < i ==> count_eq_comp(values@, #[trigger] values@[j])
                <= best_count,
            i == 0 ==> best == values@[0] && best_count == 0,
        decreases n - i,
    {
        let cand = values[i];
        let mut cnt: usize = 0;
        let mut k: usize = 0;
        while k < n
            invariant
                0 <= k <= n,
                n == values@.len(),
                cnt == count_eq_comp(values@.take(k as int), cand),
                cnt <= k,
            decreases n - k,
        {
            proof {
                assert(values@.take(k + 1 as int).drop_last() =~= values@.take(k as int));
                assert(values@.take(k + 1 as int).last() == values@[k as int]);
            }
            if values[k] == cand {
                cnt += 1;
            }
            k += 1;
        }
        proof {
            assert(values@.take(n as int) =~= values@);
        }
        if i == 0 || cnt > best_count {
            best = cand;
            best_count = cnt;
            proof {
                assert(values@.contains(cand)) by {
                    assert(values@[i as int] == cand);
                }
            }
        }
        i += 1;
    }
    proof {
        assert forall|x: CompressionKind| #[trigger] count_eq_comp(values@, x) <= count_eq_comp(
            values@,
            best,
        ) by {
            if count_eq_comp(values@, x) > 0 {
                lemma_count_pos_contains(values@, x);
                let j = choose|j: int| 0 <= j < values@.len() && values@[j] == x;
                assert(count_eq_comp(values@, values@[j]) <= count_eq_comp(values@, best));
            }
        }
    }
    Some(best)
}

/// A positive count means the element occurs.
proof fn lemma_count_pos_contains(s: Seq<CompressionKind>, x: CompressionKind)
    requires
        count_eq_comp(s, x) > 0,
    ensures
        exists|j: int| 0 <= j < s.len() && s[j] == x,
    decreases s.len(),
{
    if s.len() > 0 {
        if s.last() == x {
            assert(s[s.len() - 1] == x);
        } else {
            lemma_count_pos_contains(s.drop_last(), x);
            let j = choose|j: int| 0 <= j < s.drop_last().len() && s.drop_last()[j] == x;
            assert(s[j] == x);
        }
    }
}

/// The writer version the metadata declares, where it is a known one.
pub fn infer_writer_version(version: i32) -> (r: Option<i32>)
    ensures
        version == 1 ==> r == Option::<i32>::Some(1i32),
        version == 2 ==> r == Option::<i32>::Some(2i32),
        version != 1 && version != 2 ==> r is None,
{
    if version == 1 {
        Some(1)
    } else if version == 2 {
        Some(2)
    } else {
        None
    }
}

/// The largest positive row count among row groups, if any.
pub fn infer_max_row_group_size(meta: &FileMeta) -> (r: Option<usize>)
    ensures
        r is None <==> (forall|g: int|
            0 <= g < meta.row_groups@.len() ==> (#[trigger] meta.row_groups@[g]).num_rows <= 0),
        r matches Option::Some(m) ==> m >= 1 && exists|g: int|
            0 <= g < meta.row_groups@.len() && (#[trigger] meta.row_groups@[g]).num_rows > 0,
{
    let n = meta.row_groups.len();
    let mut best: usize = 0;
    let mut found = false;
    let mut g: usize = 0;
    while g < n
        invariant
            0 <= g <= n,
            n == meta.row_groups@.len(),
            found == exists|k: int|
                0 <= k < g && (#[trigger] meta.row_groups@[k]).num_rows > 0,
            found ==> best >= 1,
        decreases n - g,
    {
        let nr = meta.row_groups[g].num_rows;
        if nr > 0 {
            let nru: usize = if nr as u64 > usize::MAX as u64 {
                usize::MAX
            } else {
                nr as usize
            };
            if nru > best {
                best = nru;
            }
            proof {
                assert(meta.row_groups@[g as int].num_rows > 0);
            }
            found = true;
        }
        g += 1;
    }
    if found {
        Some(best)
    } else {
        None
    }
}

/// Copies a sorting declaration.
fn copy_sorting(v: &Vec<SortingColumnModel>) -> (r: Vec<SortingColumnModel>)
    ensures
        r@ =~= v@,
{
    let mut r: Vec<SortingColumnModel> = Vec::new();
    let mut i: usize = 0;
    while i < v.len()
        invariant
            0 <= i <= v@.len(),
            r@ =~= v@.take(i as int),
        decreases v@.len() - i,
    {
        r.push(v[i]);
        proof {
            assert(r@ =~= v@.take(i + 1 as int));
        }
        i += 1;
    }
    proof {
        assert(v@.take(v@.len() as int) =~= v@);
    }
    r
}

/// Whether two sorting declarations agree.
fn sorting_eq(a: &Vec<SortingColumnModel>, b: &Vec<SortingColumnModel>) -> (r: bool)
    ensures
        r == (a@ == b@),
{
    if a.len() != b.len() {
        proof {
            assert(a@ != b@);
        }
        return false;
    }
    let mut i: usize = 0;
    while i < a.len()
        invariant
            0 <= i <= a@.len(),
            a@.len() == b@.len(),
            forall|k: int| 0 <= k < i ==> a@[k] == b@[k],
        decreases a@.len() - i,
    {
        if !(a[i] == b[i]) {
            return false;
        }
        i += 1;
    }
    proof {
        assert(a@ =~= b@);
    }
    true
}

/// Whether every row group declares the same sorting as the first.
pub open spec fn spec_common_sorting(meta: FileMeta) -> bool {
    &&& meta.row_groups@.len() > 0
    &&& meta.row_groups@[0].sorting_columns is Some
    &&& forall|g: int|
        0 <= g < meta.row_groups@.len() ==> ((#[trigger] meta.row_groups@[g]).sorting_columns
            matches Option::Some(sc) && sc@ == meta.row_groups@[0].sorting_columns->Some_0@)
}

/// The sorting declaration every row group shares: present exactly
/// when all row groups declare one and they agree.
pub fn infer_sorting_columns(meta: &FileMeta) -> (r: Option<Vec<SortingColumnModel>>)
    ensures
        r is Some <==> spec_common_sorting(*meta),
        r matches Option::Some(v) ==> meta.row_groups@.len() > 0 && forall|g: int|
            0 <= g < meta.row_groups@.len() ==> ((#[trigger] meta.row_groups@[g]).sorting_columns
                matches Option::Some(sc) && sc@ == v@),
{
    let n = meta.row_groups.len();
    if n == 0 {
        return None;
    }
    let first = match &meta.row_groups[0].sorting_columns {
        Option::Some(sc) => copy_sorting(sc),
        Option::None => {
            proof {
                assert(!spec_common_sorting(*meta));
            }
            return None;
        },
    };
    let mut g: usize = 1;
    while g < n
        invariant
            1 <= g <= n,
            n == meta.row_groups@.len(),
            forall|k: int|
                0 <= k < g ==> ((#[trigger] meta.row_groups@[k]).sorting_columns matches Option::Some(
                    sc,
                ) && sc@ == first@),
        decreases n - g,
    {
        match &meta.row_groups[g].sorting_columns {
            Option::Some(sc) => {
                if !sorting_eq(sc, &first) {
                    proof {
                        assert(!(meta.row_groups@[g as int].sorting_columns matches Option::Some(
                            sc2,
                        ) && sc2@ == meta.row_groups@[0].sorting_columns->Some_0@));
                        assert(!spec_common_sorting(*meta));
                    }
                    return None;
                }
            },
            Option::None => {
                proof {
                    assert(!spec_common_sorting(*meta));
                }
                return None;
            },
        }
        g += 1;
    }
    proof {
        assert(spec_common_sorting(*meta));
    }
    Some(first)
}

/// Whether any row group's chunk of this column shows dictionary use:
/// a dictionary page, or a dictionary-index encoding.
pub fn infer_column_dictionary_enabled(meta: &FileMeta, col: usize) -> (r: Option<bool>)
    requires
        meta.wf(),
        col < meta.columns@.len(),
    ensures
        r is None <==> meta.row_groups@.len() == 0,
        r matches Option::Some(b) ==> b == exists|g: int|
            0 <= g < meta.row_groups@.len() && ((#[trigger] meta.row_groups@[g]).columns@[
                col as int
            ].has_dictionary_page || crate::meta::spec_has_encoding(
                meta.row_groups@[g].columns@[col as int],
                |e: EncodingKind| crate::meta::spec_is_dictionary_encoding(e),
            )),
{
    let n = meta.row_groups.len();
    if n == 0 {
        return None;
    }
    let mut g: usize = 0;
    while g < n
        invariant
            0 <= g <= n,
            n == meta.row_groups@.len(),
            meta.wf(),
            col < meta.columns@.len(),
            forall|k: int|
                0 <= k < g ==> !((#[trigger] meta.row_groups@[k]).columns@[col as int].has_dictionary_page
                    || crate::meta::spec_has_encoding(
                    meta.row_groups@[k].columns@[col as int],
                    |e: EncodingKind| crate::meta::spec_is_dictionary_encoding(e),
                )),
        decreases n - g,
    {
        let c = &meta.row_groups[g].columns[col];
        if c.has_dictionary_page || crate::meta::has_dictionary_encoding(c) {
            return Some(true);
        }
        g += 1;
    }
    Some(false)
}

/// Whether any chunk of the column carries a page-level column index.
pub open spec fn spec_any_column_index(meta: FileMeta, col: int) -> bool {
    exists|g: int|
        0 <= g < meta.row_groups@.len() && (#[trigger] meta.row_groups@[g]).columns@[col].has_column_index
}

/// Whether any chunk of the column carries chunk statistics.
pub open spec fn spec_any_chunk_stats(meta: FileMeta, col: int) -> bool {
    exists|g: int|
        0 <= g < meta.row_groups@.len() && (#[trigger] meta.row_groups@[g]).columns@[col].statistics
            is Some
}

/// The statistics level the file shows for a column: page level when
/// any chunk carries a column index, chunk level when any chunk has
/// statistics, disabled otherwise; nothing without row groups.
pub fn infer_column_statistics_enabled(meta: &FileMeta, col: usize) -> (r: Option<
    StatisticsConfig,
>)
    requires
        meta.wf(),
        col < meta.columns@.len(),
    ensures
        r is None <==> meta.row_groups@.len() == 0,
        meta.row_groups@.len() > 0 ==> r == Option::Some(
            if spec_any_column_index(*meta, col as int) {
                StatisticsConfig::Page
            } else if spec_any_chunk_stats(*meta, col as int) {
                StatisticsConfig::Chunk
            } else {
                StatisticsConfig::Disabled
            },
        ),
{
    let n = meta.row_groups.len();
    if n == 0 {
        return None;
    }
    let mut has_page = false;
    let mut has_chunk = false;
    let mut g: usize = 0;
    while g < n
        invariant
            0 <= g <= n,
            n == meta.row_groups@.len(),
            meta.wf(),
            col < meta.columns@.len(),
            has_page == exists|k: int|
                0 <= k < g && (#[trigger] meta.row_groups@[k]).columns@[col as int].has_column_index,
            has_chunk == exists|k: int|
                0 <= k < g && (#[trigger] meta.row_groups@[k]).columns@[col as int].statistics
                    is Some,
        decreases n - g,
    {
        let c = &meta.row_groups[g].columns[col];
        if c.has_column_index {
            proof {
                assert(meta.row_groups@[g as int].columns@[col as int].has_column_index);
            }
            has_page = true;
        }
        if c.statistics.is_some() {
            proof {
                assert(meta.row_groups@[g as int].columns@[col as int].statistics is Some);
            }
            has_chunk = true;
        }
        g += 1;
    }
    if has_page {
        Some(StatisticsConfig::Page)
    } else if has_chunk {
        Some(StatisticsConfig::Chunk)
    } else {
        Some(StatisticsConfig::Disabled)
    }
}

/// Whether any row group stores a bloom filter for this column.
pub fn infer_column_bloom_filter_enabled(meta: &FileMeta, col: usize) -> (r: Option<bool>)
    requires
        meta.wf(),
        col < meta.columns@.len(),
    ensures
        r is None <==> meta.row_groups@.len() == 0,
        r matches Option::Some(b) ==> b == exists|g: int|
            0 <= g < meta.row_groups@.len() && (#[trigger] meta.row_groups@[g]).columns@[
                col as int
            ].has_bloom_filter,
{
    let n = meta.row_groups.len();
    if n == 0 {
        return None;
    }
    let mut g: usize = 0;
    while g < n
        invariant
            0 <= g <= n,
            n == meta.row_groups@.len(),
            meta.wf(),
            col < meta.columns@.len(),
            forall|k: int|
                0 <= k < g ==> !(#[trigger] meta.row_groups@[k]).columns@[col as int].has_bloom_filter,
        decreases n - g,
    {
        if meta.row_groups[g].columns[col].has_bloom_filter {
            return Some(true);
        }
        g += 1;
    }
    Some(false)
}

/// The compressions of a column's chunks, in row-group order.
pub open spec fn spec_col_compressions(meta: FileMeta, col: int) -> Seq<CompressionKind> {
    Seq::new(meta.row_groups@.len(), |g: int| meta.row_groups@[g].columns@[col].compression)
}

/// The most frequent compression among the column's chunks: present
/// exactly when row groups exist, an occurring value of maximal
/// multiplicity.
pub fn infer_column_compression(meta: &FileMeta, col: usize) -> (r: Option<CompressionKind>)
    requires
        meta.wf(),
        col < meta.columns@.len(),
    ensures
        r is Some <==> meta.row_groups@.len() > 0,
        r matches Option::Some(v) ==> spec_col_compressions(*meta, col as int).contains(v)
            && forall|x: CompressionKind|
            #[trigger] count_eq_comp(spec_col_compressions(*meta, col as int), x) <= count_eq_comp(
                spec_col_compressions(*meta, col as int),
                v,
            ),
{
    let n = meta.row_groups.len();
    let mut values: Vec<CompressionKind> = Vec::new();
    let mut g: usize = 0;
    while g < n
        invariant
            0 <= g <= n,
            n == meta.row_groups@.len(),
            meta.wf(),
            col < meta.columns@.len(),
            values@.len() == g,
            forall|k: int|
                0 <= k < g ==> #[trigger] values@[k] == meta.row_groups@[k].columns@[
                    col as int
                ].compression,
        decreases n - g,
    {
        values.push(meta.row_groups[g].columns[col].compression);
        g += 1;
    }
    proof {
        assert(values@ =~= spec_col_compressions(*meta, col as int));
    }
    most_frequent(&values)
}

/// How often `x` occurs in an encoding sequence.
pub open spec fn count_eq_enc(s: Seq<EncodingKind>, x: EncodingKind) -> int
    decreases s.len(),
{
    if s.len() == 0 {
        0
    } else {
        count_eq_enc(s.drop_last(), x) + if s.last() == x {
            1int
        } else {
            0int
        }
    }
}

/// A positive count means the encoding occurs.
proof fn lemma_count_enc_pos(s: Seq<EncodingKind>, x: EncodingKind)
    requires
        count_eq_enc(s, x) > 0,
    ensures
        s.contains(x),
    decreases s.len(),
{
    if s.len() > 0 {
        if s.last() == x {
            assert(s[s.len() - 1] == x);
        } else {
            lemma_count_enc_pos(s.drop_last(), x);
            let j = choose|j: int| 0 <= j < s.drop_last().len() && s.drop_last()[j] == x;
            assert(s[j] == x);
        }
    }
}

/// The non-structural encodings of one chunk's list, from position
/// `i` on.
pub open spec fn spec_filtered_encs(list: Seq<EncodingKind>, i: int) -> Seq<EncodingKind>
    decreases list.len() - i,
{
    if i < 0 || i >= list.len() {
        Seq::empty()
    } else {
        (if !crate::meta::spec_is_level_encoding(list[i])
            && !crate::meta::spec_is_dictionary_encoding(list[i]) {
            seq![list[i]]
        } else {
            Seq::empty()
        }) + spec_filtered_encs(list, i + 1)
    }
}

/// The non-structural encodings of a column's first `upto` chunks, in
/// order.
pub open spec fn spec_col_encodings(meta: FileMeta, col: int, upto: int) -> Seq<EncodingKind>
    decreases upto,
{
    if upto <= 0 {
        Seq::empty()
    } else {
        spec_col_encodings(meta, col, upto - 1) + spec_filtered_encs(
            meta.row_groups@[upto - 1].columns@[col].encodings@,
            0,
        )
    }
}

/// Every filtered encoding is non-structural.
proof fn lemma_filtered_encs_ok(list: Seq<EncodingKind>, i: int)
    ensures
        forall|k: int|
            0 <= k < spec_filtered_encs(list, i).len() ==> !crate::meta::spec_is_level_encoding(
                #[trigger] spec_filtered_encs(list, i)[k],
            ) && !crate::meta::spec_is_dictionary_encoding(spec_filtered_encs(list, i)[k]),
    decreases list.len() - i,
{
    if 0 <= i < list.len() {
        lemma_filtered_encs_ok(list, i + 1);
        let s = spec_filtered_encs(list, i);
        let tail = spec_filtered_encs(list, i + 1);
        let keep = !crate::meta::spec_is_level_encoding(list[i])
            && !crate::meta::spec_is_dictionary_encoding(list[i]);
        assert forall|k: int| 0 <= k < s.len() implies !crate::meta::spec_is_level_encoding(
            #[trigger] s[k],
        ) && !crate::meta::spec_is_dictionary_encoding(s[k]) by {
            if keep {
                if k == 0 {
                    assert(s[0] == list[i]);
                } else {
                    assert(s[k] == tail[k - 1]);
                }
            } else {
                assert(s[k] == tail[k]);
            }
        }
    }
}

/// The most frequent data encoding among the column's chunks after
/// leaving out level and dictionary-index encodings: present exactly
/// when something remains, an occurring value of maximal multiplicity
/// (so a structural encoding never becomes the inferred base).
pub fn infer_column_encoding(meta: &FileMeta, col: usize) -> (r: Option<EncodingKind>)
    requires
        meta.wf(),
        col < meta.columns@.len(),
    ensures
        r is Some <==> spec_col_encodings(*meta, col as int, meta.row_groups@.len() as int).len()
            > 0,
        r matches Option::Some(e) ==> spec_col_encodings(
            *meta,
            col as int,
            meta.row_groups@.len() as int,
        ).contains(e) && !crate::meta::spec_is_level_encoding(e)
            && !crate::meta::spec_is_dictionary_encoding(e) && forall|x: EncodingKind|
            #[trigger] count_eq_enc(
                spec_col_encodings(*meta, col as int, meta.row_groups@.len() as int),
                x,
            ) <= count_eq_enc(
                spec_col_encodings(*meta, col as int, meta.row_groups@.len() as int),
                e,
            ),
{
    let n = meta.row_groups.len();
    let mut values: Vec<EncodingKind> = Vec::new();
    let mut g: usize = 0;
    while g < n
        invariant
            0 <= g <= n,
            n == meta.row_groups@.len(),
            meta.wf(),
            col < meta.columns@.len(),
            values@ =~= spec_col_encodings(*meta, col as int, g as int),
        decreases n - g,
    {
        let list = &meta.row_groups[g].columns[col].encodings;
        let m = list.len();
        let mut k: usize = 0;
        while k < m
            invariant
                0 <= k <= m,
                g < n,
                n == meta.row_groups@.len(),
                meta.wf(),
                col < meta.columns@.len(),
                m == meta.row_groups@[g as int].columns@[col as int].encodings@.len(),
                spec_col_encodings(*meta, col as int, g + 1 as int) =~= values@
                    + spec_filtered_encs(
                    meta.row_groups@[g as int].columns@[col as int].encodings@,
                    k as int,
                ),
            decreases m - k,
        {
            let e = meta.row_groups[g].columns[col].encodings[k];
            let ghost listv = meta.row_groups@[g as int].columns@[col as int].encodings@;
            let ghost old_vals = values@;
            if !crate::meta::is_level_encoding(e) && !crate::meta::is_dictionary_encoding(e) {
                values.push(e);
            }
            proof {
                assert(spec_filtered_encs(listv, k as int) =~= (if
                    !crate::meta::spec_is_level_encoding(listv[k as int])
                    && !crate::meta::spec_is_dictionary_encoding(listv[k as int]) {
                    seq![listv[k as int]]
                } else {
                    Seq::<EncodingKind>::empty()
                }) + spec_filtered_encs(listv, k + 1 as int));
                assert(spec_col_encodings(*meta, col as int, g + 1 as int) =~= values@
                    + spec_filtered_encs(listv, k + 1 as int));
            }
            k += 1;
        }
        proof {
            assert(spec_filtered_encs(
                meta.row_groups@[g as int].columns@[col as int].encodings@,
                m as int,
            ) =~= Seq::<EncodingKind>::empty());
            assert(values@ =~= spec_col_encodings(*meta, col as int, g + 1 as int));
        }
        g += 1;
    }
    let ghost gathered = spec_col_encodings(*meta, col as int, n as int);
    proof {
        assert(values@ =~= gathered);
        lemma_filtered_encs_ok(Seq::<EncodingKind>::empty(), 0);
    }
    let vn = values.len();
    if vn == 0 {
        return None;
    }
    let mut best: EncodingKind = values[0];
    let mut best_count: usize = 0;
    let mut i: usize = 0;
    while i < vn
        invariant
            0 <= i <= vn,
            vn == values@.len(),
            vn > 0,
            values@ == gathered,
            i > 0 ==> values@.contains(best) && best_count == count_eq_enc(values@, best)
                && forall|j: int| 0 <= j < i ==> count_eq_enc(values@, #[trigger] values@[j])
                <= best_count,
            i == 0 ==> best == values@[0] && best_count == 0,
        decreases vn - i,
    {
        let cand = values[i];
        let mut cnt: usize = 0;
        let mut k: usize = 0;
        while k < vn
            invariant
                0 <= k <= vn,
                vn == values@.len(),
                cnt == count_eq_enc(values@.take(k as int), cand),
                cnt <= k,
            decreases vn - k,
        {
            proof {
                assert(values@.take(k + 1 as int).drop_last() =~= values@.take(k as int));
                assert(values@.take(k + 1 as int).last() == values@[k as int]);
            }
            if values[k] == cand {
                cnt += 1;
            }
            k += 1;
        }
        proof {
            assert(values@.take(vn as int) =~= values@);
        }
        if i == 0 || cnt > best_count {
            best = cand;
            best_count = cnt;
            proof {
                assert(values@[i as int] == cand);
                assert(values@.contains(cand));
            }
        }
        i += 1;
    }
    proof {
        assert forall|x: EncodingKind| #[trigger] count_eq_enc(gathered, x) <= count_eq_enc(
            gathered,
            best,
        ) by {
            if count_eq_enc(gathered, x) > 0 {
                lemma_count_enc_pos(gathered, x);
                let j = choose|j: int| 0 <= j < gathered.len() && gathered[j] == x;
                assert(count_eq_enc(values@, values@[j]) <= best_count);
            }
        }
        lemma_col_encodings_ok(*meta, col as int, n as int);
        let j0 = choose|j0: int| 0 <= j0 < gathered.len() && gathered[j0] == best;
        assert(!crate::meta::spec_is_level_encoding(best)
            && !crate::meta::spec_is_dictionary_encoding(best));
    }
    Some(best)
}

/// Every gathered encoding is non-structural.
proof fn lemma_col_encodings_ok(meta: FileMeta, col: int, upto: int)
    ensures
        forall|k: int|
            0 <= k < spec_col_encodings(meta, col, upto).len()
                ==> !crate::meta::spec_is_level_encoding(
                #[trigger] spec_col_encodings(meta, col, upto)[k],
            ) && !crate::meta::spec_is_dictionary_encoding(spec_col_encodings(meta, col, upto)[k]),
    decreases upto,
{
    if upto > 0 {
        lemma_col_encodings_ok(meta, col, upto - 1);
        lemma_filtered_encs_ok(meta.row_groups@[upto - 1].columns@[col].encodings@, 0);
        let s = spec_col_encodings(meta, col, upto);
        let a = spec_col_encodings(meta, col, upto - 1);
        let b = spec_filtered_encs(meta.row_groups@[upto - 1].columns@[col].encodings@, 0);
        assert forall|k: int| 0 <= k < s.len() implies !crate::meta::spec_is_level_encoding(
            #[trigger] s[k],
        ) && !crate::meta::spec_is_dictionary_encoding(s[k]) by {
            if k < a.len() {
                assert(s[k] == a[k]);
            } else {
                assert(s[k] == b[k - a.len()]);
            }
        }
    }
}

/// Copies the file's key/value metadata./// Copies the file's key/value metadata.
fn copy_key_values(v: &Vec<KeyValueModel>) -> (r: Vec<KeyValueModel>)
    ensures
        r@.len() == v@.len(),
        forall|i: int|
            0 <= i < v@.len() ==> (#[trigger] r@[i]).key@ == v@[i].key@ && match (
                r@[i].value,
                v@[i].value,
            ) {
                (Option::Some(a), Option::Some(b)) => a@ == b@,
                (Option::None, Option::None) => true,
                _ => false,
            },
{
    let mut r: Vec<KeyValueModel> = Vec::new();
    let mut i: usize = 0;
    while i < v.len()
        invariant
            0 <= i <= v@.len(),
            r@.len() == i,
            forall|k: int|
                0 <= k < i ==> (#[trigger] r@[k]).key@ == v@[k].key@ && match (
                    r@[k].value,
                    v@[k].value,
                ) {
                    (Option::Some(a), Option::Some(b)) => a@ == b@,
                    (Option::None, Option::None) => true,
                    _ => false,
                },
        decreases v@.len() - i,
    {
        let kv = &v[i];
        let value = match &kv.value {
            Option::Some(s) => Some(s.clone()),
            Option::None => None,
        };
        r.push(KeyValueModel { key: kv.key.clone(), value });
        i += 1;
    }
    r
}

/// What base inference guarantees for one column's override entry:
/// the dotted path, the majority compression, the majority
/// non-structural encoding, and the presence flags for dictionaries,
/// statistics and bloom filters; nothing else is set.
pub open spec fn spec_inferred_col(meta: FileMeta, c: int, e: ColumnWriterPropsV) -> bool {
    let nrgs = meta.row_groups@.len();
    &&& e.path_text == path_text(meta.columns@[c].path@)
    &&& (e.compression is Some <==> nrgs > 0)
    &&& (e.compression matches Option::Some(v) ==> spec_col_compressions(meta, c).contains(v)
        && forall|x: CompressionKind|
        #[trigger] count_eq_comp(spec_col_compressions(meta, c), x) <= count_eq_comp(
            spec_col_compressions(meta, c),
            v,
        ))
    &&& (e.encoding is Some <==> spec_col_encodings(meta, c, nrgs as int).len() > 0)
    &&& (e.encoding matches Option::Some(v) ==> spec_col_encodings(meta, c, nrgs as int).contains(
        v,
    ) && !crate::meta::spec_is_level_encoding(v) && !crate::meta::spec_is_dictionary_encoding(v)
        && forall|x: EncodingKind|
        #[trigger] count_eq_enc(spec_col_encodings(meta, c, nrgs as int), x) <= count_eq_enc(
            spec_col_encodings(meta, c, nrgs as int),
            v,
        ))
    &&& (e.dictionary_enabled is Some <==> nrgs > 0)
    &&& (e.dictionary_enabled matches Option::Some(b) ==> b == exists|g: int|
        0 <= g < nrgs && ((#[trigger] meta.row_groups@[g]).columns@[c].has_dictionary_page
            || crate::meta::spec_has_encoding(
            meta.row_groups@[g].columns@[c],
            |enc: EncodingKind| crate::meta::spec_is_dictionary_encoding(enc),
        )))
    &&& (e.statistics is Some <==> nrgs > 0)
    &&& (nrgs > 0 ==> e.statistics == Option::Some(
        if spec_any_column_index(meta, c) {
            StatisticsConfig::Page
        } else if spec_any_chunk_stats(meta, c) {
            StatisticsConfig::Chunk
        } else {
            StatisticsConfig::Disabled
        },
    ))
    &&& (e.bloom_filter_enabled is Some <==> nrgs > 0)
    &&& (e.bloom_filter_enabled matches Option::Some(b) ==> b == exists|g: int|
        0 <= g < nrgs && (#[trigger] meta.row_groups@[g]).columns@[c].has_bloom_filter)
    &&& e.dictionary_page_size_limit is None
    &&& e.statistics is Some || nrgs == 0
    &&& e.bloom_filter_ndv is None
    &&& e.bloom_filter_fpp is None
}

/// What base inference guarantees for the whole configuration.
pub open spec fn spec_inferred_base(meta: FileMeta, base: PhysicalProperties) -> bool {
    &&& (meta.version == 1 ==> base.writer_version == Option::<i32>::Some(1i32))
    &&& (meta.version == 2 ==> base.writer_version == Option::<i32>::Some(2i32))
    &&& (meta.version != 1 && meta.version != 2 ==> base.writer_version is None)
    &&& (match (base.created_by, meta.created_by) {
        (Option::Some(a), Option::Some(b)) => a@ == b@,
        (Option::None, Option::None) => true,
        _ => false,
    })
    &&& (base.key_value_metadata is Some <==> meta.key_value_metadata is Some)
    &&& (base.sorting_columns is Some <==> spec_common_sorting(meta))
    &&& (base.sorting_columns matches Option::Some(v) ==> forall|g: int|
        0 <= g < meta.row_groups@.len() ==> ((#[trigger] meta.row_groups@[g]).sorting_columns
            matches Option::Some(sc) && sc@ == v@))
    &&& (base.max_row_group_size is None <==> forall|g: int|
        0 <= g < meta.row_groups@.len() ==> (#[trigger] meta.row_groups@[g]).num_rows <= 0)
    &&& base.compression is None
    &&& base.data_page_size_limit is None
    &&& base.statistics_truncate_length is None
    &&& base.columns@.len() == meta.columns@.len()
    &&& forall|c: int|
        0 <= c < meta.columns@.len() ==> spec_inferred_col(meta, c, (#[trigger] base.columns@[c])@)
}

/// Infers the writer configuration the source file was written with:
/// its version, creator, key/value metadata, a sorting declaration
/// shared by all row groups, the largest row-group size, and per
/// column the majority compression and encoding and the presence of
/// dictionaries, statistics and bloom filters.
pub fn infer_writer_properties(meta: &FileMeta) -> (r: PhysicalProperties)
    requires
        meta.wf(),
    ensures
        spec_inferred_base(*meta, r),
{
    let mut props = PhysicalProperties::unset();
    props.writer_version = infer_writer_version(meta.version);
    props.created_by = match &meta.created_by {
        Option::Some(s) => Some(s.clone()),
        Option::None => None,
    };
    props.key_value_metadata = match &meta.key_value_metadata {
        Option::Some(kv) => Some(copy_key_values(kv)),
        Option::None => None,
    };
    props.sorting_columns = infer_sorting_columns(meta);
    props.max_row_group_size = infer_max_row_group_size(meta);
    let ncols = meta.columns.len();
    let mut columns: Vec<ColumnWriterProps> = Vec::new();
    let mut c: usize = 0;
    while c < ncols
        invariant
            0 <= c <= ncols,
            ncols == meta.columns@.len(),
            meta.wf(),
            columns@.len() == c,
            forall|k: int|
                0 <= k < c ==> spec_inferred_col(*meta, k, (#[trigger] columns@[k])@),
        decreases ncols - c,
    {
        let pt = meta.columns[c].path.text();
        let mut entry = ColumnWriterProps::empty(pt);
        entry.compression = infer_column_compression(meta, c);
        entry.encoding = infer_column_encoding(meta, c);
        entry.dictionary_enabled = infer_column_dictionary_enabled(meta, c);
        entry.statistics = infer_column_statistics_enabled(meta, c);
        entry.bloom_filter_enabled = infer_column_bloom_filter_enabled(meta, c);
        proof {
            assert(spec_inferred_col(*meta, c as int, entry@));
        }
        columns.push(entry);
        c += 1;
    }
    props.columns = columns;
    props
}

/// The configuration a rewrite will use: the prescription folded onto
/// the inferred base, later directives winning.
pub fn rewrite_properties(meta: &FileMeta, prescription: &Prescription) -> (r: PhysicalProperties)
    requires
        meta.wf(),
    ensures
        exists|base: PhysicalProperties|
            #[trigger] spec_inferred_base(*meta, base) && file_fields_eq(
                r,
                spec_apply(base, base.columns.deep_view(), prescription@, 0).0,
            ) && r.columns.deep_view() =~~= spec_apply(
                base,
                base.columns.deep_view(),
                prescription@,
                0,
            ).1,
{
    let base = infer_writer_properties(meta);
    let ghost base0 = base;
    let r = prescription.apply(base);
    proof {
        assert(spec_inferred_base(*meta, base0) && file_fields_eq(
            r,
            spec_apply(base0, base0.columns.deep_view(), prescription@, 0).0,
        ) && r.columns.deep_view() =~~= spec_apply(
            base0,
            base0.columns.deep_view(),
            prescription@,
            0,
        ).1);
    }
    r
}

/// Parses prescription text, reports a conflict if directives clash,
/// and otherwise folds the directives onto an unset configuration.
/// This is the one-call path for applying a prescription at initial
/// write time rather than through a rewrite.  A parse error comes
/// exactly from unparseable text; a conflict exactly from two parsed
/// directives with one key and different values; success yields the
/// directives folded onto nothing-set, later directives winning.
pub fn apply_prescription(text: &str) -> (r: Result<
    PhysicalProperties,
    crate::prescription::PrescriptionError,
>)
    ensures
        r matches Ok(p) ==> (crate::prescription::spec_parse_text(text@)
            matches crate::prescription::ParseOutcome::Parsed(ds)
            && crate::prescription::find_conflict(ds, 0) == -1 && {
            let base = PhysicalProperties {
                writer_version: Option::None,
                created_by: Option::None,
                key_value_metadata: Option::None,
                sorting_columns: Option::None,
                max_row_group_size: Option::None,
                compression: Option::None,
                data_page_size_limit: Option::None,
                statistics_truncate_length: Option::None,
                columns: p.columns,
            };
            let (p2, c2) = spec_apply(base, Seq::empty(), ds, 0);
            file_fields_eq(p, p2) && p.columns.deep_view() =~~= c2
        }),
        r matches Err(e) ==> match e {
            crate::prescription::PrescriptionError::Parse(_) => crate::prescription::spec_parse_text(
                text@,
            ) is BadLine,
            crate::prescription::PrescriptionError::Conflict(_) => (
            crate::prescription::spec_parse_text(text@)
                matches crate::prescription::ParseOutcome::Parsed(ds)
                && crate::prescription::find_conflict(ds, 0) != -1),
        },
{
    let prescription = match Prescription::parse(text) {
        Ok(p) => p,
        Err(e) => {
            return Err(crate::prescription::PrescriptionError::Parse(e));
        },
    };
    let ghost ds = crate::prescription::spec_parse_text(text@)->Parsed_0;
    proof {
        crate::prescription::lemma_parse_text_wf(text@);
        assert forall|i: int| 0 <= i < prescription@.len() implies #[trigger] prescription@[i]
            == ds[i] by {
            assert(prescription@[i] =~~= ds[i]);
        }
        assert(prescription@ =~= ds);
    }
    match prescription.validate() {
        Ok(()) => {},
        Err(c) => {
            proof {
                assert(crate::prescription::find_conflict(ds, 0) != -1);
            }
            return Err(crate::prescription::PrescriptionError::Conflict(c));
        },
    }
    proof {
        assert(crate::prescription::find_conflict(ds, 0) == -1);
    }
    let base = PhysicalProperties::unset();
    proof {
        assert(base.columns.deep_view() =~~= Seq::<ColumnWriterPropsV>::empty());
    }
    let r = prescription.apply(base);
    proof {
        let ghost_base = PhysicalProperties {
            writer_version: Option::None,
            created_by: Option::None,
            key_value_metadata: Option::None,
            sorting_columns: Option::None,
            max_row_group_size: Option::None,
            compression: Option::None,
            data_page_size_limit: Option::None,
            statistics_truncate_length: Option::None,
            columns: r.columns,
        };
        lemma_apply_file_congr(base, ghost_base, Seq::empty(), ds, 0);
        lemma_apply_cols_congr(base, base.columns.deep_view(), Seq::empty(), ds, 0);
    }
    Ok(r)
}

/// The file compression after folding directives/// The file compression after folding directives `i..`, starting from
/// `base`: the last `SetFileCompression` wins.
pub open spec fn spec_last_file_compression(
    ds: Seq<DirectiveV>,
    i: int,
    base: Option<CompressionKind>,
) -> Option<CompressionKind>
    decreases ds.len() - i,
{
    if i < 0 || i >= ds.len() {
        base
    } else {
        let next = match ds[i] {
            DirectiveV::SetFileCompression(c) => Option::Some(spec_codec_compression(c)),
            _ => base,
        };
        spec_last_file_compression(ds, i + 1, next)
    }
}

/// Law: applying a prescription sets the file compression to the last
/// file-compression directive, keeping the base where there is none.
/// The other file-level settings follow the same fold.
pub proof fn lemma_apply_last_file_compression_wins(
    p: PhysicalProperties,
    cols: Seq<ColumnWriterPropsV>,
    ds: Seq<DirectiveV>,
    i: int,
)
    ensures
        spec_apply(p, cols, ds, i).0.compression == spec_last_file_compression(
            ds,
            i,
            p.compression,
        ),
    decreases ds.len() - i,
{
    if 0 <= i < ds.len() {
        let (p2, c2) = spec_apply_one(p, cols, ds[i]);
        lemma_apply_last_file_compression_wins(p2, c2, ds, i + 1);
    }
}

/// The column path a directive targets, if it is a column directive.
pub open spec fn spec_dir_target(d: DirectiveV) -> Option<Seq<char>> {
    match d {
        DirectiveV::SetColumnCompression(p, _) => Option::Some(path_text(p)),
        DirectiveV::SetColumnEncoding(p, _) => Option::Some(path_text(p)),
        DirectiveV::SetColumnDictionary(p, _) => Option::Some(path_text(p)),
        DirectiveV::SetColumnDictionaryPageSizeLimit(p, _) => Option::Some(path_text(p)),
        DirectiveV::SetColumnStatistics(p, _) => Option::Some(path_text(p)),
        DirectiveV::SetColumnBloomFilter(p, _) => Option::Some(path_text(p)),
        DirectiveV::SetColumnBloomFilterNdv(p, _) => Option::Some(path_text(p)),
        DirectiveV::SetColumnBloomFilterFpp(p, _) => Option::Some(path_text(p)),
        _ => Option::None,
    }
}

/// The override entry for a path, if one exists.
pub open spec fn spec_lookup_col(cols: Seq<ColumnWriterPropsV>, pt: Seq<char>) -> Option<
    ColumnWriterPropsV,
> {
    let i = find_col(cols, pt, 0);
    if i >= 0 {
        Option::Some(cols[i])
    } else {
        Option::None
    }
}

/// Updating or appending an entry for one path leaves every other
/// path's lookup unchanged.
proof fn lemma_set_col_other(
    cols: Seq<ColumnWriterPropsV>,
    pt2: Seq<char>,
    update: spec_fn(ColumnWriterPropsV) -> ColumnWriterPropsV,
    pt: Seq<char>,
)
    requires
        pt2 != pt,
        forall|e: ColumnWriterPropsV| (#[trigger] update(e)).path_text == e.path_text,
    ensures
        spec_lookup_col(spec_set_col(cols, pt2, update), pt) == spec_lookup_col(cols, pt),
{
    let r = spec_set_col(cols, pt2, update);
    let i2 = find_col(cols, pt2, 0);
    lemma_find_col_props(cols, pt2, 0);
    lemma_find_col_props(cols, pt, 0);
    if i2 >= 0 {
        assert(r == cols.update(i2, update(cols[i2])));
        assert(r.len() == cols.len());
        assert forall|k: int| 0 <= k < cols.len() implies (#[trigger] r[k]).path_text
            == cols[k].path_text by {
            if k == i2 {
                assert(r[k] == update(cols[i2]));
            }
        }
        lemma_find_col_same(cols, r, pt, 0);
        let idx = find_col(cols, pt, 0);
        if idx >= 0 {
            assert(cols[idx].path_text == pt);
            assert(cols[i2].path_text == pt2);
            assert(idx != i2);
            assert(r[idx] == cols[idx]);
        }
    } else {
        assert(r == cols.push(update(spec_empty_col(pt2))));
        assert(r[cols.len() as int].path_text == pt2);
        assert forall|k: int| 0 <= k < cols.len() implies (#[trigger] r[k]).path_text
            == cols[k].path_text by {}
        lemma_find_col_same(cols, r, pt, 0);
        let idx = find_col(cols, pt, 0);
        if idx >= 0 {
            assert(r[idx] == cols[idx]);
        }
    }
}

/// A found index lies in range and its entry matches the path.
proof fn lemma_find_col_props(cols: Seq<ColumnWriterPropsV>, pt: Seq<char>, i: int)
    requires
        0 <= i,
    ensures
        find_col(cols, pt, i) == -1 || (i <= find_col(cols, pt, i) < cols.len() && cols[find_col(
            cols,
            pt,
            i,
        )].path_text == pt),
    decreases cols.len() - i,
{
    if i < cols.len() && cols[i].path_text != pt {
        lemma_find_col_props(cols, pt, i + 1);
    }
}

/// Two override lists of equal length whose entries agree except in
/// non-path fields, and pairwise share path texts, have the same
/// lookup behaviour -- specialized to a list and its one-path update.
proof fn lemma_find_col_same(
    cols: Seq<ColumnWriterPropsV>,
    r: Seq<ColumnWriterPropsV>,
    pt: Seq<char>,
    i: int,
)
    requires
        r.len() == cols.len() || r.len() == cols.len() + 1,
        forall|k: int| 0 <= k < cols.len() ==> (#[trigger] r[k]).path_text == cols[k].path_text,
        r.len() == cols.len() + 1 ==> r[cols.len() as int].path_text != pt,
        0 <= i,
    ensures
        find_col(r, pt, i) >= 0 <==> find_col(cols, pt, i) >= 0,
        find_col(cols, pt, i) >= 0 ==> find_col(r, pt, i) == find_col(cols, pt, i),
    decreases r.len() - i,
{
    if i < cols.len() {
        lemma_find_col_same(cols, r, pt, i + 1);
    } else if i < r.len() {
        lemma_find_col_same(cols, r, pt, i + 1);
    }
}

/// Law: folding a prescription never touches the override entry of a
/// column no directive names.  Together with the majority clauses of
/// the inferred base, a rewrite preserves an untouched column's
/// settings from the source file.
pub proof fn lemma_apply_untouched_column(
    p: PhysicalProperties,
    cols: Seq<ColumnWriterPropsV>,
    ds: Seq<DirectiveV>,
    i: int,
    pt: Seq<char>,
)
    requires
        forall|j: int|
            i <= j < ds.len() ==> spec_dir_target(#[trigger] ds[j]) != Option::Some(pt),
    ensures
        spec_lookup_col(spec_apply(p, cols, ds, i).1, pt) == spec_lookup_col(cols, pt),
    decreases ds.len() - i,
{
    if 0 <= i < ds.len() {
        let (p2, c2) = spec_apply_one(p, cols, ds[i]);
        lemma_apply_untouched_column(p2, c2, ds, i + 1, pt);
        match ds[i] {
            DirectiveV::SetColumnCompression(path, c) => {
                lemma_set_col_other(
                    cols,
                    path_text(path),
                    |e: ColumnWriterPropsV|
                        ColumnWriterPropsV {
                            compression: Option::Some(spec_codec_compression(c)),
                            ..e
                        },
                    pt,
                );
            },
            DirectiveV::SetColumnEncoding(path, enc) => {
                lemma_set_col_other(
                    cols,
                    path_text(path),
                    |e: ColumnWriterPropsV|
                        ColumnWriterPropsV {
                            encoding: Option::Some(spec_data_encoding_kind(enc)),
                            ..e
                        },
                    pt,
                );
            },
            DirectiveV::SetColumnDictionary(path, b) => {
                lemma_set_col_other(
                    cols,
                    path_text(path),
                    |e: ColumnWriterPropsV|
                        ColumnWriterPropsV { dictionary_enabled: Option::Some(b), ..e },
                    pt,
                );
            },
            DirectiveV::SetColumnDictionaryPageSizeLimit(path, n) => {
                lemma_set_col_other(
                    cols,
                    path_text(path),
                    |e: ColumnWriterPropsV|
                        ColumnWriterPropsV { dictionary_page_size_limit: Option::Some(n), ..e },
                    pt,
                );
            },
            DirectiveV::SetColumnStatistics(path, s) => {
                lemma_set_col_other(
                    cols,
                    path_text(path),
                    |e: ColumnWriterPropsV| ColumnWriterPropsV { statistics: Option::Some(s), ..e },
                    pt,
                );
            },
            DirectiveV::SetColumnBloomFilter(path, b) => {
                lemma_set_col_other(
                    cols,
                    path_text(path),
                    |e: ColumnWriterPropsV|
                        ColumnWriterPropsV { bloom_filter_enabled: Option::Some(b), ..e },
                    pt,
                );
            },
            DirectiveV::SetColumnBloomFilterNdv(path, n) => {
                lemma_set_col_other(
                    cols,
                    path_text(path),
                    |e: ColumnWriterPropsV|
                        ColumnWriterPropsV {
                            bloom_filter_enabled: Option::Some(true),
                            bloom_filter_ndv: Option::Some(n),
                            ..e
                        },
                    pt,
                );
            },
            DirectiveV::SetColumnBloomFilterFpp(path, f) => {
                lemma_set_col_other(
                    cols,
                    path_text(path),
                    |e: ColumnWriterPropsV|
                        ColumnWriterPropsV {
                            bloom_filter_enabled: Option::Some(true),
                            bloom_filter_fpp: Option::Some(f),
                            ..e
                        },
                    pt,
                );
            },
            _ => {
            },
        }
    }
}

} // verus!
