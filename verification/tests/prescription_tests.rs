use parquet_linter::prescription::{
    parse_bool, parse_codec, parse_column_path, parse_data_encoding, parse_statistics, parse_u64,
    parse_usize, parse_wrapped_i32, Codec, ColPath, DataEncoding, Directive, FppValue,
    Prescription, StatisticsConfig,
};
use parquet_linter::properties::{build_writer_properties, PhysicalProperties};
use parquet_linter::meta::{CompressionKind, EncodingKind};
use parquet_linter::properties::{codec_compression, data_encoding_kind};

fn col(name: &str) -> ColPath {
    ColPath::new(vec![name.to_string()])
}

#[test]
fn directive_display_covers_all_variants() {
    let cases: Vec<(Directive, &str)> = vec![
        (
            Directive::SetFileCompression(Codec::Zstd(3)),
            "set file compression zstd(3)",
        ),
        (
            Directive::SetFileMaxRowGroupSize(65_536),
            "set file max_row_group_size 65536",
        ),
        (
            Directive::SetFileDataPageSizeLimit(1_048_576),
            "set file data_page_size_limit 1048576",
        ),
        (
            Directive::SetFileStatisticsTruncateLength(Some(64)),
            "set file statistics_truncate_length 64",
        ),
        (
            Directive::SetFileStatisticsTruncateLength(None),
            "set file statistics_truncate_length none",
        ),
        (
            Directive::SetColumnCompression(col("user_id"), Codec::Snappy),
            "set column user_id compression snappy",
        ),
        (
            Directive::SetColumnEncoding(col("user_id"), DataEncoding::ByteStreamSplit),
            "set column user_id encoding byte_stream_split",
        ),
        (
            Directive::SetColumnDictionary(col("user_id"), false),
            "set column user_id dictionary false",
        ),
        (
            Directive::SetColumnDictionaryPageSizeLimit(col("user_id"), 2_097_152),
            "set column user_id dictionary_page_size_limit 2097152",
        ),
        (
            Directive::SetColumnStatistics(col("user_id"), StatisticsConfig::Page),
            "set column user_id statistics page",
        ),
        (
            Directive::SetColumnBloomFilter(col("user_id"), true),
            "set column user_id bloom_filter true",
        ),
        (
            Directive::SetColumnBloomFilterNdv(col("user_id"), 50_000),
            "set column user_id bloom_filter_ndv 50000",
        ),
        (
            Directive::SetColumnBloomFilterFpp(col("user_id"), FppValue::new("0.01".to_string())),
            "set column user_id bloom_filter_fpp 0.01",
        ),
    ];
    for (directive, expected) in cases {
        assert_eq!(directive.text(), expected);
    }
}

#[test]
fn validate_detects_conflict_for_same_key_different_values() {
    let mut prescription = Prescription::new();
    prescription.push(Directive::SetColumnCompression(col("user_id"), Codec::Zstd(3)));
    prescription.push(Directive::SetColumnCompression(col("user_id"), Codec::Snappy));

    let error = prescription.validate().expect_err("should conflict");
    assert_eq!(error.key, "column user_id compression");
    assert_eq!(error.first, "set column user_id compression zstd(3)");
    assert_eq!(error.second, "set column user_id compression snappy");
}

#[test]
fn validate_allows_duplicate_identical_directives() {
    let mut prescription = Prescription::new();
    prescription.push(Directive::SetFileDataPageSizeLimit(8_192));
    prescription.push(Directive::SetFileDataPageSizeLimit(8_192));

    assert!(prescription.validate().is_ok());
}

#[test]
fn validate_allows_non_conflicting_directives_on_different_columns() {
    let mut prescription = Prescription::new();
    prescription.push(Directive::SetColumnCompression(col("col_a"), Codec::Zstd(3)));
    prescription.push(Directive::SetColumnCompression(col("col_b"), Codec::Snappy));

    assert!(prescription.validate().is_ok());
}

fn find_override<'a>(
    props: &'a PhysicalProperties,
    path: &str,
) -> Option<&'a parquet_linter::properties::ColumnWriterProps> {
    props.columns.iter().find(|c| c.path_text == path)
}

#[test]
fn apply_builds_writer_properties() {
    let mut prescription = Prescription::new();
    prescription.push(Directive::SetFileCompression(Codec::Lz4Raw));
    prescription.push(Directive::SetFileMaxRowGroupSize(65_536));
    prescription.push(Directive::SetFileDataPageSizeLimit(1_048_576));
    prescription.push(Directive::SetFileStatisticsTruncateLength(None));
    prescription.push(Directive::SetColumnCompression(col("user_id"), Codec::Zstd(3)));
    prescription.push(Directive::SetColumnEncoding(
        col("user_id"),
        DataEncoding::ByteStreamSplit,
    ));
    prescription.push(Directive::SetColumnDictionary(col("user_id"), false));
    prescription.push(Directive::SetColumnDictionaryPageSizeLimit(col("user_id"), 2_097_152));
    prescription.push(Directive::SetColumnStatistics(col("user_id"), StatisticsConfig::Page));
    prescription.push(Directive::SetColumnBloomFilter(col("user_id"), true));
    prescription.push(Directive::SetColumnBloomFilterNdv(col("user_id"), 50_000));
    prescription.push(Directive::SetColumnBloomFilterFpp(
        col("user_id"),
        FppValue::new("0.01".to_string()),
    ));

    let properties = build_writer_properties(&prescription);

    assert_eq!(properties.max_row_group_size, Some(65_536));
    assert_eq!(properties.data_page_size_limit, Some(1_048_576));
    assert_eq!(properties.statistics_truncate_length, Some(None));
    // The file-wide default applies to columns without an override.
    assert!(find_override(&properties, "other_column").is_none());
    assert_eq!(properties.compression, Some(CompressionKind::Lz4Raw));
    let user = find_override(&properties, "user_id").expect("bloom filter configured");
    assert_eq!(user.compression, Some(CompressionKind::ZstdLevel(3)));
    assert_eq!(user.encoding, Some(EncodingKind::ByteStreamSplit));
    assert_eq!(user.dictionary_enabled, Some(false));
    assert_eq!(user.dictionary_page_size_limit, Some(2_097_152));
    assert_eq!(user.statistics, Some(StatisticsConfig::Page));
    assert_eq!(user.bloom_filter_enabled, Some(true));
    assert_eq!(user.bloom_filter_ndv, Some(50_000));
    assert_eq!(user.bloom_filter_fpp.as_ref().map(|f| f.token.clone()), Some("0.01".to_string()));
}

#[test]
fn from_codec_covers_all_variants() {
    assert_eq!(codec_compression(Codec::Uncompressed), CompressionKind::Uncompressed);
    assert_eq!(codec_compression(Codec::Snappy), CompressionKind::Snappy);
    assert_eq!(codec_compression(Codec::Gzip(6)), CompressionKind::GzipLevel(6));
    assert_eq!(codec_compression(Codec::Brotli(4)), CompressionKind::BrotliLevel(4));
    assert_eq!(codec_compression(Codec::Zstd(3)), CompressionKind::ZstdLevel(3));
    assert_eq!(codec_compression(Codec::Lz4Raw), CompressionKind::Lz4Raw);
}

#[test]
fn from_data_encoding_covers_all_variants() {
    assert_eq!(data_encoding_kind(DataEncoding::Plain), EncodingKind::Plain);
    assert_eq!(
        data_encoding_kind(DataEncoding::DeltaBinaryPacked),
        EncodingKind::DeltaBinaryPacked
    );
    assert_eq!(
        data_encoding_kind(DataEncoding::DeltaLengthByteArray),
        EncodingKind::DeltaLengthByteArray
    );
    assert_eq!(data_encoding_kind(DataEncoding::DeltaByteArray), EncodingKind::DeltaByteArray);
    assert_eq!(data_encoding_kind(DataEncoding::ByteStreamSplit), EncodingKind::ByteStreamSplit);
}

#[test]
fn parse_prescription_text() {
    let text = "\nset file data_page_size_limit 8192\nset file statistics_truncate_length none\nset column user_id compression zstd(3)\nset column user_id encoding byte_stream_split\nset column user_id bloom_filter true\nset column user_id bloom_filter_ndv 50000\n";

    let prescription = Prescription::parse(text).expect("valid prescription text");
    assert_eq!(prescription.directives().len(), 6);
    assert_eq!(
        prescription.text(),
        "set file data_page_size_limit 8192\nset file statistics_truncate_length none\nset column user_id compression zstd(3)\nset column user_id encoding byte_stream_split\nset column user_id bloom_filter true\nset column user_id bloom_filter_ndv 50000"
    );
}

#[test]
fn parse_reports_invalid_property_with_line_number() {
    let text = "set column user_id not_a_property true";
    let error = Prescription::parse(text).expect_err("invalid property");
    assert_eq!(error.line, 1);
    assert!(error.message.contains("unknown column property"));
}

#[test]
fn ext_apply_prescription_rejects_conflict() {
    let prescription =
        Prescription::parse("set column x compression zstd(3)\nset column x compression snappy")
            .expect("parses");
    assert!(prescription.validate().is_err());
}

#[test]
fn ext_apply_prescription_rejects_parse_error() {
    assert!(Prescription::parse("garbage").is_err());
}

#[test]
fn ext_apply_prescription_on_builder() {
    let prescription = Prescription::parse(
        "set file compression zstd(3)\nset column user_id encoding delta_binary_packed",
    )
    .expect("parses");
    prescription.validate().expect("no conflict");
    let props = build_writer_properties(&prescription);
    assert_eq!(props.compression, Some(CompressionKind::ZstdLevel(3)));
    let user = find_override(&props, "user_id").expect("override exists");
    assert_eq!(user.encoding, Some(EncodingKind::DeltaBinaryPacked));
}

#[test]
fn parse_serialize_cycle_is_idempotent() {
    let text = "# tuning picked after the last audit\nset file compression zstd(3)   # default target\n\nset column a.b compression gzip(7)\nset column a.b dictionary true\nset column tags encoding delta_length_byte_array\nset file statistics_truncate_length none\nset column id bloom_filter_fpp 0.01\n";
    let first = Prescription::parse(text).expect("parses");
    let serialized = first.text();
    let second = Prescription::parse(&serialized).expect("round trip parses");
    assert_eq!(first.directives().len(), second.directives().len());
    assert_eq!(serialized, second.text());
    for (a, b) in first.directives().iter().zip(second.directives().iter()) {
        assert_eq!(a.text(), b.text());
        assert_eq!(a.conflict_key(), b.conflict_key());
        assert_eq!(a.conflict_value(), b.conflict_value());
    }
}

#[test]
fn parse_rejects_out_of_range_levels() {
    assert!(Prescription::parse("set file compression zstd(0)").is_err());
    assert!(Prescription::parse("set file compression zstd(23)").is_err());
    assert!(Prescription::parse("set file compression gzip(10)").is_err());
    assert!(Prescription::parse("set file compression brotli(12)").is_err());
    assert!(Prescription::parse("set file compression zstd(x)").is_err());
    assert!(Prescription::parse("set file compression zstd(3").is_err());
    assert!(Prescription::parse("set file compression nonsense").is_err());
}

#[test]
fn parse_error_kinds_carry_first_bad_line() {
    let err = Prescription::parse("set file compression snappy\nnot a directive").unwrap_err();
    assert_eq!(err.line, 2);
    let err = Prescription::parse("put file compression snappy").unwrap_err();
    assert!(err.message.contains("must start with 'set'"));
    let err = Prescription::parse("set table x compression snappy").unwrap_err();
    assert!(err.message.contains("unknown scope"));
    let err = Prescription::parse("set file max_row_group_size twelve").unwrap_err();
    assert!(err.message.contains("invalid integer"));
    let err = Prescription::parse("set column a..b compression snappy").unwrap_err();
    assert!(err.message.contains("invalid column path"));
    let err = Prescription::parse("set column a dictionary maybe").unwrap_err();
    assert!(err.message.contains("invalid boolean"));
    let err = Prescription::parse("set column a statistics verbose").unwrap_err();
    assert!(err.message.contains("unknown statistics level"));
    let err = Prescription::parse("set column a encoding rle").unwrap_err();
    assert!(err.message.contains("unknown encoding"));
    let err = Prescription::parse("set column a bloom_filter_fpp high").unwrap_err();
    assert!(err.message.contains("invalid probability"));
}

#[test]
fn token_parsers_cover_values() {
    assert_eq!(parse_codec("snappy", 1).unwrap(), Codec::Snappy);
    assert_eq!(parse_codec("uncompressed", 1).unwrap(), Codec::Uncompressed);
    assert_eq!(parse_codec("lz4_raw", 1).unwrap(), Codec::Lz4Raw);
    assert_eq!(parse_codec("gzip(0)", 1).unwrap(), Codec::Gzip(0));
    assert_eq!(parse_codec("brotli(11)", 1).unwrap(), Codec::Brotli(11));
    assert_eq!(parse_wrapped_i32("zstd(7)", "zstd", 4).unwrap(), Some(7));
    assert_eq!(parse_wrapped_i32("snappy", "zstd", 4).unwrap(), None);
    assert!(parse_wrapped_i32("zstd(", "zstd", 4).is_err());
    assert_eq!(parse_data_encoding("plain", 1).unwrap(), DataEncoding::Plain);
    assert_eq!(parse_statistics("chunk", 1).unwrap(), StatisticsConfig::Chunk);
    assert_eq!(parse_statistics("none", 1).unwrap(), StatisticsConfig::Disabled);
    assert_eq!(parse_bool("true", 1, "dictionary").unwrap(), true);
    assert_eq!(parse_bool("false", 1, "dictionary").unwrap(), false);
    assert_eq!(parse_usize("12345", 1, "max_row_group_size").unwrap(), 12345);
    assert_eq!(parse_u64("99", 1, "bloom_filter_ndv").unwrap(), 99);
    assert!(parse_u64("18446744073709551616", 1, "bloom_filter_ndv").is_err());
    let p = parse_column_path("a.b.c", 1).unwrap();
    assert_eq!(p.parts, vec!["a".to_string(), "b".to_string(), "c".to_string()]);
    assert_eq!(p.text(), "a.b.c");
}

#[test]
fn last_directive_wins_on_apply() {
    let prescription = Prescription::parse(
        "set file compression zstd(3)\nset file compression snappy\nset column a compression gzip(1)\nset column a compression uncompressed",
    )
    .expect("parses");
    // Validation reports the conflict, but application still proceeds,
    // later directives winning.
    assert!(prescription.validate().is_err());
    let props = build_writer_properties(&prescription);
    assert_eq!(props.compression, Some(CompressionKind::Snappy));
    let a = find_override(&props, "a").expect("override exists");
    assert_eq!(a.compression, Some(CompressionKind::Uncompressed));
}

#[test]
fn well_formedness_check_rejects_inexpressible_paths() {
    let good = Directive::SetColumnDictionary(col("user_id"), true);
    assert!(good.is_wf());
    let spaced = Directive::SetColumnDictionary(ColPath::new(vec!["a b".to_string()]), true);
    assert!(!spaced.is_wf());
    let bad_level = Directive::SetFileCompression(Codec::Zstd(0));
    assert!(!bad_level.is_wf());
    let mut p = Prescription::new();
    p.push(Directive::SetFileCompression(Codec::Zstd(3)));
    assert!(p.is_wf());
    p.push(Directive::SetColumnBloomFilterFpp(col("x"), FppValue::new("not-a-number".to_string())));
    assert!(!p.is_wf());
}
