use parquet_linter::cardinality::{
    estimate, pick_sample_row_group, sample_stats, scale_distinct, ColumnCardinality, ColumnSample,
    PageProbe,
};
use parquet_linter::context::{build, int_type_info, ColumnContext, MappedType, TypeStats};
use parquet_linter::diagnostic::Diagnostic;
use parquet_linter::lint;
use parquet_linter::meta::{
    ChunkMeta, ChunkStats, ColumnDescModel, CompressionKind, EncodingKind, FileMeta, LogicalKind,
    PhysicalKind, RowGroupMeta, TypedMinMax,
};
use parquet_linter::prescription::{ColPath, Prescription, PrescriptionError};
use parquet_linter::properties::rewrite_properties;
use parquet_linter::rule::RuleContext;
use parquet_linter::rules::{
    build_policy_message, choose_sample_row_groups, compute_row_group_suggestion, div_ceil_u128,
    estimate_dictionary_payload_bytes, suggested_dictionary_page_size_limit,
    suggested_max_row_group_size, RowGroupSuggestion,
};
use parquet_linter::rules::{
    classify_codec_issue, prefer_lz4_for_many_small_snappy_byte_array_chunks,
    should_prefer_delta_length_byte_array, CodecRecommendation, StringColumnSummary,
};
use parquet_linter::schema::{validate_schema_match, SchemaFieldModel};

fn chunk(num_values: i64, unc: i64, comp: i64, compression: CompressionKind) -> ChunkMeta {
    ChunkMeta {
        num_values,
        uncompressed_size: unc,
        compressed_size: comp,
        compression,
        encodings: vec![EncodingKind::Plain, EncodingKind::Rle],
        has_dictionary_page: false,
        has_bloom_filter: false,
        has_column_index: true,
        page_location_count: None,
        statistics: Some(ChunkStats {
            min_bytes: None,
            max_bytes: None,
            min_is_exact: false,
            max_is_exact: false,
            null_count: Some(0),
            distinct_count: None,
            typed: TypedMinMax::TNone,
        }),
        page_encoding_stats: None,
    }
}

fn desc(name: &str, physical: PhysicalKind, logical: Option<LogicalKind>) -> ColumnDescModel {
    ColumnDescModel {
        path: ColPath::new(name.split('.').map(|s| s.to_string()).collect()),
        physical,
        logical,
        max_rep_level: 0,
        max_def_level: 0,
        type_length: 0,
    }
}

fn file_of(columns: Vec<ColumnDescModel>, row_groups: Vec<RowGroupMeta>) -> FileMeta {
    FileMeta {
        version: 2,
        created_by: None,
        key_value_metadata: None,
        flat_schema: true,
        columns,
        row_groups,
    }
}

fn rg(num_rows: i64, columns: Vec<ChunkMeta>) -> RowGroupMeta {
    let compressed_size = columns.iter().map(|c| c.compressed_size.max(0)).sum();
    RowGroupMeta { num_rows, compressed_size, sorting_columns: None, columns }
}

fn context_for(meta: &FileMeta) -> RuleContext {
    let probes: Vec<PageProbe> = meta.columns.iter().map(|_| PageProbe::Unavailable).collect();
    let samples: Vec<ColumnSample> = meta.columns.iter().map(|_| ColumnSample::NoSample).collect();
    context_with(meta, probes, samples)
}

fn context_with(meta: &FileMeta, probes: Vec<PageProbe>, samples: Vec<ColumnSample>) -> RuleContext {
    let cardinalities = estimate(meta, &probes, &samples);
    let cardinalities = if cardinalities.is_empty() {
        meta.columns
            .iter()
            .map(|_| ColumnCardinality { distinct_count: 0, non_null_count: 0 })
            .collect()
    } else {
        cardinalities
    };
    let columns = build(meta, &cardinalities, &samples);
    let meta2 = FileMeta {
        version: meta.version,
        created_by: meta.created_by.clone(),
        key_value_metadata: None,
        flat_schema: meta.flat_schema,
        columns: meta
            .columns
            .iter()
            .map(|d| ColumnDescModel {
                path: d.path.dup(),
                physical: d.physical,
                logical: d.logical,
                max_rep_level: d.max_rep_level,
                max_def_level: d.max_def_level,
                type_length: d.type_length,
            })
            .collect(),
        row_groups: meta.row_groups.clone(),
    };
    RuleContext {
        meta: meta2,
        columns,
        cardinalities,
        gpu: false,
        dict_probes: Vec::new(),
        page_counts: Vec::new(),
    }
}

// --- page/row-group size rule -------------------------------------------

#[test]
fn no_violation_returns_none() {
    let row_groups = vec![(10_000, 64 * 1024 * 1024), (20_000, 128 * 1024 * 1024)];
    assert_eq!(compute_row_group_suggestion(&row_groups), None);
}

#[test]
fn rows_violation_caps_at_64k() {
    let row_groups = vec![(70_000, 128 * 1024 * 1024)];
    assert_eq!(
        compute_row_group_suggestion(&row_groups),
        Some(RowGroupSuggestion {
            target_max_rows: 64 * 1024,
            oversized_rows_groups: 1,
            oversized_size_groups: 0,
        })
    );
}

#[test]
fn size_violation_scales_rows_down() {
    let row_groups = vec![(100_000, 512 * 1024 * 1024)];
    assert_eq!(
        compute_row_group_suggestion(&row_groups),
        Some(RowGroupSuggestion {
            target_max_rows: 50_000,
            oversized_rows_groups: 1,
            oversized_size_groups: 1,
        })
    );
}

#[test]
fn message_mentions_only_violated_constraints() {
    let msg = build_policy_message(
        RowGroupSuggestion {
            target_max_rows: 64 * 1024,
            oversized_rows_groups: 226,
            oversized_size_groups: 0,
        },
        226,
    );
    assert!(msg.contains("226/226 row group(s) exceed 64K rows"));
    assert!(!msg.contains("exceed 256MB compressed"));
    assert!(msg.contains("data_page_size_limit=1MB"));
}

// --- dictionary sizing helpers ------------------------------------------

#[test]
fn estimate_payload_bytes_applies_headroom() {
    let got = estimate_dictionary_payload_bytes(100, 1_000, 10_000_000);
    assert_eq!(got, Some(1_250_000));
}

#[test]
fn suggest_dictionary_page_size_defaults_to_2mb() {
    assert_eq!(suggested_dictionary_page_size_limit(None), 2 * 1024 * 1024);
    assert_eq!(
        suggested_dictionary_page_size_limit(Some(2 * 1024 * 1024)),
        2 * 1024 * 1024
    );
}

#[test]
fn suggest_dictionary_page_size_doubles_until_estimate_fits() {
    assert_eq!(
        suggested_dictionary_page_size_limit(Some((2 * 1024 * 1024) as u128 + 1)),
        4 * 1024 * 1024
    );
    assert_eq!(
        suggested_dictionary_page_size_limit(Some((5 * 1024 * 1024) as u128)),
        8 * 1024 * 1024
    );
}

#[test]
fn suggest_max_row_group_size_scales_down_when_limit_exceeds_cap() {
    assert_eq!(suggested_max_row_group_size(1_000_000, 128 * 1024 * 1024), 125_000);
}

#[test]
fn suggest_max_row_group_size_keeps_rows_when_within_cap() {
    assert_eq!(suggested_max_row_group_size(1_000_000, 8 * 1024 * 1024), 1_000_000);
}

#[test]
fn div_ceil_rounds_up_and_rejects_zero() {
    assert_eq!(div_ceil_u128(10, 4), Some(3));
    assert_eq!(div_ceil_u128(8, 4), Some(2));
    assert_eq!(div_ceil_u128(0, 4), Some(0));
    assert_eq!(div_ceil_u128(1, 0), None);
}

#[test]
fn choose_sample_spreads_and_caps() {
    let none: Vec<usize> = vec![];
    assert_eq!(choose_sample_row_groups(&none), Vec::<usize>::new());
    let one = vec![5];
    assert_eq!(choose_sample_row_groups(&one), vec![5]);
    let few = vec![3, 7];
    assert_eq!(choose_sample_row_groups(&few), vec![3]);
    let many: Vec<usize> = (0..40).collect();
    let picked = choose_sample_row_groups(&many);
    assert_eq!(picked.len(), 2);
    assert_eq!(picked[0], 0);
    assert_eq!(picked[1], 20);
}

// --- cardinality estimation ---------------------------------------------

fn one_column_file(num_values: i64, null_count: u64, distinct: Option<u64>) -> FileMeta {
    let mut c = chunk(num_values, 1000, 500, CompressionKind::Snappy);
    c.statistics = Some(ChunkStats {
        min_bytes: None,
        max_bytes: None,
        min_is_exact: false,
        max_is_exact: false,
        null_count: Some(null_count),
        distinct_count: distinct,
        typed: TypedMinMax::TNone,
    });
    file_of(
        vec![desc("v", PhysicalKind::Int64, None)],
        vec![rg(num_values, vec![c])],
    )
}

#[test]
fn estimate_bounds_hold_for_all_tiers() {
    // Statistics tier, dictionary tier, sampling tier and fallback in turn.
    let cases = vec![
        (one_column_file(1000, 0, Some(50)), PageProbe::Unavailable, ColumnSample::NoSample),
        (one_column_file(1000, 10, None), PageProbe::DictionaryOf { entries: 7 }, ColumnSample::NoSample),
        (one_column_file(1000, 0, None), PageProbe::OtherPage, ColumnSample::IntSample(vec![1, 2, 2, 3])),
        (one_column_file(1000, 0, None), PageProbe::Unavailable, ColumnSample::NoSample),
    ];
    for (meta, probe, sample) in cases {
        let r = estimate(&meta, &vec![probe], &vec![sample]);
        assert_eq!(r.len(), 1);
        assert!(r[0].distinct_count <= r[0].non_null_count);
        assert!(r[0].non_null_count <= 1000);
    }
}

#[test]
fn estimate_statistics_tier_scales_declared_count() {
    // Two row groups; the first declares 50 distinct of 1000 non-null,
    // the file holds 2000 non-null: the estimate scales to 100.
    let mut meta = one_column_file(1000, 0, Some(50));
    let second = one_column_file(1000, 0, None);
    meta.row_groups.push(second.row_groups.into_iter().next().unwrap());
    let r = estimate(
        &meta,
        &vec![PageProbe::Unavailable],
        &vec![ColumnSample::NoSample],
    );
    assert_eq!(r[0].non_null_count, 2000);
    assert_eq!(r[0].distinct_count, 100);
}

#[test]
fn estimate_fallback_assumes_fully_unique() {
    // A nested schema with no statistics and no probe: the conservative
    // fallback reports every non-null value as distinct.
    let mut meta = one_column_file(1000, 0, None);
    meta.flat_schema = false;
    let r = estimate(
        &meta,
        &vec![PageProbe::Unavailable],
        &vec![ColumnSample::NoSample],
    );
    assert_eq!(r[0].distinct_count, r[0].non_null_count);
    assert_eq!(r[0].non_null_count, 1000);
}

#[test]
fn estimate_dictionary_tier_floors_at_entry_count() {
    let meta = one_column_file(1000, 0, None);
    let r = estimate(
        &meta,
        &vec![PageProbe::DictionaryOf { entries: 5 }],
        &vec![ColumnSample::NoSample],
    );
    assert!(r[0].distinct_count >= 5);
    assert_eq!(r[0].distinct_count, 5);
}

#[test]
fn scale_distinct_clamps_between_sample_and_total() {
    assert_eq!(scale_distinct(50, 1000, 2000), 100);
    assert_eq!(scale_distinct(50, 0, 2000), 2000);
    assert_eq!(scale_distinct(50, 1000, 0), 0);
    assert_eq!(scale_distinct(3000, 1000, 2000), 2000);
}

#[test]
fn pick_sample_row_group_takes_first_non_empty() {
    let empty = rg(0, vec![chunk(0, 0, 0, CompressionKind::Snappy)]);
    let full = rg(10, vec![chunk(10, 100, 50, CompressionKind::Snappy)]);
    let meta = file_of(vec![desc("v", PhysicalKind::Int64, None)], vec![empty, full]);
    assert_eq!(pick_sample_row_group(&meta), 1);
}

#[test]
fn ratio_is_zero_when_column_has_no_non_null_values() {
    let card = ColumnCardinality { distinct_count: 0, non_null_count: 0 };
    // The ratio of an all-null column is zero: below any positive
    // bound, above none.
    assert!(card.ratio_lt(1, 1000));
    assert!(!card.ratio_gt(0, 1));
}

#[test]
fn sampling_distinct_ignores_null_values() {
    // The sampler hands over non-null values only; two equal strings
    // count once.
    let sample = ColumnSample::TextSample(vec!["a".to_string(), "a".to_string()]);
    let (distinct, count) = sample_stats(&sample);
    assert_eq!(distinct, 1);
    assert_eq!(count, 2);
}

// --- column context -------------------------------------------------------

fn plain_context() -> ColumnContext {
    ColumnContext {
        physical_type: PhysicalKind::Int32,
        logical_type: None,
        mapped_type: MappedType::MInt32,
        num_values: 0,
        null_count: 0,
        distinct_count: 0,
        uncompressed_size: 0,
        compressed_size: 0,
        type_stats: TypeStats::Unknown,
    }
}

#[test]
fn non_null_count_saturates() {
    let mut ctx = plain_context();
    ctx.num_values = 10;
    ctx.null_count = 100;
    assert_eq!(ctx.non_null_count(), 0);
}

#[test]
fn cardinality_ratio_zero_when_all_null() {
    let mut ctx = plain_context();
    ctx.num_values = 100;
    ctx.null_count = 100;
    ctx.distinct_count = 0;
    assert!(!ctx.cardinality_ratio_gt(0, 1));
}

#[test]
fn cardinality_ratio_computes_correctly() {
    let mut ctx = plain_context();
    ctx.num_values = 1000;
    ctx.null_count = 0;
    ctx.distinct_count = 100;
    // distinct / non-null is exactly one tenth.
    assert!(ctx.cardinality_ratio_gt(99, 1000));
    assert!(!ctx.cardinality_ratio_gt(1, 10));
}

#[test]
fn int_type_info_uses_logical_type() {
    let (is_signed, bit_width) = int_type_info(
        Some(LogicalKind::IntegerLogical { bit_width: 16, is_signed: false }),
        32,
    );
    assert!(!is_signed);
    assert_eq!(bit_width, 16);
}

#[test]
fn int_type_info_defaults_to_physical() {
    let (is_signed, bit_width) = int_type_info(None, 64);
    assert!(is_signed);
    assert_eq!(bit_width, 64);
}

#[test]
fn build_clamps_counts_to_the_invariant() {
    // A chunk whose recorded null count exceeds its value count still
    // yields a well-formed context.
    let mut c = chunk(10, 100, 50, CompressionKind::Snappy);
    c.statistics = Some(ChunkStats {
        min_bytes: None,
        max_bytes: None,
        min_is_exact: false,
        max_is_exact: false,
        null_count: Some(100),
        distinct_count: None,
        typed: TypedMinMax::TNone,
    });
    let meta = file_of(vec![desc("v", PhysicalKind::Int64, None)], vec![rg(10, vec![c])]);
    let cards = vec![ColumnCardinality { distinct_count: 50, non_null_count: 0 }];
    let samples = vec![ColumnSample::NoSample];
    let ctxs = build(&meta, &cards, &samples);
    assert_eq!(ctxs.len(), 1);
    assert_eq!(ctxs[0].num_values, 10);
    assert_eq!(ctxs[0].null_count, 10);
    assert_eq!(ctxs[0].distinct_count, 0);
}

// --- end-to-end scenarios -------------------------------------------------

fn diagnostics_of(meta: &FileMeta) -> Vec<Diagnostic> {
    let ctx = context_for(meta);
    lint(&ctx, None)
}

#[test]
fn weak_codec_on_large_chunk_gets_default_target() {
    // One string column of ten megabytes on a weak codec: exactly one
    // compression-codec diagnostic, recommending the default target.
    let c = chunk(
        1000,
        10 * 1024 * 1024,
        5 * 1024 * 1024,
        CompressionKind::GzipLevel(6),
    );
    let meta = file_of(
        vec![desc("body", PhysicalKind::ByteArray, Some(LogicalKind::StringLogical))],
        vec![rg(1000, vec![c])],
    );
    let diags = diagnostics_of(&meta);
    let codec_diags: Vec<&Diagnostic> =
        diags.iter().filter(|d| d.rule_name == "compression-codec-upgrade").collect();
    assert_eq!(codec_diags.len(), 1);
    assert!(codec_diags[0].message.contains("ZSTD level 3"));
    assert_eq!(codec_diags[0].prescription.directives().len(), 1);
    assert_eq!(
        codec_diags[0].prescription.directives()[0].text(),
        "set column body compression zstd(3)"
    );
}

#[test]
fn low_ratio_dictionary_column_is_not_asked_to_disable() {
    // A string column whose dictionary page holds five entries over a
    // thousand non-null values: ratio one two-hundredth, no diagnostic
    // asking to disable the dictionary.
    let mut c = chunk(1000, 100_000, 50_000, CompressionKind::Snappy);
    c.encodings = vec![EncodingKind::RleDictionary, EncodingKind::Rle];
    c.has_dictionary_page = true;
    let meta = file_of(
        vec![desc("tag", PhysicalKind::ByteArray, Some(LogicalKind::StringLogical))],
        vec![rg(1000, vec![c])],
    );
    let probes = vec![PageProbe::DictionaryOf { entries: 5 }];
    let samples = vec![ColumnSample::NoSample];
    let ctx = context_with(&meta, probes, samples);
    assert_eq!(ctx.cardinalities[0].distinct_count, 5);
    let diags = lint(&ctx, None);
    for d in diags.iter().filter(|d| d.rule_name == "dictionary-encoding-cardinality") {
        for dir in d.prescription.directives() {
            assert_ne!(dir.text(), "set column tag dictionary false");
        }
    }
}

#[test]
fn conflicting_file_compression_fails_validation() {
    let prescription =
        Prescription::parse("set file compression zstd(3)\nset file compression snappy")
            .expect("parses");
    let err = prescription.validate().expect_err("conflict");
    assert_eq!(err.key, "file compression");
}

#[test]
fn rewrite_changes_only_the_named_column() {
    // Two snappy columns; the prescription retunes only `a.b`.
    let meta = file_of(
        vec![
            desc("a.b", PhysicalKind::Int64, None),
            desc("c", PhysicalKind::Int64, None),
        ],
        vec![rg(
            100,
            vec![
                chunk(100, 1000, 500, CompressionKind::Snappy),
                chunk(100, 1000, 500, CompressionKind::Snappy),
            ],
        )],
    );
    let prescription = Prescription::parse("set column a.b compression zstd(3)").expect("parses");
    prescription.validate().expect("no conflict");
    let props = rewrite_properties(&meta, &prescription);
    let ab = props.columns.iter().find(|c| c.path_text == "a.b").expect("a.b present");
    let c = props.columns.iter().find(|c| c.path_text == "c").expect("c present");
    assert_eq!(ab.compression, Some(CompressionKind::ZstdLevel(3)));
    assert_eq!(c.compression, Some(CompressionKind::Snappy));
}

#[test]
fn rule_engine_is_deterministic_across_runs() {
    let c = chunk(
        70_000,
        10 * 1024 * 1024,
        5 * 1024 * 1024,
        CompressionKind::GzipLevel(6),
    );
    let meta = file_of(
        vec![desc("body", PhysicalKind::ByteArray, Some(LogicalKind::StringLogical))],
        vec![rg(70_000, vec![c])],
    );
    let ctx = context_for(&meta);
    let first = lint(&ctx, None);
    let second = lint(&ctx, None);
    assert_eq!(first.len(), second.len());
    for (a, b) in first.iter().zip(second.iter()) {
        assert_eq!(a.rule_name, b.rule_name);
        assert_eq!(a.severity.rank(), b.severity.rank());
        assert_eq!(a.message, b.message);
        assert_eq!(a.prescription.directives().len(), b.prescription.directives().len());
    }
}

#[test]
fn lint_sorts_by_severity_and_filters_by_name() {
    let c = chunk(
        70_000,
        10 * 1024 * 1024,
        9_900_000,
        CompressionKind::GzipLevel(6),
    );
    let meta = file_of(
        vec![desc("body", PhysicalKind::ByteArray, Some(LogicalKind::StringLogical))],
        vec![rg(70_000, vec![c])],
    );
    let ctx = context_for(&meta);
    let all = lint(&ctx, None);
    for w in all.windows(2) {
        assert!(w[0].severity.rank() <= w[1].severity.rank());
    }
    let unknown = lint(&ctx, Some(&vec!["no-such-rule".to_string()]));
    assert!(unknown.is_empty());
    let only = lint(&ctx, Some(&vec!["page-row-group-size".to_string()]));
    assert!(only.iter().all(|d| d.rule_name == "page-row-group-size"));
    assert_eq!(only.len(), 1);
    assert!(parquet_linter::has_warnings_or_errors(&only));
}

#[test]
fn nearly_incompressible_column_is_flagged() {
    let c = chunk(1000, 1_000_000, 990_000, CompressionKind::Snappy);
    let meta = file_of(vec![desc("noise", PhysicalKind::ByteArray, None)], vec![rg(1000, vec![c])]);
    let diags = diagnostics_of(&meta);
    let hits: Vec<&Diagnostic> =
        diags.iter().filter(|d| d.rule_name == "low-compression-ratio").collect();
    assert_eq!(hits.len(), 1);
    assert_eq!(hits[0].prescription.directives()[0].text(), "set column noise compression uncompressed");
}

#[test]
fn missing_column_index_recommends_page_statistics() {
    let mut c = chunk(1000, 1000, 900, CompressionKind::ZstdLevel(3));
    c.has_column_index = false;
    let meta = file_of(vec![desc("v", PhysicalKind::Int64, None)], vec![rg(1000, vec![c])]);
    let diags = diagnostics_of(&meta);
    let hits: Vec<&Diagnostic> =
        diags.iter().filter(|d| d.rule_name == "missing-page-statistics").collect();
    assert_eq!(hits.len(), 1);
    assert_eq!(hits[0].prescription.directives()[0].text(), "set column v statistics page");
}

#[test]
fn parse_urls_skips_comments_and_blanks() {
    let urls = parquet_linter::strutil::parse_urls(
        "# manifest\nhttps://host/a.parquet\n\n  https://host/b.parquet  # staging\n",
    );
    assert_eq!(urls, vec!["https://host/a.parquet".to_string(), "https://host/b.parquet".to_string()]);
}

#[test]
fn file_path_joins_directory_and_index() {
    assert_eq!(parquet_linter::strutil::file_path("data", 7), "data/7.parquet");
}

#[test]
fn schema_match_accepts_equal_and_rejects_different() {
    let a = vec![SchemaFieldModel {
        name: "a".to_string(),
        type_text: "Int64".to_string(),
        nullable: false,
    }];
    let b = vec![SchemaFieldModel {
        name: "a".to_string(),
        type_text: "Int64".to_string(),
        nullable: false,
    }];
    assert!(validate_schema_match(&a, &b).is_ok());
    let c = vec![SchemaFieldModel {
        name: "a".to_string(),
        type_text: "Int32".to_string(),
        nullable: false,
    }];
    assert!(validate_schema_match(&a, &c).is_err());
}

// --- compression codec classification -------------------------------------

#[test]
fn classify_gzip_as_zstd_level_3() {
    let got = classify_codec_issue(CompressionKind::GzipLevel(6), 1);
    assert_eq!(
        got,
        Some((
            CodecRecommendation::ZstdLevel3,
            "default compression policy prefers ZSTD level 3",
        ))
    );
}

#[test]
fn do_not_classify_large_uncompressed_as_lz4() {
    let got = classify_codec_issue(CompressionKind::Uncompressed, 4 * 1024 * 1024 + 1);
    assert_eq!(
        got,
        Some((
            CodecRecommendation::ZstdLevel3,
            "default compression policy prefers ZSTD level 3",
        ))
    );
}

#[test]
fn classify_large_snappy_as_lz4() {
    let got = classify_codec_issue(CompressionKind::Snappy, 4 * 1024 * 1024 + 1);
    assert_eq!(
        got,
        Some((
            CodecRecommendation::Lz4,
            "large column chunks are decompression-sensitive",
        ))
    );
}

#[test]
fn classify_small_uncompressed_as_zstd_level_3() {
    let got = classify_codec_issue(CompressionKind::Uncompressed, 4 * 1024 * 1024);
    assert_eq!(
        got,
        Some((
            CodecRecommendation::ZstdLevel3,
            "default compression policy prefers ZSTD level 3",
        ))
    );
}

#[test]
fn ignore_zstd_level_3() {
    let got = classify_codec_issue(CompressionKind::ZstdLevel(3), 1);
    assert_eq!(got, None);
}

#[test]
fn prefer_lz4_for_many_small_snappy_byte_array_chunks_matches_file6_like_pattern() {
    // Aggregate ratio about 0.64, within the moderate band.
    let prefer = prefer_lz4_for_many_small_snappy_byte_array_chunks(
        PhysicalKind::ByteArray,
        240,
        99_480_415,
        414_501,
        63_269_544,
        Some(CompressionKind::Snappy),
    );
    assert!(prefer);
}

#[test]
fn prefer_lz4_for_many_small_snappy_byte_array_chunks_rejects_too_compressible() {
    // Aggregate ratio about 0.30, below the moderate band.
    let prefer = prefer_lz4_for_many_small_snappy_byte_array_chunks(
        PhysicalKind::ByteArray,
        240,
        99_480_415,
        414_501,
        29_844_125,
        Some(CompressionKind::Snappy),
    );
    assert!(!prefer);
}

// --- string encoding profiles ----------------------------------------------

#[test]
fn selects_file4_like_large_multi_group_text() {
    let summary = StringColumnSummary {
        total_uncompressed: 163_000_000,
        total_compressed: 72_000_000,
        non_empty_groups: 5,
    };
    assert!(should_prefer_delta_length_byte_array(
        summary,
        Some(LogicalKind::StringLogical),
        "reasoning_content",
        true,
        true,
        false
    ));
}

#[test]
fn rejects_single_row_group_giant_text() {
    let summary = StringColumnSummary {
        total_uncompressed: 520_000_000,
        total_compressed: 110_000_000,
        non_empty_groups: 1,
    };
    assert!(!should_prefer_delta_length_byte_array(
        summary,
        Some(LogicalKind::StringLogical),
        "content",
        true,
        true,
        false
    ));
}

#[test]
fn selects_file6_like_many_tiny_chunk_text() {
    let summary = StringColumnSummary {
        total_uncompressed: 99_000_000,
        total_compressed: 63_000_000,
        non_empty_groups: 240,
    };
    assert!(should_prefer_delta_length_byte_array(
        summary,
        Some(LogicalKind::StringLogical),
        "content",
        true,
        true,
        false
    ));
}

// --- further rules, one firing case each ------------------------------------

#[test]
fn scalar_plain_float_gets_byte_stream_split() {
    let c = chunk(1000, 8000, 7000, CompressionKind::ZstdLevel(3));
    let meta = file_of(vec![desc("x", PhysicalKind::Double, None)], vec![rg(1000, vec![c])]);
    let diags = diagnostics_of(&meta);
    let hits: Vec<&Diagnostic> =
        diags.iter().filter(|d| d.rule_name == "float-byte-stream-split").collect();
    assert_eq!(hits.len(), 1);
    assert_eq!(hits[0].prescription.directives()[0].text(), "set column x encoding byte_stream_split");
}

#[test]
fn plain_timestamp_gets_delta_encoding() {
    let c = chunk(1000, 8000, 7000, CompressionKind::ZstdLevel(3));
    let meta = file_of(
        vec![desc(
            "ts",
            PhysicalKind::Int64,
            Some(LogicalKind::TimestampLogical {
                utc: true,
                unit: parquet_linter::meta::TimeUnitKind::Micros,
            }),
        )],
        vec![rg(1000, vec![c])],
    );
    let diags = diagnostics_of(&meta);
    let hits: Vec<&Diagnostic> =
        diags.iter().filter(|d| d.rule_name == "timestamp-delta-encoding").collect();
    assert_eq!(hits.len(), 1);
    assert_eq!(hits[0].prescription.directives()[0].text(), "set column ts encoding delta_binary_packed");
}

#[test]
fn uuid_column_without_bloom_filter_gets_one() {
    let c = chunk(1000, 16000, 15000, CompressionKind::ZstdLevel(3));
    let meta = file_of(
        vec![desc("id", PhysicalKind::FixedLenByteArray, Some(LogicalKind::UuidLogical))],
        vec![rg(1000, vec![c])],
    );
    let diags = diagnostics_of(&meta);
    let hits: Vec<&Diagnostic> =
        diags.iter().filter(|d| d.rule_name == "bloom-filter-recommendation").collect();
    assert_eq!(hits.len(), 1);
    let texts: Vec<String> = hits[0].prescription.directives().iter().map(|d| d.text()).collect();
    assert_eq!(texts[0], "set column id bloom_filter true");
    assert!(texts[1].starts_with("set column id bloom_filter_ndv "));
}

#[test]
fn repeated_float_column_counts_as_embedding() {
    let c = chunk(64_000, 8_000_000, 7_000_000, CompressionKind::ZstdLevel(3));
    let mut d = desc("vec", PhysicalKind::Float, None);
    d.max_rep_level = 1;
    let meta = file_of(vec![d], vec![rg(1000, vec![c])]);
    let diags = diagnostics_of(&meta);
    let hits: Vec<&Diagnostic> =
        diags.iter().filter(|d| d.rule_name == "vector-embedding-page-size").collect();
    assert_eq!(hits.len(), 1);
    assert_eq!(hits[0].prescription.directives()[0].text(), "set file data_page_size_limit 262144");
}

#[test]
fn apply_prescription_pipeline_reports_both_error_kinds() {
    match parquet_linter::properties::apply_prescription("garbage") {
        Err(PrescriptionError::Parse(e)) => assert_eq!(e.line, 1),
        _ => panic!("expected a parse error"),
    }
    match parquet_linter::properties::apply_prescription(
        "set file compression zstd(3)\nset file compression snappy",
    ) {
        Err(PrescriptionError::Conflict(c)) => assert_eq!(c.key, "file compression"),
        _ => panic!("expected a conflict"),
    }
    let props = parquet_linter::properties::apply_prescription("set file compression zstd(3)")
        .expect("applies");
    assert_eq!(props.compression, Some(CompressionKind::ZstdLevel(3)));
}

#[test]
fn lint_options_default_leaves_accelerator_rules_out() {
    let options = parquet_linter::LintOptions::default();
    assert!(!options.gpu);
}

#[test]
fn check_wf_accepts_matching_shapes_and_rejects_ragged_row_groups() {
    let meta = file_of(
        vec![desc("a", PhysicalKind::Int64, None)],
        vec![rg(10, vec![chunk(10, 100, 50, CompressionKind::Uncompressed)])],
    );
    assert!(meta.check_wf());
    let ctx = context_for(&meta);
    assert!(ctx.check_wf());

    let ragged = file_of(
        vec![desc("a", PhysicalKind::Int64, None)],
        vec![rg(
            10,
            vec![
                chunk(10, 100, 50, CompressionKind::Uncompressed),
                chunk(10, 100, 50, CompressionKind::Uncompressed),
            ],
        )],
    );
    assert!(!ragged.check_wf());

    let mut ctx2 = context_for(&meta);
    ctx2.cardinalities.clear();
    assert!(!ctx2.check_wf());
}
