//! The prescription language: a textual list of physical-property
//! directives, one per line, with `#` comments.
//!
//! ```text
//! set file <property> <value>
//! set column <dotted.path> <property> <value>
//! ```
//!
//! The module gives the grammar as spec functions (`dir_tokens`,
//! `spec_parse_text`), verified parsing and serialization against them,
//! conflict validation, and the round-trip law that one
//! parse/serialize cycle is idempotent.

use crate::strutil::{
    dec_seq, dec_val, is_dec, is_digit, is_ws, join_char, lemma_dec_roundtrip, lemma_split_join,
    lemma_strip_comment_clean, lines_str, parse_u64_span, parse_u64_str, spec_lines, split_char,
    str_eq, strip_comment, strip_comment_str, tokenize, tokenize_str, u64_to_string,
    usize_to_string,
};
use vstd::prelude::*;

verus! {

/// Compression codec a directive can request.
#[derive(Debug, Clone, Copy, PartialEq, Eq, Structural)]
pub enum Codec {
    Uncompressed,
    Snappy,
    Gzip(u8),
    Brotli(u8),
    Zstd(i32),
    Lz4Raw,
}

/// Data-page encoding a directive can request (dictionary and
/// repetition/definition-level encodings are not selectable).
#[derive(Debug, Clone, Copy, PartialEq, Eq, Structural)]
pub enum DataEncoding {
    Plain,
    DeltaBinaryPacked,
    DeltaLengthByteArray,
    DeltaByteArray,
    ByteStreamSplit,
}

/// Statistics level a directive can request.
#[derive(Debug, Clone, Copy, PartialEq, Eq, Structural)]
pub enum StatisticsConfig {
    Disabled,
    Chunk,
    Page,
}

/// A dotted column path, one string per nesting level.
#[derive(Debug)]
pub struct ColPath {
    pub parts: Vec<String>,
}

impl View for ColPath {
    type V = Seq<Seq<char>>;

    open spec fn view(&self) -> Seq<Seq<char>> {
        self.parts.deep_view()
    }
}

impl DeepView for ColPath {
    type V = Seq<Seq<char>>;

    open spec fn deep_view(&self) -> Seq<Seq<char>> {
        self.view()
    }
}

impl ColPath {
    pub fn new(parts: Vec<String>) -> (r: ColPath)
        ensures
            r@ == parts.deep_view(),
    {
        ColPath { parts }
    }

    /// Copies the path.
    pub fn dup(&self) -> (r: ColPath)
        ensures
            r@ == self@,
    {
        broadcast use vstd::std_specs::vec::vec_clone_deep_view_proof;

        ColPath { parts: self.parts.clone() }
    }

    /// The dotted rendering of the path.
    pub fn text(&self) -> (r: String)
        ensures
            r@ == path_text(self@),
    {
        let mut out = String::new();
        let mut i: usize = 0;
        if self.parts.len() == 0 {
            proof {
                assert(out@ =~= path_text(self@));
            }
            return out;
        }
        out.append(self.parts[0].as_str());
        i = 1;
        while i < self.parts.len()
            invariant
                1 <= i <= self.parts.len(),
                self.parts.len() >= 1,
                out@ == join_char(self@.take(i as int), '.'),
                self@.len() == self.parts.len(),
            decreases self.parts.len() - i,
        {
            out.append(".");
            out.append(self.parts[i].as_str());
            proof {
                reveal_strlit(".");
                lemma_join_push(self@.take(i as int), self@[i as int], '.');
                assert(self@.take(i + 1 as int).drop_last() =~= self@.take(i as int));
                assert(self@.take(i + 1 as int).last() == self@[i as int]);
                assert(self@.take(i + 1 as int) =~= self@.take(i as int).push(self@[i as int]));
                assert(out@ =~= join_char(self@.take(i + 1 as int), '.'));
            }
            i += 1;
        }
        proof {
            assert(self@.take(self@.len() as int) =~= self@);
        }
        out
    }
}

/// The dotted rendering of a path: its parts joined with `.`.
pub open spec fn path_text(parts: Seq<Seq<char>>) -> Seq<char> {
    join_char(parts, '.')
}

/// Joining one more piece appends a separator and the piece.
pub proof fn lemma_join_push(parts: Seq<Seq<char>>, next: Seq<char>, sep: char)
    requires
        parts.len() >= 1,
    ensures
        join_char(parts.push(next), sep) == join_char(parts, sep) + seq![sep] + next,
    decreases parts.len(),
{
    let p2 = parts.push(next);
    assert(p2.len() == parts.len() + 1);
    assert(p2[0] == parts[0]);
    if parts.len() == 1 {
        assert(p2.drop_first() =~= seq![next]);
        assert(join_char(seq![next], sep) == next);
        assert(join_char(p2, sep) == p2[0] + seq![sep] + join_char(p2.drop_first(), sep));
        assert(join_char(p2, sep) =~= parts[0] + seq![sep] + next);
    } else {
        lemma_join_push(parts.drop_first(), next, sep);
        assert(p2.drop_first() =~= parts.drop_first().push(next));
        assert(join_char(p2, sep) == p2[0] + seq![sep] + join_char(p2.drop_first(), sep));
        assert(join_char(p2.drop_first(), sep) == join_char(parts.drop_first(), sep) + seq![sep]
            + next);
        assert(join_char(parts, sep) == parts[0] + seq![sep] + join_char(parts.drop_first(), sep));
        assert(join_char(p2, sep) =~= join_char(parts, sep) + seq![sep] + next);
    }
}

/// A bloom-filter false-positive probability, kept as its decimal text.
/// The library never computes with it; it is handed through to the
/// writer configuration.
#[derive(Debug)]
pub struct FppValue {
    pub token: String,
}

impl View for FppValue {
    type V = Seq<char>;

    open spec fn view(&self) -> Seq<char> {
        self.token@
    }
}

impl FppValue {
    pub fn new(token: String) -> (r: FppValue)
        ensures
            r@ == token@,
    {
        FppValue { token }
    }

    pub fn dup(&self) -> (r: FppValue)
        ensures
            r@ == self@,
    {
        FppValue { token: self.token.clone() }
    }
}

/// One physical-property change.
#[derive(Debug)]
pub enum Directive {
    SetFileCompression(Codec),
    SetFileMaxRowGroupSize(usize),
    SetFileDataPageSizeLimit(usize),
    SetFileStatisticsTruncateLength(Option<usize>),
    SetColumnCompression(ColPath, Codec),
    SetColumnEncoding(ColPath, DataEncoding),
    SetColumnDictionary(ColPath, bool),
    SetColumnDictionaryPageSizeLimit(ColPath, usize),
    SetColumnStatistics(ColPath, StatisticsConfig),
    SetColumnBloomFilter(ColPath, bool),
    SetColumnBloomFilterNdv(ColPath, u64),
    SetColumnBloomFilterFpp(ColPath, FppValue),
}

/// The mathematical shape of a directive: paths are sequences of
/// character sequences, the probability is its character sequence.
#[verifier::ext_equal]
pub enum DirectiveV {
    SetFileCompression(Codec),
    SetFileMaxRowGroupSize(usize),
    SetFileDataPageSizeLimit(usize),
    SetFileStatisticsTruncateLength(Option<usize>),
    SetColumnCompression(Seq<Seq<char>>, Codec),
    SetColumnEncoding(Seq<Seq<char>>, DataEncoding),
    SetColumnDictionary(Seq<Seq<char>>, bool),
    SetColumnDictionaryPageSizeLimit(Seq<Seq<char>>, usize),
    SetColumnStatistics(Seq<Seq<char>>, StatisticsConfig),
    SetColumnBloomFilter(Seq<Seq<char>>, bool),
    SetColumnBloomFilterNdv(Seq<Seq<char>>, u64),
    SetColumnBloomFilterFpp(Seq<Seq<char>>, Seq<char>),
}

impl View for Directive {
    type V = DirectiveV;

    open spec fn view(&self) -> DirectiveV {
        match self {
            Directive::SetFileCompression(c) => DirectiveV::SetFileCompression(*c),
            Directive::SetFileMaxRowGroupSize(n) => DirectiveV::SetFileMaxRowGroupSize(*n),
            Directive::SetFileDataPageSizeLimit(n) => DirectiveV::SetFileDataPageSizeLimit(*n),
            Directive::SetFileStatisticsTruncateLength(v) => {
                DirectiveV::SetFileStatisticsTruncateLength(*v)
            },
            Directive::SetColumnCompression(p, c) => DirectiveV::SetColumnCompression(p@, *c),
            Directive::SetColumnEncoding(p, e) => DirectiveV::SetColumnEncoding(p@, *e),
            Directive::SetColumnDictionary(p, b) => DirectiveV::SetColumnDictionary(p@, *b),
            Directive::SetColumnDictionaryPageSizeLimit(p, n) => {
                DirectiveV::SetColumnDictionaryPageSizeLimit(p@, *n)
            },
            Directive::SetColumnStatistics(p, s) => DirectiveV::SetColumnStatistics(p@, *s),
            Directive::SetColumnBloomFilter(p, b) => DirectiveV::SetColumnBloomFilter(p@, *b),
            Directive::SetColumnBloomFilterNdv(p, n) => DirectiveV::SetColumnBloomFilterNdv(p@, *n),
            Directive::SetColumnBloomFilterFpp(p, f) => DirectiveV::SetColumnBloomFilterFpp(p@, f@),
        }
    }
}

impl DeepView for Directive {
    type V = DirectiveV;

    open spec fn deep_view(&self) -> DirectiveV {
        self.view()
    }
}

impl Directive {
    /// Copies the directive.
    pub fn dup(&self) -> (r: Directive)
        ensures
            r@ == self@,
    {
        match self {
            Directive::SetFileCompression(c) => Directive::SetFileCompression(*c),
            Directive::SetFileMaxRowGroupSize(n) => Directive::SetFileMaxRowGroupSize(*n),
            Directive::SetFileDataPageSizeLimit(n) => Directive::SetFileDataPageSizeLimit(*n),
            Directive::SetFileStatisticsTruncateLength(v) => {
                Directive::SetFileStatisticsTruncateLength(*v)
            },
            Directive::SetColumnCompression(p, c) => Directive::SetColumnCompression(p.dup(), *c),
            Directive::SetColumnEncoding(p, e) => Directive::SetColumnEncoding(p.dup(), *e),
            Directive::SetColumnDictionary(p, b) => Directive::SetColumnDictionary(p.dup(), *b),
            Directive::SetColumnDictionaryPageSizeLimit(p, n) => {
                Directive::SetColumnDictionaryPageSizeLimit(p.dup(), *n)
            },
            Directive::SetColumnStatistics(p, s) => Directive::SetColumnStatistics(p.dup(), *s),
            Directive::SetColumnBloomFilter(p, b) => Directive::SetColumnBloomFilter(p.dup(), *b),
            Directive::SetColumnBloomFilterNdv(p, n) => {
                Directive::SetColumnBloomFilterNdv(p.dup(), *n)
            },
            Directive::SetColumnBloomFilterFpp(p, f) => {
                Directive::SetColumnBloomFilterFpp(p.dup(), f.dup())
            },
        }
    }
}

/// A four-piece join, written out.
pub proof fn lemma_join4(a: Seq<char>, b: Seq<char>, c: Seq<char>, d: Seq<char>, sep: char)
    ensures
        join_char(seq![a, b, c, d], sep) =~= a + seq![sep] + b + seq![sep] + c + seq![sep] + d,
{
    let s = seq![a, b, c, d];
    assert(s.drop_first() =~= seq![b, c, d]);
    assert(seq![b, c, d].drop_first() =~= seq![c, d]);
    assert(seq![c, d].drop_first() =~= seq![d]);
    assert(join_char(seq![d], sep) == d);
    assert(join_char(seq![c, d], sep) == c + seq![sep] + join_char(seq![c, d].drop_first(), sep));
    assert(join_char(seq![b, c, d], sep) == b + seq![sep] + join_char(
        seq![b, c, d].drop_first(),
        sep,
    ));
    assert(join_char(s, sep) == a + seq![sep] + join_char(s.drop_first(), sep));
}

/// A five-piece join, written out.
pub proof fn lemma_join5(a: Seq<char>, b: Seq<char>, c: Seq<char>, d: Seq<char>, e: Seq<char>, sep: char)
    ensures
        join_char(seq![a, b, c, d, e], sep) =~= a + seq![sep] + b + seq![sep] + c + seq![sep] + d
            + seq![sep] + e,
{
    let s = seq![a, b, c, d, e];
    assert(s.drop_first() =~= seq![b, c, d, e]);
    lemma_join4(b, c, d, e, sep);
    assert(join_char(s, sep) == a + seq![sep] + join_char(s.drop_first(), sep));
}

/// A character that may stand inside a token: not blank, not a comment
/// mark, not a line break.
pub open spec fn token_char_ok(c: char) -> bool {
    !is_ws(c) && c != '#' && c != '\n'
}

/// A well-formed path part: non-empty, token characters only, no dot.
pub open spec fn part_wf(p: Seq<char>) -> bool {
    p.len() > 0 && forall|i: int| 0 <= i < p.len() ==> token_char_ok(#[trigger] p[i]) && p[i] != '.'
}

/// A well-formed path: at least one well-formed part.
pub open spec fn path_wf(parts: Seq<Seq<char>>) -> bool {
    parts.len() >= 1 && forall|i: int| 0 <= i < parts.len() ==> part_wf(#[trigger] parts[i])
}

/// How many characters of `s` satisfy `q`.
pub open spec fn count_matching(s: Seq<char>, q: spec_fn(char) -> bool) -> int
    decreases s.len(),
{
    if s.len() == 0 {
        0
    } else {
        count_matching(s.drop_last(), q) + if q(s.last()) {
            1int
        } else {
            0int
        }
    }
}

/// A well-formed probability token: digits with at most one dot and at
/// least one digit.
pub open spec fn fpp_wf(t: Seq<char>) -> bool {
    &&& t.len() > 0
    &&& forall|i: int| 0 <= i < t.len() ==> is_digit(#[trigger] t[i]) || t[i] == '.'
    &&& count_matching(t, |c: char| c == '.') <= 1
    &&& count_matching(t, |c: char| is_digit(c)) >= 1
}

/// A directive the grammar can express: levels in range, path and
/// probability tokens well formed.
pub open spec fn dir_wf(d: DirectiveV) -> bool {
    match d {
        DirectiveV::SetFileCompression(c) => codec_wf(c),
        DirectiveV::SetFileMaxRowGroupSize(_) => true,
        DirectiveV::SetFileDataPageSizeLimit(_) => true,
        DirectiveV::SetFileStatisticsTruncateLength(_) => true,
        DirectiveV::SetColumnCompression(p, c) => path_wf(p) && codec_wf(c),
        DirectiveV::SetColumnEncoding(p, _) => path_wf(p),
        DirectiveV::SetColumnDictionary(p, _) => path_wf(p),
        DirectiveV::SetColumnDictionaryPageSizeLimit(p, _) => path_wf(p),
        DirectiveV::SetColumnStatistics(p, _) => path_wf(p),
        DirectiveV::SetColumnBloomFilter(p, _) => path_wf(p),
        DirectiveV::SetColumnBloomFilterNdv(p, _) => path_wf(p),
        DirectiveV::SetColumnBloomFilterFpp(p, f) => path_wf(p) && fpp_wf(f),
    }
}

/// Compression levels the grammar accepts.
pub open spec fn codec_wf(c: Codec) -> bool {
    match c {
        Codec::Gzip(l) => l <= 9,
        Codec::Brotli(l) => l <= 11,
        Codec::Zstd(l) => 1 <= l <= 22,
        _ => true,
    }
}

/// The rendering of a codec value.
pub open spec fn codec_text(c: Codec) -> Seq<char> {
    match c {
        Codec::Uncompressed => "uncompressed"@,
        Codec::Snappy => "snappy"@,
        Codec::Lz4Raw => "lz4_raw"@,
        Codec::Gzip(l) => "gzip("@ + dec_seq(l as nat) + ")"@,
        Codec::Brotli(l) => "brotli("@ + dec_seq(l as nat) + ")"@,
        Codec::Zstd(l) => "zstd("@ + dec_seq(l as nat) + ")"@,
    }
}

/// The rendering of an encoding value.
pub open spec fn encoding_text(e: DataEncoding) -> Seq<char> {
    match e {
        DataEncoding::Plain => "plain"@,
        DataEncoding::DeltaBinaryPacked => "delta_binary_packed"@,
        DataEncoding::DeltaLengthByteArray => "delta_length_byte_array"@,
        DataEncoding::DeltaByteArray => "delta_byte_array"@,
        DataEncoding::ByteStreamSplit => "byte_stream_split"@,
    }
}

/// The rendering of a statistics level.
pub open spec fn stats_text(s: StatisticsConfig) -> Seq<char> {
    match s {
        StatisticsConfig::Disabled => "none"@,
        StatisticsConfig::Chunk => "chunk"@,
        StatisticsConfig::Page => "page"@,
    }
}

/// The rendering of a boolean value.
pub open spec fn bool_text(b: bool) -> Seq<char> {
    if b {
        "true"@
    } else {
        "false"@
    }
}

/// The rendering of a truncation length.
pub open spec fn trunc_text(v: Option<usize>) -> Seq<char> {
    match v {
        Option::Some(n) => dec_seq(n as nat),
        Option::None => "none"@,
    }
}

/// The token list of a directive line.
pub open spec fn dir_tokens(d: DirectiveV) -> Seq<Seq<char>> {
    match d {
        DirectiveV::SetFileCompression(c) => seq!["set"@, "file"@, "compression"@, codec_text(c)],
        DirectiveV::SetFileMaxRowGroupSize(n) => {
            seq!["set"@, "file"@, "max_row_group_size"@, dec_seq(n as nat)]
        },
        DirectiveV::SetFileDataPageSizeLimit(n) => {
            seq!["set"@, "file"@, "data_page_size_limit"@, dec_seq(n as nat)]
        },
        DirectiveV::SetFileStatisticsTruncateLength(v) => {
            seq!["set"@, "file"@, "statistics_truncate_length"@, trunc_text(v)]
        },
        DirectiveV::SetColumnCompression(p, c) => {
            seq!["set"@, "column"@, path_text(p), "compression"@, codec_text(c)]
        },
        DirectiveV::SetColumnEncoding(p, e) => {
            seq!["set"@, "column"@, path_text(p), "encoding"@, encoding_text(e)]
        },
        DirectiveV::SetColumnDictionary(p, b) => {
            seq!["set"@, "column"@, path_text(p), "dictionary"@, bool_text(b)]
        },
        DirectiveV::SetColumnDictionaryPageSizeLimit(p, n) => {
            seq!["set"@, "column"@, path_text(p), "dictionary_page_size_limit"@, dec_seq(n as nat)]
        },
        DirectiveV::SetColumnStatistics(p, s) => {
            seq!["set"@, "column"@, path_text(p), "statistics"@, stats_text(s)]
        },
        DirectiveV::SetColumnBloomFilter(p, b) => {
            seq!["set"@, "column"@, path_text(p), "bloom_filter"@, bool_text(b)]
        },
        DirectiveV::SetColumnBloomFilterNdv(p, n) => {
            seq!["set"@, "column"@, path_text(p), "bloom_filter_ndv"@, dec_seq(n as nat)]
        },
        DirectiveV::SetColumnBloomFilterFpp(p, f) => {
            seq!["set"@, "column"@, path_text(p), "bloom_filter_fpp"@, f]
        },
    }
}

/// The rendering of a directive: its tokens joined by single blanks.
pub open spec fn dir_text(d: DirectiveV) -> Seq<char> {
    join_char(dir_tokens(d), ' ')
}

/// The rendering of a whole prescription: directive lines joined by
/// newlines.
pub open spec fn presc_text(ds: Seq<DirectiveV>) -> Seq<char> {
    join_char(ds.map(|i: int, d: DirectiveV| dir_text(d)), '\n')
}

impl Codec {
    /// The textual form of this codec value.
    pub fn text(&self) -> (r: String)
        requires
            codec_wf(*self),
        ensures
            r@ == codec_text(*self),
    {
        match self {
            Codec::Uncompressed => "uncompressed".to_owned(),
            Codec::Snappy => "snappy".to_owned(),
            Codec::Lz4Raw => "lz4_raw".to_owned(),
            Codec::Gzip(l) => {
                let mut s = "gzip(".to_owned();
                s.append(u64_to_string(*l as u64).as_str());
                s.append(")");
                proof {
                    assert(s@ =~= codec_text(*self));
                }
                s
            },
            Codec::Brotli(l) => {
                let mut s = "brotli(".to_owned();
                s.append(u64_to_string(*l as u64).as_str());
                s.append(")");
                proof {
                    assert(s@ =~= codec_text(*self));
                }
                s
            },
            Codec::Zstd(l) => {
                let mut s = "zstd(".to_owned();
                s.append(u64_to_string(*l as u64).as_str());
                s.append(")");
                proof {
                    assert(s@ =~= codec_text(*self));
                }
                s
            },
        }
    }
}

impl DataEncoding {
    /// The textual form of this encoding value.
    pub fn text(&self) -> (r: String)
        ensures
            r@ == encoding_text(*self),
    {
        match self {
            DataEncoding::Plain => "plain".to_owned(),
            DataEncoding::DeltaBinaryPacked => "delta_binary_packed".to_owned(),
            DataEncoding::DeltaLengthByteArray => "delta_length_byte_array".to_owned(),
            DataEncoding::DeltaByteArray => "delta_byte_array".to_owned(),
            DataEncoding::ByteStreamSplit => "byte_stream_split".to_owned(),
        }
    }
}

impl StatisticsConfig {
    /// The textual form of this statistics level.
    pub fn text(&self) -> (r: String)
        ensures
            r@ == stats_text(*self),
    {
        match self {
            StatisticsConfig::Disabled => "none".to_owned(),
            StatisticsConfig::Chunk => "chunk".to_owned(),
            StatisticsConfig::Page => "page".to_owned(),
        }
    }
}

/// The textual form of a boolean directive value.
pub fn bool_to_text(b: bool) -> (r: String)
    ensures
        r@ == bool_text(b),
{
    if b {
        "true".to_owned()
    } else {
        "false".to_owned()
    }
}

/// Renders `set file <prop> <value>`.
fn file_dir_line(prop: &str, value: &str) -> (r: String)
    ensures
        r@ =~= "set"@ + seq![' '] + "file"@ + seq![' '] + prop@ + seq![' '] + value@,
{
    let mut s = "set".to_owned();
    s.append(" ");
    s.append("file");
    s.append(" ");
    s.append(prop);
    s.append(" ");
    s.append(value);
    proof {
        reveal_strlit(" ");
        assert(" "@ =~= seq![' ']);
    }
    s
}

/// Renders `set column <path> <prop> <value>`.
fn column_dir_line(path: &ColPath, prop: &str, value: &str) -> (r: String)
    ensures
        r@ =~= "set"@ + seq![' '] + "column"@ + seq![' '] + path_text(path@) + seq![' '] + prop@
            + seq![' '] + value@,
{
    let mut s = "set".to_owned();
    s.append(" ");
    s.append("column");
    s.append(" ");
    s.append(path.text().as_str());
    s.append(" ");
    s.append(prop);
    s.append(" ");
    s.append(value);
    proof {
        reveal_strlit(" ");
        assert(" "@ =~= seq![' ']);
    }
    s
}

impl Directive {
    /// The line of prescription text that states this directive.
    pub fn text(&self) -> (r: String)
        requires
            dir_wf(self@),
        ensures
            r@ == dir_text(self@),
    {
        let r = match self {
            Directive::SetFileCompression(c) => {
                proof {
                    lemma_join4("set"@, "file"@, "compression"@, codec_text(*c), ' ');
                }
                file_dir_line("compression", c.text().as_str())
            },
            Directive::SetFileMaxRowGroupSize(n) => {
                proof {
                    lemma_join4("set"@, "file"@, "max_row_group_size"@, dec_seq(*n as nat), ' ');
                }
                file_dir_line("max_row_group_size", usize_to_string(*n).as_str())
            },
            Directive::SetFileDataPageSizeLimit(n) => {
                proof {
                    lemma_join4("set"@, "file"@, "data_page_size_limit"@, dec_seq(*n as nat), ' ');
                }
                file_dir_line("data_page_size_limit", usize_to_string(*n).as_str())
            },
            Directive::SetFileStatisticsTruncateLength(v) => {
                proof {
                    lemma_join4(
                        "set"@,
                        "file"@,
                        "statistics_truncate_length"@,
                        trunc_text(*v),
                        ' ',
                    );
                }
                match v {
                    Option::Some(n) => file_dir_line(
                        "statistics_truncate_length",
                        usize_to_string(*n).as_str(),
                    ),
                    Option::None => file_dir_line("statistics_truncate_length", "none"),
                }
            },
            Directive::SetColumnCompression(p, c) => {
                proof {
                    lemma_join5("set"@, "column"@, path_text(p@), "compression"@, codec_text(*c), ' ');
                }
                column_dir_line(p, "compression", c.text().as_str())
            },
            Directive::SetColumnEncoding(p, e) => {
                proof {
                    lemma_join5(
                        "set"@,
                        "column"@,
                        path_text(p@),
                        "encoding"@,
                        encoding_text(*e),
                        ' ',
                    );
                }
                column_dir_line(p, "encoding", e.text().as_str())
            },
            Directive::SetColumnDictionary(p, b) => {
                proof {
                    lemma_join5("set"@, "column"@, path_text(p@), "dictionary"@, bool_text(*b), ' ');
                }
                column_dir_line(p, "dictionary", bool_to_text(*b).as_str())
            },
            Directive::SetColumnDictionaryPageSizeLimit(p, n) => {
                proof {
                    lemma_join5(
                        "set"@,
                        "column"@,
                        path_text(p@),
                        "dictionary_page_size_limit"@,
                        dec_seq(*n as nat),
                        ' ',
                    );
                }
                column_dir_line(p, "dictionary_page_size_limit", usize_to_string(*n).as_str())
            },
            Directive::SetColumnStatistics(p, s) => {
                proof {
                    lemma_join5(
                        "set"@,
                        "column"@,
                        path_text(p@),
                        "statistics"@,
                        stats_text(*s),
                        ' ',
                    );
                }
                column_dir_line(p, "statistics", s.text().as_str())
            },
            Directive::SetColumnBloomFilter(p, b) => {
                proof {
                    lemma_join5(
                        "set"@,
                        "column"@,
                        path_text(p@),
                        "bloom_filter"@,
                        bool_text(*b),
                        ' ',
                    );
                }
                column_dir_line(p, "bloom_filter", bool_to_text(*b).as_str())
            },
            Directive::SetColumnBloomFilterNdv(p, n) => {
                proof {
                    lemma_join5(
                        "set"@,
                        "column"@,
                        path_text(p@),
                        "bloom_filter_ndv"@,
                        dec_seq(*n as nat),
                        ' ',
                    );
                }
                column_dir_line(p, "bloom_filter_ndv", u64_to_string(*n).as_str())
            },
            Directive::SetColumnBloomFilterFpp(p, f) => {
                proof {
                    lemma_join5("set"@, "column"@, path_text(p@), "bloom_filter_fpp"@, f@, ' ');
                }
                column_dir_line(p, "bloom_filter_fpp", f.token.as_str())
            },
        };
        proof {
            assert(r@ =~= dir_text(self@));
        }
        r
    }
}

/// A syntax error: the 1-based line it was found on, and a description.
#[derive(Debug)]
pub struct ParseError {
    pub line: usize,
    pub message: String,
}

impl ParseError {
    pub fn new(line: usize, message: String) -> (r: ParseError)
        ensures
            r.line == line,
            r.message@ == message@,
    {
        ParseError { line, message }
    }

    /// A one-line description of the error.
    pub fn text(&self) -> (r: String)
    {
        let mut s = "invalid prescription at line ".to_owned();
        s.append(usize_to_string(self.line).as_str());
        s.append(": ");
        s.append(self.message.as_str());
        s
    }
}

/// What a wrapped-level probe (`zstd(3)` and the like) can find.
pub enum WrapParse {
    /// The token does not start with this codec's name and `(`.
    NotThis,
    /// It does, but what follows is not `(<integer>)`.
    Malformed,
    /// A level; range checking is the caller's concern.
    Level(i32),
}

/// A signed 32-bit integer literal: optional sign, then digits.
pub open spec fn spec_parse_i32(s: Seq<char>) -> Option<i32> {
    if s.len() == 0 {
        Option::None
    } else {
        let neg = s[0] == '-';
        let ds = if s[0] == '-' || s[0] == '+' {
            s.drop_first()
        } else {
            s
        };
        if !is_dec(ds) {
            Option::None
        } else if neg {
            if dec_val(ds) <= 0x8000_0000 {
                Option::Some((-(dec_val(ds) as int)) as i32)
            } else {
                Option::None
            }
        } else {
            if dec_val(ds) <= 0x7FFF_FFFF {
                Option::Some(dec_val(ds) as i32)
            } else {
                Option::None
            }
        }
    }
}

/// The result of probing token `t` for the shape `name(<level>)`.
pub open spec fn spec_parse_wrapped(t: Seq<char>, name: Seq<char>) -> WrapParse {
    if !(t.len() > name.len() && t.take(name.len() as int) == name && t[name.len() as int] == '(') {
        WrapParse::NotThis
    } else {
        let rest = t.skip(name.len() as int + 1);
        if !(rest.len() >= 1 && rest.last() == ')') {
            WrapParse::Malformed
        } else {
            match spec_parse_i32(rest.drop_last()) {
                Option::Some(v) => WrapParse::Level(v),
                Option::None => WrapParse::Malformed,
            }
        }
    }
}

/// The codec a value token denotes, if any.
pub open spec fn spec_parse_codec(t: Seq<char>) -> Option<Codec> {
    if t == "uncompressed"@ {
        Option::Some(Codec::Uncompressed)
    } else if t == "snappy"@ {
        Option::Some(Codec::Snappy)
    } else if t == "lz4_raw"@ {
        Option::Some(Codec::Lz4Raw)
    } else {
        match spec_parse_wrapped(t, "zstd"@) {
            WrapParse::Level(l) => if 1 <= l <= 22 {
                Option::Some(Codec::Zstd(l))
            } else {
                Option::None
            },
            WrapParse::Malformed => Option::None,
            WrapParse::NotThis => match spec_parse_wrapped(t, "gzip"@) {
                WrapParse::Level(l) => if 0 <= l <= 9 {
                    Option::Some(Codec::Gzip(l as u8))
                } else {
                    Option::None
                },
                WrapParse::Malformed => Option::None,
                WrapParse::NotThis => match spec_parse_wrapped(t, "brotli"@) {
                    WrapParse::Level(l) => if 0 <= l <= 11 {
                        Option::Some(Codec::Brotli(l as u8))
                    } else {
                        Option::None
                    },
                    WrapParse::Malformed => Option::None,
                    WrapParse::NotThis => Option::None,
                },
            },
        }
    }
}

/// The encoding a value token denotes, if any.
pub open spec fn spec_parse_encoding(t: Seq<char>) -> Option<DataEncoding> {
    if t == "plain"@ {
        Option::Some(DataEncoding::Plain)
    } else if t == "delta_binary_packed"@ {
        Option::Some(DataEncoding::DeltaBinaryPacked)
    } else if t == "delta_length_byte_array"@ {
        Option::Some(DataEncoding::DeltaLengthByteArray)
    } else if t == "delta_byte_array"@ {
        Option::Some(DataEncoding::DeltaByteArray)
    } else if t == "byte_stream_split"@ {
        Option::Some(DataEncoding::ByteStreamSplit)
    } else {
        Option::None
    }
}

/// The statistics level a value token denotes, if any.
pub open spec fn spec_parse_stats(t: Seq<char>) -> Option<StatisticsConfig> {
    if t == "none"@ {
        Option::Some(StatisticsConfig::Disabled)
    } else if t == "chunk"@ {
        Option::Some(StatisticsConfig::Chunk)
    } else if t == "page"@ {
        Option::Some(StatisticsConfig::Page)
    } else {
        Option::None
    }
}

/// The boolean a value token denotes, if any.
pub open spec fn spec_parse_bool(t: Seq<char>) -> Option<bool> {
    if t == "true"@ {
        Option::Some(true)
    } else if t == "false"@ {
        Option::Some(false)
    } else {
        Option::None
    }
}

/// A usize in decimal, if the token is one.
pub open spec fn spec_parse_usize(t: Seq<char>) -> Option<usize> {
    if is_dec(t) && dec_val(t) <= usize::MAX {
        Option::Some(dec_val(t) as usize)
    } else {
        Option::None
    }
}

/// A u64 in decimal, if the token is one.
pub open spec fn spec_parse_u64(t: Seq<char>) -> Option<u64> {
    if is_dec(t) && dec_val(t) <= u64::MAX {
        Option::Some(dec_val(t) as u64)
    } else {
        Option::None
    }
}

/// The column path a token denotes: its dot-separated pieces, all
/// non-empty.
pub open spec fn spec_parse_path(t: Seq<char>) -> Option<Seq<Seq<char>>> {
    let parts = split_char(t, '.');
    if forall|i: int| 0 <= i < parts.len() ==> (#[trigger] parts[i]).len() > 0 {
        Option::Some(parts)
    } else {
        Option::None
    }
}

/// A probability token: digits with at most one dot and at least one
/// digit.  Kept as text.
pub open spec fn spec_parse_fpp(t: Seq<char>) -> Option<Seq<char>> {
    if fpp_wf(t) {
        Option::Some(t)
    } else {
        Option::None
    }
}

/// A `set file <property> <value>` directive.
pub open spec fn spec_parse_file_dir(prop: Seq<char>, val: Seq<char>) -> Option<DirectiveV> {
    if prop == "compression"@ {
        match spec_parse_codec(val) {
            Option::Some(c) => Option::Some(DirectiveV::SetFileCompression(c)),
            Option::None => Option::None,
        }
    } else if prop == "max_row_group_size"@ {
        match spec_parse_usize(val) {
            Option::Some(n) => Option::Some(DirectiveV::SetFileMaxRowGroupSize(n)),
            Option::None => Option::None,
        }
    } else if prop == "data_page_size_limit"@ {
        match spec_parse_usize(val) {
            Option::Some(n) => Option::Some(DirectiveV::SetFileDataPageSizeLimit(n)),
            Option::None => Option::None,
        }
    } else if prop == "statistics_truncate_length"@ {
        if val == "none"@ {
            Option::Some(DirectiveV::SetFileStatisticsTruncateLength(Option::None))
        } else {
            match spec_parse_usize(val) {
                Option::Some(n) => Option::Some(
                    DirectiveV::SetFileStatisticsTruncateLength(Option::Some(n)),
                ),
                Option::None => Option::None,
            }
        }
    } else {
        Option::None
    }
}

/// A `set column <path> <property> <value>` directive.
pub open spec fn spec_parse_column_dir(pathtok: Seq<char>, prop: Seq<char>, val: Seq<char>) -> Option<
    DirectiveV,
> {
    match spec_parse_path(pathtok) {
        Option::None => Option::None,
        Option::Some(path) => if prop == "compression"@ {
            match spec_parse_codec(val) {
                Option::Some(c) => Option::Some(DirectiveV::SetColumnCompression(path, c)),
                Option::None => Option::None,
            }
        } else if prop == "encoding"@ {
            match spec_parse_encoding(val) {
                Option::Some(e) => Option::Some(DirectiveV::SetColumnEncoding(path, e)),
                Option::None => Option::None,
            }
        } else if prop == "dictionary"@ {
            match spec_parse_bool(val) {
                Option::Some(b) => Option::Some(DirectiveV::SetColumnDictionary(path, b)),
                Option::None => Option::None,
            }
        } else if prop == "dictionary_page_size_limit"@ {
            match spec_parse_usize(val) {
                Option::Some(n) => Option::Some(
                    DirectiveV::SetColumnDictionaryPageSizeLimit(path, n),
                ),
                Option::None => Option::None,
            }
        } else if prop == "statistics"@ {
            match spec_parse_stats(val) {
                Option::Some(s) => Option::Some(DirectiveV::SetColumnStatistics(path, s)),
                Option::None => Option::None,
            }
        } else if prop == "bloom_filter"@ {
            match spec_parse_bool(val) {
                Option::Some(b) => Option::Some(DirectiveV::SetColumnBloomFilter(path, b)),
                Option::None => Option::None,
            }
        } else if prop == "bloom_filter_ndv"@ {
            match spec_parse_u64(val) {
                Option::Some(n) => Option::Some(DirectiveV::SetColumnBloomFilterNdv(path, n)),
                Option::None => Option::None,
            }
        } else if prop == "bloom_filter_fpp"@ {
            match spec_parse_fpp(val) {
                Option::Some(f) => Option::Some(DirectiveV::SetColumnBloomFilterFpp(path, f)),
                Option::None => Option::None,
            }
        } else {
            Option::None
        },
    }
}

/// The directive a token list denotes, if any.
pub open spec fn spec_parse_tokens(toks: Seq<Seq<char>>) -> Option<DirectiveV> {
    if toks.len() < 2 {
        Option::None
    } else if toks[0] != "set"@ {
        Option::None
    } else if toks[1] == "file"@ {
        if toks.len() != 4 {
            Option::None
        } else {
            spec_parse_file_dir(toks[2], toks[3])
        }
    } else if toks[1] == "column"@ {
        if toks.len() != 5 {
            Option::None
        } else {
            spec_parse_column_dir(toks[2], toks[3], toks[4])
        }
    } else {
        Option::None
    }
}

/// What one line of prescription text means.
pub enum LineParse {
    /// Nothing but blank space or a comment.
    Blank,
    /// A directive.
    Dir(DirectiveV),
    /// A syntax error.
    Bad,
}

/// The meaning of one line: its tokens after comment stripping.
pub open spec fn spec_parse_line(line: Seq<char>) -> LineParse {
    let toks = tokenize(strip_comment(line));
    if toks.len() == 0 {
        LineParse::Blank
    } else {
        match spec_parse_tokens(toks) {
            Option::Some(d) => LineParse::Dir(d),
            Option::None => LineParse::Bad,
        }
    }
}

/// The outcome of parsing a whole text: the directives, or the 0-based
/// index of the first bad line.
#[verifier::ext_equal]
pub enum ParseOutcome {
    Parsed(Seq<DirectiveV>),
    BadLine(int),
}

/// Parses lines `i..` of `ls`.
pub open spec fn spec_parse_from(ls: Seq<Seq<char>>, i: int) -> ParseOutcome
    decreases ls.len() - i,
{
    if i < 0 || i >= ls.len() {
        ParseOutcome::Parsed(Seq::empty())
    } else {
        match spec_parse_line(ls[i]) {
            LineParse::Bad => ParseOutcome::BadLine(i),
            LineParse::Blank => spec_parse_from(ls, i + 1),
            LineParse::Dir(d) => match spec_parse_from(ls, i + 1) {
                ParseOutcome::Parsed(ds) => ParseOutcome::Parsed(seq![d] + ds),
                ParseOutcome::BadLine(e) => ParseOutcome::BadLine(e),
            },
        }
    }
}

/// The meaning of a whole prescription text.
pub open spec fn spec_parse_text(t: Seq<char>) -> ParseOutcome {
    spec_parse_from(spec_lines(t), 0)
}

/// Probes a value token for the form `<codec>(<level>)`.  `Ok(None)`
/// means the token is not of this codec's shape at all; an error means
/// it is, but malformed.
pub fn parse_wrapped_i32(value: &str, codec: &str, line_no: usize) -> (r: Result<
    Option<i32>,
    ParseError,
>)
    ensures
        match r {
            Ok(Option::None) => spec_parse_wrapped(value@, codec@) is NotThis,
            Ok(Option::Some(l)) => spec_parse_wrapped(value@, codec@) == WrapParse::Level(l),
            Err(e) => spec_parse_wrapped(value@, codec@) is Malformed && e.line == line_no,
        },
{
    let vn = value.unicode_len();
    let cn = codec.unicode_len();
    if vn <= cn {
        return Ok(None);
    }
    let prefix = value.substring_char(0, cn);
    proof {
        assert(value@.subrange(0, cn as int) =~= value@.take(cn as int));
    }
    if !str_eq(prefix, codec) {
        return Ok(None);
    }
    if value.get_char(cn) != '(' {
        return Ok(None);
    }
    let ghost rest = value@.skip(cn as int + 1);
    proof {
        assert(rest.len() == vn - cn - 1);
    }
    if vn == cn + 1 {
        let mut m = "invalid ".to_owned();
        m.append(codec);
        m.append(" format");
        return Err(ParseError::new(line_no, m));
    }
    if value.get_char(vn - 1) != ')' {
        proof {
            assert(rest.last() == value@[vn - 1]);
        }
        let mut m = "invalid ".to_owned();
        m.append(codec);
        m.append(" format, expected ");
        m.append(codec);
        m.append("(<level>)");
        return Err(ParseError::new(line_no, m));
    }
    proof {
        assert(rest.last() == value@[vn - 1]);
        assert(rest.drop_last() =~= value@.subrange(cn + 1 as int, vn - 1 as int));
    }
    let from: usize = cn + 1;
    let end: usize = vn - 1;
    let ghost inner = value@.subrange(from as int, end as int);
    if from == end {
        let mut m = "invalid ".to_owned();
        m.append(codec);
        m.append(" level");
        return Err(ParseError::new(line_no, m));
    }
    let c0 = value.get_char(from);
    let neg = c0 == '-';
    let signed = neg || c0 == '+';
    let dstart: usize = if signed {
        from + 1
    } else {
        from
    };
    let ghost ds = if signed {
        inner.drop_first()
    } else {
        inner
    };
    proof {
        assert(inner[0] == value@[from as int]);
        if signed {
            assert(ds =~= value@.subrange(dstart as int, end as int));
        } else {
            assert(ds =~= value@.subrange(dstart as int, end as int));
        }
    }
    match parse_u64_span(value, dstart, end) {
        Option::None => {
            let mut m = "invalid ".to_owned();
            m.append(codec);
            m.append(" level");
            Err(ParseError::new(line_no, m))
        },
        Option::Some(v) => {
            if neg {
                if v > 0x8000_0000u64 {
                    let mut m = "invalid ".to_owned();
                    m.append(codec);
                    m.append(" level");
                    Err(ParseError::new(line_no, m))
                } else {
                    let l: i32 = if v == 0x8000_0000u64 {
                        i32::MIN
                    } else {
                        -((v as i64) as i32)
                    };
                    Ok(Some(l))
                }
            } else {
                if v > 0x7FFF_FFFFu64 {
                    let mut m = "invalid ".to_owned();
                    m.append(codec);
                    m.append(" level");
                    Err(ParseError::new(line_no, m))
                } else {
                    Ok(Some(v as i32))
                }
            }
        },
    }
}

/// Parses a compression codec value token.
pub fn parse_codec(value: &str, line_no: usize) -> (r: Result<Codec, ParseError>)
    ensures
        match r {
            Ok(c) => spec_parse_codec(value@) == Option::Some(c),
            Err(e) => spec_parse_codec(value@) is None && e.line == line_no,
        },
{
    if str_eq(value, "uncompressed") {
        return Ok(Codec::Uncompressed);
    }
    if str_eq(value, "snappy") {
        return Ok(Codec::Snappy);
    }
    if str_eq(value, "lz4_raw") {
        return Ok(Codec::Lz4Raw);
    }
    match parse_wrapped_i32(value, "zstd", line_no) {
        Err(e) => {
            return Err(e);
        },
        Ok(Option::Some(l)) => {
            return if 1 <= l && l <= 22 {
                Ok(Codec::Zstd(l))
            } else {
                Err(ParseError::new(line_no, "zstd level must be between 1 and 22".to_owned()))
            };
        },
        Ok(Option::None) => {},
    }
    match parse_wrapped_i32(value, "gzip", line_no) {
        Err(e) => {
            return Err(e);
        },
        Ok(Option::Some(l)) => {
            return if 0 <= l && l <= 9 {
                Ok(Codec::Gzip(l as u8))
            } else {
                Err(ParseError::new(line_no, "gzip level must be between 0 and 9".to_owned()))
            };
        },
        Ok(Option::None) => {},
    }
    match parse_wrapped_i32(value, "brotli", line_no) {
        Err(e) => {
            return Err(e);
        },
        Ok(Option::Some(l)) => {
            return if 0 <= l && l <= 11 {
                Ok(Codec::Brotli(l as u8))
            } else {
                Err(ParseError::new(line_no, "brotli level must be between 0 and 11".to_owned()))
            };
        },
        Ok(Option::None) => {},
    }
    let mut m = "unknown codec '".to_owned();
    m.append(value);
    m.append("'");
    Err(ParseError::new(line_no, m))
}

/// Parses a data-encoding value token.
pub fn parse_data_encoding(value: &str, line_no: usize) -> (r: Result<DataEncoding, ParseError>)
    ensures
        match r {
            Ok(e) => spec_parse_encoding(value@) == Option::Some(e),
            Err(e) => spec_parse_encoding(value@) is None && e.line == line_no,
        },
{
    if str_eq(value, "plain") {
        Ok(DataEncoding::Plain)
    } else if str_eq(value, "delta_binary_packed") {
        Ok(DataEncoding::DeltaBinaryPacked)
    } else if str_eq(value, "delta_length_byte_array") {
        Ok(DataEncoding::DeltaLengthByteArray)
    } else if str_eq(value, "delta_byte_array") {
        Ok(DataEncoding::DeltaByteArray)
    } else if str_eq(value, "byte_stream_split") {
        Ok(DataEncoding::ByteStreamSplit)
    } else {
        let mut m = "unknown encoding '".to_owned();
        m.append(value);
        m.append("'");
        Err(ParseError::new(line_no, m))
    }
}

/// Parses a statistics-level value token.
pub fn parse_statistics(value: &str, line_no: usize) -> (r: Result<StatisticsConfig, ParseError>)
    ensures
        match r {
            Ok(s) => spec_parse_stats(value@) == Option::Some(s),
            Err(e) => spec_parse_stats(value@) is None && e.line == line_no,
        },
{
    if str_eq(value, "none") {
        Ok(StatisticsConfig::Disabled)
    } else if str_eq(value, "chunk") {
        Ok(StatisticsConfig::Chunk)
    } else if str_eq(value, "page") {
        Ok(StatisticsConfig::Page)
    } else {
        let mut m = "unknown statistics level '".to_owned();
        m.append(value);
        m.append("'");
        Err(ParseError::new(line_no, m))
    }
}

/// Parses a boolean value token.
pub fn parse_bool(value: &str, line_no: usize, property: &str) -> (r: Result<bool, ParseError>)
    ensures
        match r {
            Ok(b) => spec_parse_bool(value@) == Option::Some(b),
            Err(e) => spec_parse_bool(value@) is None && e.line == line_no,
        },
{
    if str_eq(value, "true") {
        Ok(true)
    } else if str_eq(value, "false") {
        Ok(false)
    } else {
        let mut m = "invalid boolean for ".to_owned();
        m.append(property);
        m.append(" ('");
        m.append(value);
        m.append("')");
        Err(ParseError::new(line_no, m))
    }
}

/// Parses an unsigned size value token.
pub fn parse_usize(value: &str, line_no: usize, property: &str) -> (r: Result<usize, ParseError>)
    ensures
        match r {
            Ok(n) => spec_parse_usize(value@) == Option::Some(n),
            Err(e) => spec_parse_usize(value@) is None && e.line == line_no,
        },
{
    match parse_u64_str(value) {
        Option::Some(v) => {
            if v <= usize::MAX as u64 {
                Ok(v as usize)
            } else {
                let mut m = "invalid integer for ".to_owned();
                m.append(property);
                m.append(" ('");
                m.append(value);
                m.append("')");
                Err(ParseError::new(line_no, m))
            }
        },
        Option::None => {
            let mut m = "invalid integer for ".to_owned();
            m.append(property);
            m.append(" ('");
            m.append(value);
            m.append("')");
            Err(ParseError::new(line_no, m))
        },
    }
}

/// Parses a 64-bit count value token.
pub fn parse_u64(value: &str, line_no: usize, property: &str) -> (r: Result<u64, ParseError>)
    ensures
        match r {
            Ok(n) => spec_parse_u64(value@) == Option::Some(n),
            Err(e) => spec_parse_u64(value@) is None && e.line == line_no,
        },
{
    match parse_u64_str(value) {
        Option::Some(v) => Ok(v),
        Option::None => {
            let mut m = "invalid integer for ".to_owned();
            m.append(property);
            m.append(" ('");
            m.append(value);
            m.append("')");
            Err(ParseError::new(line_no, m))
        },
    }
}

/// Parses a probability value token (digits with at most one dot).
pub fn parse_fpp(value: &str, line_no: usize, property: &str) -> (r: Result<FppValue, ParseError>)
    ensures
        match r {
            Ok(f) => spec_parse_fpp(value@) == Option::Some(f@),
            Err(e) => spec_parse_fpp(value@) is None && e.line == line_no,
        },
{
    let n = value.unicode_len();
    let mut dots: usize = 0;
    let mut digits: usize = 0;
    let mut i: usize = 0;
    let mut bad = n == 0;
    while i < n
        invariant
            n == value@.len(),
            0 <= i <= n,
            dots <= i,
            digits <= i,
            dots == count_matching(value@.take(i as int), |c: char| c == '.'),
            digits == count_matching(value@.take(i as int), |c: char| is_digit(c)),
            bad == (n == 0 || exists|k: int|
                0 <= k < i && !(is_digit(#[trigger] value@[k]) || value@[k] == '.')),
        decreases n - i,
    {
        let c = value.get_char(i);
        proof {
            assert(value@.take(i + 1 as int).drop_last() =~= value@.take(i as int));
            assert(value@.take(i + 1 as int).last() == value@[i as int]);
        }
        if c == '.' {
            dots += 1;
        } else if '0' <= c && c <= '9' {
            digits += 1;
        } else {
            bad = true;
        }
        i += 1;
    }
    proof {
        assert(value@.take(n as int) =~= value@);
    }
    if !bad && dots <= 1 && digits >= 1 {
        proof {
            assert(fpp_wf(value@));
        }
        Ok(FppValue::new(value.to_owned()))
    } else {
        proof {
            assert(!fpp_wf(value@));
        }
        let mut m = "invalid probability for ".to_owned();
        m.append(property);
        m.append(" ('");
        m.append(value);
        m.append("')");
        Err(ParseError::new(line_no, m))
    }
}

/// Parses a dotted column path token.
pub fn parse_column_path(value: &str, line_no: usize) -> (r: Result<ColPath, ParseError>)
    ensures
        match r {
            Ok(p) => spec_parse_path(value@) == Option::Some(p@),
            Err(e) => spec_parse_path(value@) is None && e.line == line_no,
        },
{
    let n = value.unicode_len();
    let mut parts: Vec<String> = Vec::new();
    let mut i: usize = 0;
    proof {
        assert(value@.skip(0) =~= value@);
    }
    loop
        invariant
            n == value@.len(),
            0 <= i <= n,
            split_char(value@, '.') == parts.deep_view() + split_char(value@.skip(i as int), '.'),
            forall|k: int| 0 <= k < parts.deep_view().len() ==> (#[trigger] parts.deep_view()[k]).len() > 0,
        decreases n - i,
    {
        let j = crate::strutil::find_char_from(value, i, '.');
        let piece = value.substring_char(i, j).to_owned();
        proof {
            crate::strutil::lemma_split_char_step(value@, '.', i as int, j as int);
            assert(piece@ =~= value@.subrange(i as int, j as int));
        }
        if piece.as_str().unicode_len() == 0 {
            proof {
                let all = split_char(value@, '.');
                let here = split_char(value@.skip(i as int), '.');
                crate::strutil::lemma_split_char_len(value@.skip(i as int), '.');
                assert(here[0] == value@.subrange(i as int, j as int));
                assert(all[parts.deep_view().len() as int] == here[0]);
                assert((all[parts.deep_view().len() as int]).len() == 0);
                assert(spec_parse_path(value@) is None);
            }
            let mut m = "invalid column path '".to_owned();
            m.append(value);
            m.append("'");
            return Err(ParseError::new(line_no, m));
        }
        let ghost old_parts = parts.deep_view();
        parts.push(piece);
        proof {
            assert(parts.deep_view() =~= old_parts.push(piece@));
        }
        if j == n {
            proof {
                let all = split_char(value@, '.');
                assert(split_char(value@.skip(i as int), '.') == seq![
                    value@.subrange(i as int, j as int),
                ]);
                assert(parts.deep_view() =~= all);
                assert(forall|k: int| 0 <= k < all.len() ==> (#[trigger] all[k]).len() > 0);
                assert(spec_parse_path(value@) == Option::Some(all));
            }
            let p = ColPath::new(parts);
            proof {
                assert(p@ =~= split_char(value@, '.'));
            }
            return Ok(p);
        }
        proof {
            let here = split_char(value@.skip(i as int), '.');
            assert(here == seq![value@.subrange(i as int, j as int)] + split_char(
                value@.skip(j + 1 as int),
                '.',
            ));
            assert(parts.deep_view() + split_char(value@.skip(j + 1 as int), '.') =~= old_parts + (
            seq![piece@] + split_char(value@.skip(j + 1 as int), '.')));
        }
        i = j + 1;
    }
}

/// Parses `set file <property> <value>` from its token list.
pub fn parse_file_directive(tokens: &Vec<String>, line_no: usize) -> (r: Result<
    Directive,
    ParseError,
>)
    ensures
        match r {
            Ok(d) => tokens.deep_view().len() == 4 && spec_parse_file_dir(
                tokens.deep_view()[2],
                tokens.deep_view()[3],
            ) == Option::Some(d@),
            Err(e) => (tokens.deep_view().len() != 4 || spec_parse_file_dir(
                tokens.deep_view()[2],
                tokens.deep_view()[3],
            ) is None) && e.line == line_no,
        },
{
    if tokens.len() != 4 {
        return Err(
            ParseError::new(line_no, "file directive must be: set file <property> <value>".to_owned()),
        );
    }
    let prop = &tokens[2];
    let val = &tokens[3];
    if str_eq(prop.as_str(), "compression") {
        match parse_codec(val.as_str(), line_no) {
            Ok(c) => Ok(Directive::SetFileCompression(c)),
            Err(e) => Err(e),
        }
    } else if str_eq(prop.as_str(), "max_row_group_size") {
        match parse_usize(val.as_str(), line_no, prop.as_str()) {
            Ok(n) => Ok(Directive::SetFileMaxRowGroupSize(n)),
            Err(e) => Err(e),
        }
    } else if str_eq(prop.as_str(), "data_page_size_limit") {
        match parse_usize(val.as_str(), line_no, prop.as_str()) {
            Ok(n) => Ok(Directive::SetFileDataPageSizeLimit(n)),
            Err(e) => Err(e),
        }
    } else if str_eq(prop.as_str(), "statistics_truncate_length") {
        if str_eq(val.as_str(), "none") {
            Ok(Directive::SetFileStatisticsTruncateLength(None))
        } else {
            match parse_usize(val.as_str(), line_no, prop.as_str()) {
                Ok(n) => Ok(Directive::SetFileStatisticsTruncateLength(Some(n))),
                Err(e) => Err(e),
            }
        }
    } else {
        let mut m = "unknown file property '".to_owned();
        m.append(prop.as_str());
        m.append("'");
        Err(ParseError::new(line_no, m))
    }
}

/// Parses `set column <path> <property> <value>` from its token list.
pub fn parse_column_directive(tokens: &Vec<String>, line_no: usize) -> (r: Result<
    Directive,
    ParseError,
>)
    ensures
        match r {
            Ok(d) => tokens.deep_view().len() == 5 && spec_parse_column_dir(
                tokens.deep_view()[2],
                tokens.deep_view()[3],
                tokens.deep_view()[4],
            ) == Option::Some(d@),
            Err(e) => (tokens.deep_view().len() != 5 || spec_parse_column_dir(
                tokens.deep_view()[2],
                tokens.deep_view()[3],
                tokens.deep_view()[4],
            ) is None) && e.line == line_no,
        },
{
    if tokens.len() != 5 {
        return Err(
            ParseError::new(
                line_no,
                "column directive must be: set column <column_path> <property> <value>".to_owned(),
            ),
        );
    }
    let column = match parse_column_path(tokens[2].as_str(), line_no) {
        Ok(p) => p,
        Err(e) => {
            return Err(e);
        },
    };
    let ghost spec_path = spec_parse_path(tokens.deep_view()[2])->Some_0;
    proof {
        assert(column@ =~= spec_path);
    }
    let prop = &tokens[3];
    let val = &tokens[4];
    if str_eq(prop.as_str(), "compression") {
        match parse_codec(val.as_str(), line_no) {
            Ok(c) => Ok(Directive::SetColumnCompression(column, c)),
            Err(e) => Err(e),
        }
    } else if str_eq(prop.as_str(), "encoding") {
        match parse_data_encoding(val.as_str(), line_no) {
            Ok(e) => Ok(Directive::SetColumnEncoding(column, e)),
            Err(e) => Err(e),
        }
    } else if str_eq(prop.as_str(), "dictionary") {
        match parse_bool(val.as_str(), line_no, prop.as_str()) {
            Ok(b) => Ok(Directive::SetColumnDictionary(column, b)),
            Err(e) => Err(e),
        }
    } else if str_eq(prop.as_str(), "dictionary_page_size_limit") {
        match parse_usize(val.as_str(), line_no, prop.as_str()) {
            Ok(n) => Ok(Directive::SetColumnDictionaryPageSizeLimit(column, n)),
            Err(e) => Err(e),
        }
    } else if str_eq(prop.as_str(), "statistics") {
        match parse_statistics(val.as_str(), line_no) {
            Ok(s) => Ok(Directive::SetColumnStatistics(column, s)),
            Err(e) => Err(e),
        }
    } else if str_eq(prop.as_str(), "bloom_filter") {
        match parse_bool(val.as_str(), line_no, prop.as_str()) {
            Ok(b) => Ok(Directive::SetColumnBloomFilter(column, b)),
            Err(e) => Err(e),
        }
    } else if str_eq(prop.as_str(), "bloom_filter_ndv") {
        match parse_u64(val.as_str(), line_no, prop.as_str()) {
            Ok(n) => Ok(Directive::SetColumnBloomFilterNdv(column, n)),
            Err(e) => Err(e),
        }
    } else if str_eq(prop.as_str(), "bloom_filter_fpp") {
        match parse_fpp(val.as_str(), line_no, prop.as_str()) {
            Ok(f) => Ok(Directive::SetColumnBloomFilterFpp(column, f)),
            Err(e) => Err(e),
        }
    } else {
        let mut m = "unknown column property '".to_owned();
        m.append(prop.as_str());
        m.append("'");
        Err(ParseError::new(line_no, m))
    }
}

/// Parses one directive line (comments already stripped).
pub fn parse_directive(line: &str, line_no: usize) -> (r: Result<Directive, ParseError>)
    ensures
        match r {
            Ok(d) => spec_parse_tokens(tokenize(line@)) == Option::Some(d@),
            Err(e) => spec_parse_tokens(tokenize(line@)) is None && e.line == line_no,
        },
{
    let tokens = tokenize_str(line);
    proof {
        assert(tokens.deep_view() =~= tokenize(line@));
    }
    if tokens.len() == 0 {
        return Err(ParseError::new(line_no, "empty directive".to_owned()));
    }
    if !str_eq(tokens[0].as_str(), "set") {
        return Err(ParseError::new(line_no, "directive must start with 'set'".to_owned()));
    }
    if tokens.len() < 2 {
        return Err(ParseError::new(line_no, "missing scope after 'set'".to_owned()));
    }
    if str_eq(tokens[1].as_str(), "file") {
        parse_file_directive(&tokens, line_no)
    } else if str_eq(tokens[1].as_str(), "column") {
        parse_column_directive(&tokens, line_no)
    } else {
        let mut m = "unknown scope '".to_owned();
        m.append(tokens[1].as_str());
        m.append("', expected 'file' or 'column'");
        Err(ParseError::new(line_no, m))
    }
}

/// An ordered list of directives.  Order matters for application
/// (later directives win) and is preserved by serialization.
#[derive(Debug)]
pub struct Prescription {
    pub items: Vec<Directive>,
}

impl View for Prescription {
    type V = Seq<DirectiveV>;

    open spec fn view(&self) -> Seq<DirectiveV> {
        self.items.deep_view()
    }
}

impl Prescription {
    /// The empty prescription.
    pub fn new() -> (r: Prescription)
        ensures
            r@ =~= Seq::<DirectiveV>::empty(),
    {
        Prescription { items: Vec::new() }
    }

    /// Appends one directive.
    pub fn push(&mut self, directive: Directive)
        ensures
            final(self)@ =~= old(self)@.push(directive@),
    {
        self.items.push(directive);
    }

    /// The directives, in order.
    pub fn directives(&self) -> (r: &Vec<Directive>)
        ensures
            r.deep_view() == self@,
    {
        &self.items
    }

    /// Whether the prescription holds no directive.
    pub fn is_empty(&self) -> (r: bool)
        ensures
            r == (self@.len() == 0),
    {
        self.items.len() == 0
    }

    /// Appends all of `other`'s directives, in order.
    pub fn extend(&mut self, other: Prescription)
        ensures
            final(self)@ =~= old(self)@ + other@,
    {
        let mut o = other;
        self.items.append(&mut o.items);
    }

    /// Copies the prescription.
    pub fn dup(&self) -> (r: Prescription)
        ensures
            r@ =~= self@,
    {
        let mut items: Vec<Directive> = Vec::new();
        let mut i: usize = 0;
        while i < self.items.len()
            invariant
                0 <= i <= self.items.len(),
                items.deep_view() =~= self@.take(i as int),
            decreases self.items.len() - i,
        {
            let ghost old_items = items.deep_view();
            let d = self.items[i].dup();
            proof {
                assert(d@ == self@[i as int]);
            }
            items.push(d);
            proof {
                assert(items.deep_view() =~= old_items.push(d@));
                assert(self@.take(i + 1 as int) =~= self@.take(i as int).push(self@[i as int]));
                assert(items.deep_view() =~= self@.take(i + 1 as int));
            }
            i += 1;
        }
        proof {
            assert(self@.take(self@.len() as int) =~= self@);
        }
        Prescription { items }
    }

    /// Parses prescription text: one directive per line, blank lines and
    /// `#` comments ignored.  An error carries the 1-based number of the
    /// first offending line, and no directives are returned.
    pub fn parse(text: &str) -> (r: Result<Prescription, ParseError>)
        ensures
            match r {
                Ok(p) => spec_parse_text(text@) matches ParseOutcome::Parsed(ds) && p@ =~~= ds,
                Err(e) => spec_parse_text(text@) matches ParseOutcome::BadLine(i) && e.line == i
                    + 1,
            },
    {
        let lines = lines_str(text);
        let ghost lv = spec_lines(text@);
        proof {
            assert(lines.deep_view() =~= lv);
        }
        let n = lines.len();
        let mut i: usize = n;
        let mut acc: Vec<Directive> = Vec::new();
        let mut bad: Option<ParseError> = None;
        while i > 0
            invariant
                0 <= i <= n,
                n == lv.len(),
                lines.deep_view() =~= lv,
                n == lines@.len(),
                match bad {
                    Option::Some(e) => spec_parse_from(lv, i as int) matches ParseOutcome::BadLine(
                        b,
                    ) && e.line == b + 1,
                    Option::None => spec_parse_from(lv, i as int) matches ParseOutcome::Parsed(ds)
                        && acc.deep_view() =~~= ds,
                },
            decreases i,
        {
            let idx = i - 1;
            let stripped = strip_comment_str(lines[idx].as_str());
            let toks_probe = tokenize_str(stripped.as_str());
            proof {
                assert(lines.deep_view()[idx as int] == lv[idx as int]);
                assert(stripped@ == strip_comment(lv[idx as int]));
            }
            if toks_probe.len() == 0 {
                proof {
                    assert(spec_parse_line(lv[idx as int]) is Blank);
                }
            } else {
                match parse_directive(stripped.as_str(), idx + 1) {
                    Ok(d) => {
                        if bad.is_none() {
                            let ghost old_acc = acc.deep_view();
                            acc.insert(0, d);
                            proof {
                                assert(acc.deep_view() =~~= seq![d@] + old_acc);
                                assert(spec_parse_line(lv[idx as int]) == LineParse::Dir(d@));
                            }
                        } else {
                            proof {
                                assert(spec_parse_line(lv[idx as int]) == LineParse::Dir(d@));
                            }
                        }
                    },
                    Err(e) => {
                        proof {
                            assert(spec_parse_line(lv[idx as int]) is Bad);
                        }
                        bad = Some(e);
                    },
                }
            }
            i = idx;
        }
        match bad {
            Option::Some(e) => Err(e),
            Option::None => Ok(Prescription { items: acc }),
        }
    }

    /// The prescription as text, one directive per line.
    pub fn text(&self) -> (r: String)
        requires
            forall|i: int| 0 <= i < self@.len() ==> dir_wf(#[trigger] self@[i]),
        ensures
            r@ == presc_text(self@),
    {
        let ghost f = |i: int, d: DirectiveV| dir_text(d);
        let mut out = String::new();
        if self.items.len() == 0 {
            proof {
                assert(self@.map(f) =~= Seq::<Seq<char>>::empty());
                assert(out@ =~= presc_text(self@));
            }
            return out;
        }
        proof {
            assert(self.items[0]@ == self@[0]);
        }
        out.append(self.items[0].text().as_str());
        let mut i: usize = 1;
        proof {
            assert(self@.take(1).map(f) =~= seq![dir_text(self@[0])]);
            assert(out@ =~= join_char(self@.take(1).map(f), '\n'));
        }
        while i < self.items.len()
            invariant
                1 <= i <= self.items.len(),
                self@.len() == self.items.len(),
                forall|k: int| 0 <= k < self@.len() ==> dir_wf(#[trigger] self@[k]),
                f == (|k: int, d: DirectiveV| dir_text(d)),
                out@ == join_char(self@.take(i as int).map(f), '\n'),
            decreases self.items.len() - i,
        {
            out.append("\n");
            proof {
                assert(self.items[i as int]@ == self@[i as int]);
            }
            out.append(self.items[i].text().as_str());
            proof {
                reveal_strlit("\n");
                assert("\n"@ =~= seq!['\n']);
                let pre = self@.take(i as int).map(f);
                lemma_join_push(pre, dir_text(self@[i as int]), '\n');
                assert(self@.take(i + 1 as int).map(f) =~= pre.push(dir_text(self@[i as int])));
                assert(out@ =~= join_char(self@.take(i + 1 as int).map(f), '\n'));
            }
            i += 1;
        }
        proof {
            assert(self@.take(self@.len() as int) =~= self@);
            assert(self@.take(self@.len() as int).map(f) =~= self@.map(f));
        }
        out
    }
}

/// The grouping key of a directive: its scope, column path and
/// property.  Two directives with the same key set the same thing.
pub open spec fn spec_conflict_key(d: DirectiveV) -> Seq<char> {
    match d {
        DirectiveV::SetFileCompression(_) => "file compression"@,
        DirectiveV::SetFileMaxRowGroupSize(_) => "file max_row_group_size"@,
        DirectiveV::SetFileDataPageSizeLimit(_) => "file data_page_size_limit"@,
        DirectiveV::SetFileStatisticsTruncateLength(_) => "file statistics_truncate_length"@,
        DirectiveV::SetColumnCompression(p, _) => "column "@ + path_text(p) + " compression"@,
        DirectiveV::SetColumnEncoding(p, _) => "column "@ + path_text(p) + " encoding"@,
        DirectiveV::SetColumnDictionary(p, _) => "column "@ + path_text(p) + " dictionary"@,
        DirectiveV::SetColumnDictionaryPageSizeLimit(p, _) => "column "@ + path_text(p)
            + " dictionary_page_size_limit"@,
        DirectiveV::SetColumnStatistics(p, _) => "column "@ + path_text(p) + " statistics"@,
        DirectiveV::SetColumnBloomFilter(p, _) => "column "@ + path_text(p) + " bloom_filter"@,
        DirectiveV::SetColumnBloomFilterNdv(p, _) => "column "@ + path_text(p)
            + " bloom_filter_ndv"@,
        DirectiveV::SetColumnBloomFilterFpp(p, _) => "column "@ + path_text(p)
            + " bloom_filter_fpp"@,
    }
}

/// The value a directive sets its key to, as canonical text.
pub open spec fn spec_conflict_value(d: DirectiveV) -> Seq<char> {
    match d {
        DirectiveV::SetFileCompression(c) => codec_text(c),
        DirectiveV::SetFileMaxRowGroupSize(n) => dec_seq(n as nat),
        DirectiveV::SetFileDataPageSizeLimit(n) => dec_seq(n as nat),
        DirectiveV::SetFileStatisticsTruncateLength(v) => trunc_text(v),
        DirectiveV::SetColumnCompression(_, c) => codec_text(c),
        DirectiveV::SetColumnEncoding(_, e) => encoding_text(e),
        DirectiveV::SetColumnDictionary(_, b) => bool_text(b),
        DirectiveV::SetColumnDictionaryPageSizeLimit(_, n) => dec_seq(n as nat),
        DirectiveV::SetColumnStatistics(_, s) => stats_text(s),
        DirectiveV::SetColumnBloomFilter(_, b) => bool_text(b),
        DirectiveV::SetColumnBloomFilterNdv(_, n) => dec_seq(n as nat),
        DirectiveV::SetColumnBloomFilterFpp(_, f) => f,
    }
}

impl Directive {
    /// The grouping key of this directive.
    pub fn conflict_key(&self) -> (r: String)
        ensures
            r@ == spec_conflict_key(self@),
    {
        let (scope_col, prop): (Option<&ColPath>, &str) = match self {
            Directive::SetFileCompression(_) => (None, "file compression"),
            Directive::SetFileMaxRowGroupSize(_) => (None, "file max_row_group_size"),
            Directive::SetFileDataPageSizeLimit(_) => (None, "file data_page_size_limit"),
            Directive::SetFileStatisticsTruncateLength(_) => (
                None,
                "file statistics_truncate_length",
            ),
            Directive::SetColumnCompression(p, _) => (Some(p), " compression"),
            Directive::SetColumnEncoding(p, _) => (Some(p), " encoding"),
            Directive::SetColumnDictionary(p, _) => (Some(p), " dictionary"),
            Directive::SetColumnDictionaryPageSizeLimit(p, _) => (
                Some(p),
                " dictionary_page_size_limit",
            ),
            Directive::SetColumnStatistics(p, _) => (Some(p), " statistics"),
            Directive::SetColumnBloomFilter(p, _) => (Some(p), " bloom_filter"),
            Directive::SetColumnBloomFilterNdv(p, _) => (Some(p), " bloom_filter_ndv"),
            Directive::SetColumnBloomFilterFpp(p, _) => (Some(p), " bloom_filter_fpp"),
        };
        match scope_col {
            Option::None => prop.to_owned(),
            Option::Some(p) => {
                let mut s = "column ".to_owned();
                s.append(p.text().as_str());
                s.append(prop);
                proof {
                    assert(s@ =~= spec_conflict_key(self@));
                }
                s
            },
        }
    }

    /// The value this directive sets, as canonical text.
    pub fn conflict_value(&self) -> (r: String)
        requires
            dir_wf(self@),
        ensures
            r@ == spec_conflict_value(self@),
    {
        match self {
            Directive::SetFileCompression(c) => c.text(),
            Directive::SetFileMaxRowGroupSize(n) => usize_to_string(*n),
            Directive::SetFileDataPageSizeLimit(n) => usize_to_string(*n),
            Directive::SetFileStatisticsTruncateLength(v) => match v {
                Option::Some(n) => usize_to_string(*n),
                Option::None => "none".to_owned(),
            },
            Directive::SetColumnCompression(_, c) => c.text(),
            Directive::SetColumnEncoding(_, e) => e.text(),
            Directive::SetColumnDictionary(_, b) => bool_to_text(*b),
            Directive::SetColumnDictionaryPageSizeLimit(_, n) => usize_to_string(*n),
            Directive::SetColumnStatistics(_, s) => s.text(),
            Directive::SetColumnBloomFilter(_, b) => bool_to_text(*b),
            Directive::SetColumnBloomFilterNdv(_, n) => u64_to_string(*n),
            Directive::SetColumnBloomFilterFpp(_, f) => f.token.clone(),
        }
    }
}

/// Two directives whose keys agree but whose values differ.
#[derive(Debug)]
pub struct ConflictError {
    pub key: String,
    pub first: String,
    pub second: String,
}

impl ConflictError {
    /// A one-line description of the conflict.
    pub fn text(&self) -> (r: String)
    {
        let mut s = "conflicting directives for ".to_owned();
        s.append(self.key.as_str());
        s.append(": '");
        s.append(self.second.as_str());
        s.append("' conflicts with '");
        s.append(self.first.as_str());
        s.append("'");
        s
    }
}

/// The first index at or after `i` whose directive has key `k`, or -1.
pub open spec fn find_key(p: Seq<DirectiveV>, k: Seq<char>, i: int) -> int
    decreases p.len() - i,
{
    if i < 0 || i >= p.len() {
        -1
    } else if spec_conflict_key(p[i]) == k {
        i
    } else {
        find_key(p, k, i + 1)
    }
}

/// The first index at or after `j` that conflicts with an earlier
/// directive (same key, different value), or -1.
pub open spec fn find_conflict(p: Seq<DirectiveV>, j: int) -> int
    decreases p.len() - j,
{
    if j < 0 || j >= p.len() {
        -1
    } else {
        let f = find_key(p, spec_conflict_key(p[j]), 0);
        if 0 <= f < j && spec_conflict_value(p[f]) != spec_conflict_value(p[j]) {
            j
        } else {
            find_conflict(p, j + 1)
        }
    }
}

/// Whether directive `j` conflicts with the first directive sharing its
/// key.
pub open spec fn is_conflict_at(p: Seq<DirectiveV>, j: int) -> bool {
    let f = find_key(p, spec_conflict_key(p[j]), 0);
    0 <= f < j && spec_conflict_value(p[f]) != spec_conflict_value(p[j])
}

/// What `find_key` finds: the first match, if any.
pub proof fn lemma_find_key_props(p: Seq<DirectiveV>, k: Seq<char>, t: int)
    requires
        0 <= t,
    ensures
        find_key(p, k, t) == -1 ==> forall|m: int|
            t <= m < p.len() ==> spec_conflict_key(#[trigger] p[m]) != k,
        find_key(p, k, t) != -1 ==> t <= find_key(p, k, t) < p.len() && spec_conflict_key(
            p[find_key(p, k, t)],
        ) == k && forall|m: int| t <= m < find_key(p, k, t) ==> spec_conflict_key(#[trigger] p[m]) != k,
    decreases p.len() - t,
{
    if t < p.len() && spec_conflict_key(p[t]) != k {
        lemma_find_key_props(p, k, t + 1);
    }
}

/// If the scan finds nothing, no index conflicts.
pub proof fn lemma_find_conflict_none(p: Seq<DirectiveV>, t: int)
    requires
        0 <= t,
        find_conflict(p, t) == -1,
    ensures
        forall|j: int| t <= j < p.len() ==> !is_conflict_at(p, j),
    decreases p.len() - t,
{
    if t < p.len() {
        lemma_find_conflict_none(p, t + 1);
    }
}

/// What the scan finds is a real conflict, and the first one.
pub proof fn lemma_find_conflict_sound(p: Seq<DirectiveV>, t: int)
    requires
        0 <= t,
        find_conflict(p, t) != -1,
    ensures
        t <= find_conflict(p, t) < p.len(),
        is_conflict_at(p, find_conflict(p, t)),
    decreases p.len() - t,
{
    if t < p.len() && !is_conflict_at(p, t) {
        lemma_find_conflict_sound(p, t + 1);
    }
}

/// Law: two directives with the same conflict key but
/// different values always make validation report a conflict.
pub proof fn lemma_conflict_always_detected(p: Seq<DirectiveV>, i: int, j: int)
    requires
        0 <= i < j < p.len(),
        spec_conflict_key(p[i]) == spec_conflict_key(p[j]),
        spec_conflict_value(p[i]) != spec_conflict_value(p[j]),
    ensures
        find_conflict(p, 0) != -1,
{
    if find_conflict(p, 0) == -1 {
        lemma_find_conflict_none(p, 0);
        let k = spec_conflict_key(p[j]);
        lemma_find_key_props(p, k, 0);
        let f = find_key(p, k, 0);
        assert(f != -1);
        assert(f <= i);
        if spec_conflict_value(p[f]) != spec_conflict_value(p[j]) {
            assert(is_conflict_at(p, j));
        } else {
            assert(spec_conflict_value(p[f]) != spec_conflict_value(p[i]));
            assert(f < i);
            assert(spec_conflict_key(p[i]) == k);
            assert(is_conflict_at(p, i));
        }
    }
}

/// Law: identical duplicate directives never count as a
/// conflict: if equal keys always carry equal values, validation
/// passes.
pub proof fn lemma_identical_duplicates_ok(p: Seq<DirectiveV>)
    requires
        forall|i: int, j: int|
            0 <= i < p.len() && 0 <= j < p.len() && spec_conflict_key(#[trigger] p[i])
                == spec_conflict_key(#[trigger] p[j]) ==> spec_conflict_value(p[i])
                == spec_conflict_value(p[j]),
    ensures
        find_conflict(p, 0) == -1,
{
    if find_conflict(p, 0) != -1 {
        lemma_find_conflict_sound(p, 0);
        let j = find_conflict(p, 0);
        let f = find_key(p, spec_conflict_key(p[j]), 0);
        lemma_find_key_props(p, spec_conflict_key(p[j]), 0);
        assert(spec_conflict_key(p[f]) == spec_conflict_key(p[j]));
        assert(false);
    }
}

/// The first index below `j` whose directive's key renders as `kj`.
fn first_with_key(items: &Vec<Directive>, kj: &String, j: usize) -> (r: Option<usize>)
    requires
        j <= items.deep_view().len(),
    ensures
        match r {
            Option::Some(f) => f < j && find_key(items.deep_view(), kj@, 0) == f,
            Option::None => find_key(items.deep_view(), kj@, 0) == find_key(
                items.deep_view(),
                kj@,
                j as int,
            ),
        },
{
    let ghost p = items.deep_view();
    let ghost k = kj@;
    let mut i: usize = 0;
    while i < j
        invariant
            0 <= i <= j <= p.len(),
            p == items.deep_view(),
            k == kj@,
            find_key(p, k, 0) == find_key(p, k, i as int),
        decreases j - i,
    {
        proof {
            assert(items[i as int]@ == p[i as int]);
        }
        let ki = items[i].conflict_key();
        if str_eq(ki.as_str(), kj.as_str()) {
            proof {
                assert(spec_conflict_key(p[i as int]) == k);
                assert(find_key(p, k, i as int) == i as int);
            }
            return Some(i);
        }
        proof {
            assert(spec_conflict_key(p[i as int]) != k);
            assert(find_key(p, k, i as int) == find_key(p, k, i + 1 as int));
        }
        i += 1;
    }
    None
}

impl Prescription {
    /// Checks for conflicting directives: two directives with the same
    /// key but different values.  The first such pair is reported, with
    /// the text of both directives.  Identical duplicates are fine.  A
    /// conflict is advisory: applying the prescription still works,
    /// with the later directive winning.
    ///
    /// Reporting a conflict names both directives in their canonical
    /// text, so every directive must be expressible in the grammar
    /// (`is_wf`); parsed prescriptions always are, and the rules only
    /// build expressible directives for expressible column paths.
    pub fn validate(&self) -> (r: Result<(), ConflictError>)
        requires
            forall|i: int| 0 <= i < self@.len() ==> dir_wf(#[trigger] self@[i]),
        ensures
            match r {
                Ok(()) => find_conflict(self@, 0) == -1,
                Err(c) => {
                    let j = find_conflict(self@, 0);
                    let f = find_key(self@, spec_conflict_key(self@[j]), 0);
                    &&& 0 <= j < self@.len()
                    &&& 0 <= f < j
                    &&& c.key@ == spec_conflict_key(self@[j])
                    &&& c.first@ == dir_text(self@[f])
                    &&& c.second@ == dir_text(self@[j])
                },
            },
    {
        let ghost p = self@;
        let n = self.items.len();
        let mut j: usize = 0;
        while j < n
            invariant
                0 <= j <= n,
                n == p.len(),
                p == self@,
                self@.len() == self.items.len(),
                forall|i: int| 0 <= i < p.len() ==> dir_wf(#[trigger] p[i]),
                find_conflict(p, 0) == find_conflict(p, j as int),
            decreases n - j,
        {
            proof {
                assert(self.items[j as int]@ == p[j as int]);
            }
            let kj = self.items[j].conflict_key();
            let ghost k = spec_conflict_key(p[j as int]);
            let found = first_with_key(&self.items, &kj, j);
            match found {
                Option::Some(f) => {
                    proof {
                        assert(self.items[f as int]@ == p[f as int]);
                    }
                    let vi = self.items[f].conflict_value();
                    let vj = self.items[j].conflict_value();
                    if !str_eq(vi.as_str(), vj.as_str()) {
                        proof {
                            assert(is_conflict_at(p, j as int));
                            assert(find_conflict(p, j as int) == j as int);
                        }
                        return Err(
                            ConflictError {
                                key: kj,
                                first: self.items[f].text(),
                                second: self.items[j].text(),
                            },
                        );
                    }
                    proof {
                        assert(!is_conflict_at(p, j as int));
                        assert(find_conflict(p, j as int) == find_conflict(p, j + 1 as int));
                    }
                },
                Option::None => {
                    proof {
                        assert(find_key(p, k, 0) == find_key(p, k, j as int));
                        assert(find_key(p, k, j as int) == j as int);
                        assert(!is_conflict_at(p, j as int));
                        assert(find_conflict(p, j as int) == find_conflict(p, j + 1 as int));
                    }
                },
            }
            j += 1;
        }
        proof {
            assert(find_conflict(p, n as int) == -1);
        }
        Ok(())
    }
}

/// A valid token: non-empty, and all of its characters may stand in a
/// token.
pub open spec fn token_ok(s: Seq<char>) -> bool {
    s.len() > 0 && forall|j: int| 0 <= j < s.len() ==> token_char_ok(#[trigger] s[j])
}

/// The keywords of the grammar are valid tokens.
pub proof fn lemma_keywords_ok()
    ensures
        token_ok("set"@),
        token_ok("file"@),
        token_ok("column"@),
        token_ok("compression"@),
        token_ok("max_row_group_size"@),
        token_ok("data_page_size_limit"@),
        token_ok("statistics_truncate_length"@),
        token_ok("none"@),
        token_ok("encoding"@),
        token_ok("dictionary"@),
        token_ok("dictionary_page_size_limit"@),
        token_ok("statistics"@),
        token_ok("bloom_filter"@),
        token_ok("bloom_filter_ndv"@),
        token_ok("bloom_filter_fpp"@),
        token_ok("uncompressed"@),
        token_ok("snappy"@),
        token_ok("lz4_raw"@),
        token_ok("plain"@),
        token_ok("delta_binary_packed"@),
        token_ok("delta_length_byte_array"@),
        token_ok("delta_byte_array"@),
        token_ok("byte_stream_split"@),
        token_ok("chunk"@),
        token_ok("page"@),
        token_ok("true"@),
        token_ok("false"@),
        token_ok("zstd("@),
        token_ok("gzip("@),
        token_ok("brotli("@),
        token_ok(")"@),
{
    reveal_strlit("set");
    reveal_strlit("file");
    reveal_strlit("column");
    reveal_strlit("compression");
    reveal_strlit("max_row_group_size");
    reveal_strlit("data_page_size_limit");
    reveal_strlit("statistics_truncate_length");
    reveal_strlit("none");
    reveal_strlit("encoding");
    reveal_strlit("dictionary");
    reveal_strlit("dictionary_page_size_limit");
    reveal_strlit("statistics");
    reveal_strlit("bloom_filter");
    reveal_strlit("bloom_filter_ndv");
    reveal_strlit("bloom_filter_fpp");
    reveal_strlit("uncompressed");
    reveal_strlit("snappy");
    reveal_strlit("lz4_raw");
    reveal_strlit("plain");
    reveal_strlit("delta_binary_packed");
    reveal_strlit("delta_length_byte_array");
    reveal_strlit("delta_byte_array");
    reveal_strlit("byte_stream_split");
    reveal_strlit("chunk");
    reveal_strlit("page");
    reveal_strlit("true");
    reveal_strlit("false");
    reveal_strlit("zstd(");
    reveal_strlit("gzip(");
    reveal_strlit("brotli(");
    reveal_strlit(")");
}

/// Digits are valid token characters.
pub proof fn lemma_dec_token(n: nat)
    ensures
        token_ok(dec_seq(n)),
        forall|j: int| 0 <= j < dec_seq(n).len() ==> is_digit(#[trigger] dec_seq(n)[j]),
{
    lemma_dec_roundtrip((n % 0x1_0000_0000_0000_0000) as u64);
    crate::strutil::lemma_dec_seq_digits(n);
}

/// A rendered codec value is a valid token.
pub proof fn lemma_codec_token(c: Codec)
    requires
        codec_wf(c),
    ensures
        token_ok(codec_text(c)),
{
    lemma_keywords_ok();
    match c {
        Codec::Gzip(l) => {
            lemma_dec_token(l as nat);
            assert(token_ok(codec_text(c)));
        },
        Codec::Brotli(l) => {
            lemma_dec_token(l as nat);
            assert(token_ok(codec_text(c)));
        },
        Codec::Zstd(l) => {
            lemma_dec_token(l as nat);
            assert(token_ok(codec_text(c)));
        },
        _ => {},
    }
}

/// A rendered well-formed path is a valid token.
pub proof fn lemma_path_token(p: Seq<Seq<char>>)
    requires
        path_wf(p),
    ensures
        token_ok(path_text(p)),
{
    assert(token_char_ok('.'));
    crate::strutil::lemma_join_chars(p, '.', |c: char| token_char_ok(c));
    if p.len() == 1 {
        assert(path_text(p) == p[0]);
        assert(p[0].len() > 0);
    } else {
        assert(path_text(p) == p[0] + seq!['.'] + join_char(p.drop_first(), '.'));
        assert(path_text(p).len() > 0);
    }
}

/// Every token of a well-formed directive line is a valid token.
pub proof fn lemma_dir_tokens_ok(d: DirectiveV)
    requires
        dir_wf(d),
    ensures
        forall|k: int| 0 <= k < dir_tokens(d).len() ==> token_ok(#[trigger] dir_tokens(d)[k]),
        dir_tokens(d).len() >= 1,
{
    lemma_keywords_ok();
    let t = dir_tokens(d);
    match d {
        DirectiveV::SetFileCompression(c) => {
            lemma_codec_token(c);
        },
        DirectiveV::SetFileMaxRowGroupSize(n) => {
            lemma_dec_token(n as nat);
        },
        DirectiveV::SetFileDataPageSizeLimit(n) => {
            lemma_dec_token(n as nat);
        },
        DirectiveV::SetFileStatisticsTruncateLength(v) => {
            if v is Some {
                lemma_dec_token(v->Some_0 as nat);
            }
        },
        DirectiveV::SetColumnCompression(p, c) => {
            lemma_path_token(p);
            lemma_codec_token(c);
        },
        DirectiveV::SetColumnEncoding(p, _) => {
            lemma_path_token(p);
        },
        DirectiveV::SetColumnDictionary(p, _) => {
            lemma_path_token(p);
        },
        DirectiveV::SetColumnDictionaryPageSizeLimit(p, n) => {
            lemma_path_token(p);
            lemma_dec_token(n as nat);
        },
        DirectiveV::SetColumnStatistics(p, _) => {
            lemma_path_token(p);
        },
        DirectiveV::SetColumnBloomFilter(p, _) => {
            lemma_path_token(p);
        },
        DirectiveV::SetColumnBloomFilterNdv(p, n) => {
            lemma_path_token(p);
            lemma_dec_token(n as nat);
        },
        DirectiveV::SetColumnBloomFilterFpp(p, f) => {
            lemma_path_token(p);
            assert(token_ok(f));
        },
    }
}

/// The property and scope keywords are pairwise distinct.
proof fn lemma_literal_distinct()
    ensures
        "column"@ != "file"@,
        "max_row_group_size"@ != "compression"@,
        "data_page_size_limit"@ != "compression"@,
        "data_page_size_limit"@ != "max_row_group_size"@,
        "statistics_truncate_length"@ != "compression"@,
        "statistics_truncate_length"@ != "max_row_group_size"@,
        "statistics_truncate_length"@ != "data_page_size_limit"@,
        "encoding"@ != "compression"@,
        "dictionary"@ != "compression"@,
        "dictionary"@ != "encoding"@,
        "dictionary_page_size_limit"@ != "compression"@,
        "dictionary_page_size_limit"@ != "encoding"@,
        "dictionary_page_size_limit"@ != "dictionary"@,
        "statistics"@ != "compression"@,
        "statistics"@ != "encoding"@,
        "statistics"@ != "dictionary"@,
        "statistics"@ != "dictionary_page_size_limit"@,
        "bloom_filter"@ != "compression"@,
        "bloom_filter"@ != "encoding"@,
        "bloom_filter"@ != "dictionary"@,
        "bloom_filter"@ != "dictionary_page_size_limit"@,
        "bloom_filter"@ != "statistics"@,
        "bloom_filter_ndv"@ != "compression"@,
        "bloom_filter_ndv"@ != "encoding"@,
        "bloom_filter_ndv"@ != "dictionary"@,
        "bloom_filter_ndv"@ != "dictionary_page_size_limit"@,
        "bloom_filter_ndv"@ != "statistics"@,
        "bloom_filter_ndv"@ != "bloom_filter"@,
        "bloom_filter_fpp"@ != "compression"@,
        "bloom_filter_fpp"@ != "encoding"@,
        "bloom_filter_fpp"@ != "dictionary"@,
        "bloom_filter_fpp"@ != "dictionary_page_size_limit"@,
        "bloom_filter_fpp"@ != "statistics"@,
        "bloom_filter_fpp"@ != "bloom_filter"@,
        "bloom_filter_fpp"@ != "bloom_filter_ndv"@,
        "delta_binary_packed"@ != "plain"@,
        "delta_length_byte_array"@ != "plain"@,
        "delta_length_byte_array"@ != "delta_binary_packed"@,
        "delta_byte_array"@ != "plain"@,
        "delta_byte_array"@ != "delta_binary_packed"@,
        "delta_byte_array"@ != "delta_length_byte_array"@,
        "byte_stream_split"@ != "plain"@,
        "byte_stream_split"@ != "delta_binary_packed"@,
        "byte_stream_split"@ != "delta_length_byte_array"@,
        "byte_stream_split"@ != "delta_byte_array"@,
        "chunk"@ != "none"@,
        "page"@ != "none"@,
        "page"@ != "chunk"@,
        "false"@ != "true"@,
        "snappy"@ != "uncompressed"@,
        "lz4_raw"@ != "uncompressed"@,
        "lz4_raw"@ != "snappy"@,
{
    reveal_strlit("file");
    reveal_strlit("column");
    reveal_strlit("compression");
    reveal_strlit("max_row_group_size");
    reveal_strlit("data_page_size_limit");
    reveal_strlit("statistics_truncate_length");
    reveal_strlit("none");
    reveal_strlit("encoding");
    reveal_strlit("dictionary");
    reveal_strlit("dictionary_page_size_limit");
    reveal_strlit("statistics");
    reveal_strlit("bloom_filter");
    reveal_strlit("bloom_filter_ndv");
    reveal_strlit("bloom_filter_fpp");
    reveal_strlit("uncompressed");
    reveal_strlit("snappy");
    reveal_strlit("lz4_raw");
    reveal_strlit("plain");
    reveal_strlit("delta_binary_packed");
    reveal_strlit("delta_length_byte_array");
    reveal_strlit("delta_byte_array");
    reveal_strlit("byte_stream_split");
    reveal_strlit("chunk");
    reveal_strlit("page");
    reveal_strlit("true");
    reveal_strlit("false");
    assert("file"@.len() == 4);
    assert("column"@.len() == 6);
    assert("compression"@.len() == 11);
    assert("max_row_group_size"@.len() == 18);
    assert("data_page_size_limit"@.len() == 20);
    assert("statistics_truncate_length"@.len() == 26);
    assert("none"@.len() == 4);
    assert("encoding"@.len() == 8);
    assert("dictionary"@.len() == 10);
    assert("dictionary_page_size_limit"@.len() == 26);
    assert("statistics"@.len() == 10);
    assert("bloom_filter"@.len() == 12);
    assert("bloom_filter_ndv"@.len() == 16);
    assert("bloom_filter_fpp"@.len() == 16);
    assert("uncompressed"@.len() == 12);
    assert("snappy"@.len() == 6);
    assert("lz4_raw"@.len() == 7);
    assert("plain"@.len() == 5);
    assert("delta_binary_packed"@.len() == 19);
    assert("delta_length_byte_array"@.len() == 23);
    assert("delta_byte_array"@.len() == 16);
    assert("byte_stream_split"@.len() == 17);
    assert("chunk"@.len() == 5);
    assert("page"@.len() == 4);
    assert("true"@.len() == 4);
    assert("false"@.len() == 5);
    assert("bloom_filter_ndv"@[13] != "bloom_filter_fpp"@[13]);
    assert("statistics"@[0] != "dictionary"@[0]);
    assert("page"@[0] != "none"@[0]);
}

/// A canonical decimal token parses back as the same usize.
pub proof fn lemma_parse_usize_rt(n: usize)
    ensures
        spec_parse_usize(dec_seq(n as nat)) == Option::Some(n),
{
    lemma_dec_roundtrip(n as u64);
}

/// A canonical decimal token parses back as the same u64.
pub proof fn lemma_parse_u64_rt(n: u64)
    ensures
        spec_parse_u64(dec_seq(n as nat)) == Option::Some(n),
{
    lemma_dec_roundtrip(n);
}

/// A rendered `name(level)` token parses back as the same level.
proof fn lemma_parse_wrapped_rt(namep: Seq<char>, name: Seq<char>, l: i32)
    requires
        namep == name + seq!['('],
        0 <= l,
    ensures
        spec_parse_wrapped(namep + dec_seq(l as nat) + ")"@, name) == WrapParse::Level(l),
{
    reveal_strlit(")");
    let dec = dec_seq(l as nat);
    lemma_dec_roundtrip(l as u64);
    crate::strutil::lemma_dec_seq_digits(l as nat);
    let t = namep + dec + ")"@;
    assert(")"@.len() == 1 && ")"@[0] == ')');
    assert(t.len() == name.len() + 1 + dec.len() + 1);
    assert(t.take(name.len() as int) =~= name);
    assert(t[name.len() as int] == '(');
    let rest = t.skip(name.len() as int + 1);
    assert(rest =~= dec + ")"@);
    assert(rest.last() == ')');
    assert(rest.drop_last() =~= dec);
    assert(is_digit(dec[0]));
    assert(dec[0] != '-' && dec[0] != '+');
    assert(is_dec(dec));
    crate::strutil::lemma_dec_seq_val(l as nat);
    assert(dec_val(dec) == l as nat);
    assert(spec_parse_i32(dec) == Option::Some(l));
}

/// A token of the shape `name(...)`)` does not probe as a different
/// codec whose name differs in the first character.
proof fn lemma_wrapped_not_this(t: Seq<char>, name: Seq<char>)
    requires
        t.len() == 0 || name.len() == 0 || (t.len() > 0 && name.len() > 0 && t[0] != name[0]),
    ensures
        t.len() > 0 && name.len() > 0 ==> spec_parse_wrapped(t, name) is NotThis,
{
    if t.len() > 0 && name.len() > 0 {
        if t.len() > name.len() && t.take(name.len() as int) == name && t[name.len() as int]
            == '(' {
            assert(t.take(name.len() as int)[0] == t[0]);
            assert(false);
        }
    }
}

/// A rendered codec value parses back as the same codec.
pub proof fn lemma_parse_codec_rt(c: Codec)
    requires
        codec_wf(c),
    ensures
        spec_parse_codec(codec_text(c)) == Option::Some(c),
{
    lemma_literal_distinct();
    reveal_strlit("uncompressed");
    reveal_strlit("snappy");
    reveal_strlit("lz4_raw");
    reveal_strlit("zstd");
    reveal_strlit("zstd(");
    reveal_strlit("gzip");
    reveal_strlit("gzip(");
    reveal_strlit("brotli");
    reveal_strlit("brotli(");
    match c {
        Codec::Uncompressed => {},
        Codec::Snappy => {},
        Codec::Lz4Raw => {},
        Codec::Zstd(l) => {
            let t = codec_text(c);
            assert(t[0] == "zstd("@[0]);
            assert(t[0] == 'z');
            assert(t != "uncompressed"@ && t != "snappy"@ && t != "lz4_raw"@) by {
                if t == "uncompressed"@ {
                    assert(t[0] == 'u');
                }
                if t == "snappy"@ {
                    assert(t[0] == 's');
                }
                if t == "lz4_raw"@ {
                    assert(t[0] == 'l');
                }
            }
            assert("zstd("@ =~= "zstd"@ + seq!['(']);
            lemma_parse_wrapped_rt("zstd("@, "zstd"@, l);
        },
        Codec::Gzip(l) => {
            let t = codec_text(c);
            assert(t[0] == "gzip("@[0]);
            assert(t[0] == 'g');
            assert(t != "uncompressed"@ && t != "snappy"@ && t != "lz4_raw"@) by {
                if t == "uncompressed"@ {
                    assert(t[0] == 'u');
                }
                if t == "snappy"@ {
                    assert(t[0] == 's');
                }
                if t == "lz4_raw"@ {
                    assert(t[0] == 'l');
                }
            }
            assert("zstd"@.len() > 0 && "zstd"@[0] == 'z');
            lemma_wrapped_not_this(t, "zstd"@);
            assert("gzip("@ =~= "gzip"@ + seq!['(']);
            lemma_parse_wrapped_rt("gzip("@, "gzip"@, l as i32);
        },
        Codec::Brotli(l) => {
            let t = codec_text(c);
            assert(t[0] == "brotli("@[0]);
            assert(t[0] == 'b');
            assert(t != "uncompressed"@ && t != "snappy"@ && t != "lz4_raw"@) by {
                if t == "uncompressed"@ {
                    assert(t[0] == 'u');
                }
                if t == "snappy"@ {
                    assert(t[0] == 's');
                }
                if t == "lz4_raw"@ {
                    assert(t[0] == 'l');
                }
            }
            assert("zstd"@.len() > 0 && "zstd"@[0] == 'z');
            assert("gzip"@.len() > 0 && "gzip"@[0] == 'g');
            lemma_wrapped_not_this(t, "zstd"@);
            lemma_wrapped_not_this(t, "gzip"@);
            assert("brotli("@ =~= "brotli"@ + seq!['(']);
            lemma_parse_wrapped_rt("brotli("@, "brotli"@, l as i32);
        },
    }
}

/// Every rendered value token parses back as the same value, and a
/// rendered path token parses back as the same path.
pub proof fn lemma_parse_values_rt(d: DirectiveV)
    requires
        dir_wf(d),
    ensures
        spec_parse_tokens(dir_tokens(d)) == Option::Some(d),
{
    lemma_literal_distinct();
    lemma_keywords_ok();
    let toks = dir_tokens(d);
    match d {
        DirectiveV::SetFileCompression(c) => {
            lemma_parse_codec_rt(c);
        },
        DirectiveV::SetFileMaxRowGroupSize(n) => {
            lemma_parse_usize_rt(n);
        },
        DirectiveV::SetFileDataPageSizeLimit(n) => {
            lemma_parse_usize_rt(n);
        },
        DirectiveV::SetFileStatisticsTruncateLength(v) => {
            match v {
                Option::Some(n) => {
                    lemma_parse_usize_rt(n);
                    reveal_strlit("none");
                    lemma_dec_token(n as nat);
                    assert(dec_seq(n as nat) != "none"@) by {
                        if dec_seq(n as nat) == "none"@ {
                            assert(is_digit(dec_seq(n as nat)[0]));
                            assert("none"@[0] == 'n');
                        }
                    }
                },
                Option::None => {},
            }
        },
        DirectiveV::SetColumnCompression(p, c) => {
            lemma_parse_path_rt(p);
            lemma_parse_codec_rt(c);
        },
        DirectiveV::SetColumnEncoding(p, _) => {
            lemma_parse_path_rt(p);
        },
        DirectiveV::SetColumnDictionary(p, _) => {
            lemma_parse_path_rt(p);
        },
        DirectiveV::SetColumnDictionaryPageSizeLimit(p, n) => {
            lemma_parse_path_rt(p);
            lemma_parse_usize_rt(n);
        },
        DirectiveV::SetColumnStatistics(p, _) => {
            lemma_parse_path_rt(p);
        },
        DirectiveV::SetColumnBloomFilter(p, _) => {
            lemma_parse_path_rt(p);
        },
        DirectiveV::SetColumnBloomFilterNdv(p, n) => {
            lemma_parse_path_rt(p);
            lemma_parse_u64_rt(n);
        },
        DirectiveV::SetColumnBloomFilterFpp(p, f) => {
            lemma_parse_path_rt(p);
        },
    }
}

/// A rendered well-formed path parses back as the same path.
pub proof fn lemma_parse_path_rt(p: Seq<Seq<char>>)
    requires
        path_wf(p),
    ensures
        spec_parse_path(path_text(p)) == Option::Some(p),
{
    lemma_split_join(p, '.');
    let sp = split_char(path_text(p), '.');
    assert(sp =~= p);
    assert(forall|i: int| 0 <= i < sp.len() ==> (#[trigger] sp[i]).len() > 0);
}

/// A rendered well-formed directive line parses back as the same
/// directive.
pub proof fn lemma_dir_line_rt(d: DirectiveV)
    requires
        dir_wf(d),
    ensures
        spec_parse_line(dir_text(d)) == LineParse::Dir(d),
{
    let toks = dir_tokens(d);
    let line = dir_text(d);
    lemma_dir_tokens_ok(d);
    assert(forall|k: int, j: int|
        0 <= k < toks.len() && 0 <= j < toks[k].len() ==> token_char_ok(#[trigger] toks[k][j]));
    crate::strutil::lemma_join_chars(toks, ' ', |c: char| c != '#');
    lemma_strip_comment_clean(line);
    crate::strutil::lemma_tokenize_join(toks);
    assert(tokenize(line) =~= toks);
    assert(tokenize(strip_comment(line)) == toks);
    lemma_parse_values_rt(d);
    assert(toks.len() >= 4);
}

/// If every line of `ls` states a directive of `ds`, parsing from any
/// position yields the remaining directives.
proof fn lemma_parse_from_all(ls: Seq<Seq<char>>, ds: Seq<DirectiveV>, i: int)
    requires
        ls.len() == ds.len(),
        0 <= i <= ls.len(),
        forall|k: int| 0 <= k < ls.len() ==> spec_parse_line(#[trigger] ls[k]) == LineParse::Dir(ds[k]),
    ensures
        spec_parse_from(ls, i) matches ParseOutcome::Parsed(rest) && rest =~= ds.skip(i),
    decreases ls.len() - i,
{
    if i == ls.len() {
        assert(ds.skip(i) =~= Seq::<DirectiveV>::empty());
    } else {
        lemma_parse_from_all(ls, ds, i + 1);
        let rest = spec_parse_from(ls, i + 1)->Parsed_0;
        assert(spec_parse_from(ls, i) == ParseOutcome::Parsed(seq![ds[i]] + rest));
        assert(seq![ds[i]] + ds.skip(i + 1) =~= ds.skip(i));
        assert(seq![ds[i]] + rest =~= ds.skip(i));
    }
}

/// A serialized well-formed prescription parses back as the same
/// directive list.
pub proof fn lemma_presc_rt(ds: Seq<DirectiveV>)
    requires
        forall|k: int| 0 <= k < ds.len() ==> dir_wf(#[trigger] ds[k]),
    ensures
        spec_parse_text(presc_text(ds)) matches ParseOutcome::Parsed(ds2) && ds2 =~= ds,
{
    let f = |i: int, d: DirectiveV| dir_text(d);
    let linev = ds.map(f);
    let text = presc_text(ds);
    if ds.len() == 0 {
        assert(linev =~= Seq::<Seq<char>>::empty());
        assert(text == Seq::<char>::empty());
        let ls = spec_lines(text);
        assert(ls =~= seq![Seq::<char>::empty()]);
        assert(strip_comment(ls[0]) == Seq::<char>::empty());
        assert(tokenize(strip_comment(ls[0])).len() == 0);
        assert(spec_parse_line(ls[0]) is Blank);
        assert(spec_parse_from(ls, 0) == spec_parse_from(ls, 1));
        assert(spec_parse_from(ls, 1) == ParseOutcome::Parsed(Seq::<DirectiveV>::empty()));
        assert(spec_parse_text(text) matches ParseOutcome::Parsed(ds2) && ds2 =~= ds);
    } else {
        assert forall|k: int, j: int|
            0 <= k < linev.len() && 0 <= j < linev[k].len() implies #[trigger] linev[k][j]
            != '\n' by {
            lemma_dir_tokens_ok(ds[k]);
            assert(forall|m: int, n2: int|
                0 <= m < dir_tokens(ds[k]).len() && 0 <= n2 < dir_tokens(ds[k])[m].len()
                    ==> (#[trigger] dir_tokens(ds[k])[m][n2]) != '\n');
            crate::strutil::lemma_join_chars(dir_tokens(ds[k]), ' ', |c: char| c != '\n');
            assert(linev[k] == dir_text(ds[k]));
        }
        lemma_split_join(linev, '\n');
        let ls = spec_lines(text);
        assert(ls =~= linev);
        assert forall|k: int| 0 <= k < ls.len() implies spec_parse_line(#[trigger] ls[k])
            == LineParse::Dir(ds[k]) by {
            lemma_dir_line_rt(ds[k]);
            assert(ls[k] == dir_text(ds[k]));
        }
        lemma_parse_from_all(ls, ds, 0);
        assert(ds.skip(0) =~= ds);
    }
}

/// Parsed paths are well formed, provided the token's characters are
/// token characters.
proof fn lemma_parse_path_wf(t: Seq<char>)
    requires
        forall|i: int| 0 <= i < t.len() ==> token_char_ok(#[trigger] t[i]),
    ensures
        spec_parse_path(t) matches Option::Some(p) ==> path_wf(p),
{
    crate::strutil::lemma_split_char_wf(t, '.', |c: char| token_char_ok(c));
    crate::strutil::lemma_split_char_len(t, '.');
}

/// Everything a token list parses to is well formed, provided the
/// tokens' characters are token characters.
proof fn lemma_parse_tokens_wf(toks: Seq<Seq<char>>)
    requires
        forall|k: int, j: int|
            0 <= k < toks.len() && 0 <= j < toks[k].len() ==> token_char_ok(#[trigger] toks[k][j]),
    ensures
        spec_parse_tokens(toks) matches Option::Some(d) ==> dir_wf(d),
{
    if toks.len() == 5 && toks[0] == "set"@ && toks[1] != "file"@ && toks[1] == "column"@ {
        assert(forall|j: int| 0 <= j < toks[2].len() ==> token_char_ok(#[trigger] toks[2][j]));
        lemma_parse_path_wf(toks[2]);
    }
}

/// Everything a line parses to is well formed, provided the line has no
/// newline in it.
proof fn lemma_parse_line_wf(line: Seq<char>)
    requires
        forall|i: int| 0 <= i < line.len() ==> #[trigger] line[i] != '\n',
    ensures
        spec_parse_line(line) matches LineParse::Dir(d) ==> dir_wf(d),
{
    crate::strutil::lemma_strip_comment_wf(line, |c: char| c != '\n');
    let stripped = strip_comment(line);
    assert(forall|i: int|
        0 <= i < stripped.len() ==> #[trigger] stripped[i] != '\n' && stripped[i] != '#');
    crate::strutil::lemma_tokenize_wf(stripped, |c: char| c != '\n' && c != '#');
    let toks = tokenize(stripped);
    assert(forall|k: int, j: int|
        0 <= k < toks.len() && 0 <= j < toks[k].len() ==> token_char_ok(#[trigger] toks[k][j]));
    lemma_parse_tokens_wf(toks);
}

/// Everything parsing a text returns is well formed.
proof fn lemma_parse_from_wf(ls: Seq<Seq<char>>, i: int)
    requires
        0 <= i,
        forall|k: int, j: int|
            0 <= k < ls.len() && 0 <= j < ls[k].len() ==> #[trigger] ls[k][j] != '\n',
    ensures
        spec_parse_from(ls, i) matches ParseOutcome::Parsed(ds) ==> forall|k: int|
            0 <= k < ds.len() ==> dir_wf(#[trigger] ds[k]),
    decreases ls.len() - i,
{
    if i < ls.len() {
        lemma_parse_from_wf(ls, i + 1);
        assert(forall|j: int| 0 <= j < ls[i].len() ==> #[trigger] ls[i][j] != '\n');
        lemma_parse_line_wf(ls[i]);
        match spec_parse_line(ls[i]) {
            LineParse::Dir(d) => {
                match spec_parse_from(ls, i + 1) {
                    ParseOutcome::Parsed(rest) => {
                        let ds = seq![d] + rest;
                        assert forall|k: int| 0 <= k < ds.len() implies dir_wf(#[trigger] ds[k]) by {
                            if k > 0 {
                                assert(ds[k] == rest[k - 1]);
                            }
                        }
                    },
                    ParseOutcome::BadLine(_) => {},
                }
            },
            _ => {},
        }
    }
}

/// Whatever parsing a text yields is well formed.
pub proof fn lemma_parse_text_wf(text: Seq<char>)
    ensures
        spec_parse_text(text) matches ParseOutcome::Parsed(ds) ==> forall|k: int|
            0 <= k < ds.len() ==> dir_wf(#[trigger] ds[k]),
{
    crate::strutil::lemma_split_char_wf(text, '\n', |c: char| true);
    lemma_parse_from_wf(spec_lines(text), 0);
}

/// Law: one parse/serialize cycle is idempotent.  If a text
/// parses, then serializing the result and parsing again yields the
/// same directives.
pub proof fn lemma_parse_serialize_roundtrip(text: Seq<char>)
    requires
        spec_parse_text(text) is Parsed,
    ensures
        spec_parse_text(presc_text(spec_parse_text(text)->Parsed_0)) matches ParseOutcome::Parsed(
            ds2,
        ) && ds2 =~= spec_parse_text(text)->Parsed_0,
{
    lemma_parse_text_wf(text);
    lemma_presc_rt(spec_parse_text(text)->Parsed_0);
}

/// Either failure of the parse-validate-apply pipeline.
#[derive(Debug)]
pub enum PrescriptionError {
    Parse(ParseError),
    Conflict(ConflictError),
}

impl PrescriptionError {
    /// A one-line description of the failure.
    pub fn text(&self) -> (r: String)
    {
        match self {
            PrescriptionError::Parse(e) => e.text(),
            PrescriptionError::Conflict(e) => e.text(),
        }
    }
}

/// Whether every character of a token may stand in one.
fn token_ok_exec(s: &str) -> (r: bool)
    ensures
        r == token_ok(s@),
{
    let n = s.unicode_len();
    if n == 0 {
        return false;
    }
    let mut i: usize = 0;
    while i < n
        invariant
            0 <= i <= n,
            n == s@.len(),
            forall|k: int| 0 <= k < i ==> token_char_ok(#[trigger] s@[k]),
        decreases n - i,
    {
        let c = s.get_char(i);
        if c == ' ' || c == '\t' || c == '\r' || c == '#' || c == '\n' {
            return false;
        }
        i += 1;
    }
    true
}

/// Whether a path part is well formed: a non-empty token without dots.
fn part_wf_exec(s: &str) -> (r: bool)
    ensures
        r == part_wf(s@),
{
    let n = s.unicode_len();
    if n == 0 {
        return false;
    }
    let mut i: usize = 0;
    while i < n
        invariant
            0 <= i <= n,
            n == s@.len(),
            forall|k: int| 0 <= k < i ==> token_char_ok(#[trigger] s@[k]) && s@[k] != '.',
        decreases n - i,
    {
        let c = s.get_char(i);
        if c == ' ' || c == '\t' || c == '\r' || c == '#' || c == '\n' || c == '.' {
            return false;
        }
        i += 1;
    }
    true
}

impl ColPath {
    /// Whether the grammar can express this path.
    pub fn is_wf(&self) -> (r: bool)
        ensures
            r == path_wf(self@),
    {
        if self.parts.len() == 0 {
            return false;
        }
        let mut i: usize = 0;
        while i < self.parts.len()
            invariant
                0 <= i <= self.parts@.len(),
                self@.len() == self.parts@.len(),
                forall|k: int| 0 <= k < i ==> part_wf(#[trigger] self@[k]),
            decreases self.parts@.len() - i,
        {
            proof {
                assert(self@[i as int] == self.parts@[i as int]@);
            }
            if !part_wf_exec(self.parts[i].as_str()) {
                return false;
            }
            i += 1;
        }
        true
    }
}

impl FppValue {
    /// Whether the grammar can express this probability token.
    pub fn is_wf(&self) -> (r: bool)
        ensures
            r == fpp_wf(self@),
    {
        match parse_fpp(self.token.as_str(), 1, "bloom_filter_fpp") {
            Ok(_) => true,
            Err(_) => false,
        }
    }
}

impl Directive {
    /// Whether the grammar can express this directive, so that
    /// `text` renders a line that parses back to it.
    pub fn is_wf(&self) -> (r: bool)
        ensures
            r == dir_wf(self@),
    {
        match self {
            Directive::SetFileCompression(c) => codec_wf_exec(*c),
            Directive::SetFileMaxRowGroupSize(_) => true,
            Directive::SetFileDataPageSizeLimit(_) => true,
            Directive::SetFileStatisticsTruncateLength(_) => true,
            Directive::SetColumnCompression(p, c) => p.is_wf() && codec_wf_exec(*c),
            Directive::SetColumnEncoding(p, _) => p.is_wf(),
            Directive::SetColumnDictionary(p, _) => p.is_wf(),
            Directive::SetColumnDictionaryPageSizeLimit(p, _) => p.is_wf(),
            Directive::SetColumnStatistics(p, _) => p.is_wf(),
            Directive::SetColumnBloomFilter(p, _) => p.is_wf(),
            Directive::SetColumnBloomFilterNdv(p, _) => p.is_wf(),
            Directive::SetColumnBloomFilterFpp(p, f) => p.is_wf() && f.is_wf(),
        }
    }
}

/// Whether the grammar can express this codec value.
fn codec_wf_exec(c: Codec) -> (r: bool)
    ensures
        r == codec_wf(c),
{
    match c {
        Codec::Gzip(l) => l <= 9,
        Codec::Brotli(l) => l <= 11,
        Codec::Zstd(l) => 1 <= l && l <= 22,
        _ => true,
    }
}

impl Prescription {
    /// Whether every directive is expressible, so that `text` renders
    /// a prescription that parses back to the same directives.
    pub fn is_wf(&self) -> (r: bool)
        ensures
            r == forall|i: int| 0 <= i < self@.len() ==> dir_wf(#[trigger] self@[i]),
    {
        let mut i: usize = 0;
        while i < self.items.len()
            invariant
                0 <= i <= self.items@.len(),
                self@.len() == self.items@.len(),
                forall|k: int| 0 <= k < i ==> dir_wf(#[trigger] self@[k]),
            decreases self.items@.len() - i,
        {
            proof {
                assert(self@[i as int] == self.items@[i as int]@);
            }
            if !self.items[i].is_wf() {
                return false;
            }
            i += 1;
        }
        true
    }
}

} // verus!
