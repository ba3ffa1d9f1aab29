//! Verified helpers for the textual side of the library: decimal
//! rendering and parsing of integers, and splitting text into lines and
//! whitespace-separated tokens.  The spec functions here are the
//! vocabulary in which the prescription grammar is stated.

use vstd::prelude::*;

verus! {

/// Characters the tokenizer treats as blank space between tokens.
pub open spec fn is_ws(c: char) -> bool {
    c == ' ' || c == '\t' || c == '\r'
}

/// Decimal digit test.
pub open spec fn is_digit(c: char) -> bool {
    '0' <= c && c <= '9'
}

/// Numeric value of a decimal digit.
pub open spec fn digit_val(c: char) -> int {
    c as int - '0' as int
}

/// The digit character for a value below ten.
pub open spec fn digit_char(d: int) -> char {
    ((d + '0' as int) as u8) as char
}

/// Canonical decimal rendering of a natural number (no sign, no
/// leading zeroes except for zero itself).
pub open spec fn dec_seq(n: nat) -> Seq<char>
    decreases n,
{
    if n < 10 {
        seq![digit_char(n as int)]
    } else {
        dec_seq(n / 10) + seq![digit_char((n % 10) as int)]
    }
}

/// A non-empty, all-digit character sequence.
pub open spec fn is_dec(s: Seq<char>) -> bool {
    s.len() > 0 && forall|i: int| 0 <= i < s.len() ==> is_digit(#[trigger] s[i])
}

/// The value of an all-digit character sequence.
pub open spec fn dec_val(s: Seq<char>) -> nat
    decreases s.len(),
{
    if s.len() == 0 {
        0
    } else {
        (dec_val(s.drop_last()) * 10 + digit_val(s.last())) as nat
    }
}

/// The rendering and the value of a single digit agree.
pub proof fn lemma_digit_char_val(d: int)
    requires
        0 <= d < 10,
    ensures
        is_digit(digit_char(d)),
        digit_val(digit_char(d)) == d,
{
    assert(((d + '0' as int) as u8) as char as int == d + '0' as int);
}

pub proof fn lemma_dec_seq_digits(n: nat)
    ensures
        is_dec(dec_seq(n)),
        dec_seq(n).len() >= 1,
    decreases n,
{
    lemma_digit_char_val((n % 10) as int);
    if n < 10 {
        lemma_digit_char_val(n as int);
    } else {
        lemma_dec_seq_digits(n / 10);
    }
}

pub proof fn lemma_dec_seq_val(n: nat)
    ensures
        dec_val(dec_seq(n)) == n,
    decreases n,
{
    let s = dec_seq(n);
    if n < 10 {
        lemma_digit_char_val(n as int);
        assert(s.len() == 1);
        assert(s.drop_last() =~= Seq::<char>::empty());
        assert(s.last() == digit_char(n as int));
        assert(dec_val(s) == (dec_val(s.drop_last()) * 10 + digit_val(s.last())) as nat);
        assert(dec_val(s.drop_last()) == 0);
    } else {
        lemma_digit_char_val((n % 10) as int);
        lemma_dec_seq_val(n / 10);
        assert(s.len() == dec_seq(n / 10).len() + 1);
        assert(s.drop_last() =~= dec_seq(n / 10));
        assert(s.last() == digit_char((n % 10) as int));
        assert(dec_val(s) == (dec_val(s.drop_last()) * 10 + digit_val(s.last())) as nat);
        assert(dec_val(s) == (n / 10) * 10 + (n % 10));
    }
}

/// Appending digits never shrinks the value of a digit string.
pub proof fn lemma_dec_val_prefix_le(s: Seq<char>, i: int)
    requires
        0 <= i <= s.len(),
        is_dec(s),
    ensures
        dec_val(s.take(i)) <= dec_val(s),
    decreases s.len() - i,
{
    if i < s.len() {
        lemma_dec_val_prefix_le(s, i + 1);
        assert(s.take(i + 1).drop_last() =~= s.take(i));
        assert(s.take(i + 1).last() == s[i]);
        assert(dec_val(s.take(i)) <= dec_val(s.take(i + 1)));
        assert(s.take(s.len() as int) =~= s);
    } else {
        assert(s.take(i) =~= s);
    }
}

/// The digit string for a value below ten is that single digit.
fn digit_str(d: u64) -> (r: &'static str)
    requires
        d < 10,
    ensures
        r@ =~= seq![digit_char(d as int)],
{
    proof {
        reveal_strlit("0");
        reveal_strlit("1");
        reveal_strlit("2");
        reveal_strlit("3");
        reveal_strlit("4");
        reveal_strlit("5");
        reveal_strlit("6");
        reveal_strlit("7");
        reveal_strlit("8");
        reveal_strlit("9");
    }
    match d {
        0 => "0",
        1 => "1",
        2 => "2",
        3 => "3",
        4 => "4",
        5 => "5",
        6 => "6",
        7 => "7",
        8 => "8",
        _ => "9",
    }
}

/// Renders a number in canonical decimal.
pub fn u64_to_string(n: u64) -> (r: String)
    ensures
        r@ == dec_seq(n as nat),
    decreases n,
{
    if n < 10 {
        digit_str(n).to_owned()
    } else {
        let mut s = u64_to_string(n / 10);
        s.append(digit_str(n % 10));
        assert(s@ =~= dec_seq(n as nat));
        s
    }
}

/// Renders a usize in canonical decimal.
pub fn usize_to_string(n: usize) -> (r: String)
    ensures
        r@ == dec_seq(n as nat),
{
    u64_to_string(n as u64)
}

/// Parses the all-digit span `s[from..to]` as a `u64`.  Returns `None`
/// exactly when the span is empty, holds a non-digit, or its value
/// does not fit in a `u64`.
pub fn parse_u64_span(s: &str, from: usize, to: usize) -> (r: Option<u64>)
    requires
        from <= to <= s@.len(),
    ensures
        match r {
            Some(v) => is_dec(s@.subrange(from as int, to as int)) && v == dec_val(
                s@.subrange(from as int, to as int),
            ),
            None => !is_dec(s@.subrange(from as int, to as int)) || dec_val(
                s@.subrange(from as int, to as int),
            ) > u64::MAX,
        },
{
    let ghost whole = s@.subrange(from as int, to as int);
    if from == to {
        return None;
    }
    let mut acc: u64 = 0;
    let mut i: usize = from;
    while i < to
        invariant
            from <= i <= to <= s@.len(),
            whole == s@.subrange(from as int, to as int),
            is_dec(s@.subrange(from as int, i as int)) || i == from,
            acc == dec_val(s@.subrange(from as int, i as int)),
        decreases to - i,
    {
        let c = s.get_char(i);
        if !('0' <= c && c <= '9') {
            proof {
                assert(whole[i - from] == c);
                assert(!is_dec(whole));
            }
            return None;
        }
        let d: u64 = (c as u32 as u64) - 48;
        let next = match acc.checked_mul(10) {
            Some(t) => t.checked_add(d),
            None => None,
        };
        proof {
            assert(s@.subrange(from as int, i + 1 as int).drop_last() =~= s@.subrange(
                from as int,
                i as int,
            ));
            assert(s@.subrange(from as int, i + 1 as int).last() == c);
        }
        match next {
            Some(v) => {
                acc = v;
            },
            None => {
                // The prefix through this digit already exceeds u64::MAX,
                // so the whole span does too if it is all digits.
                proof {
                    let pre = s@.subrange(from as int, i + 1 as int);
                    assert(dec_val(pre) > u64::MAX);
                    if is_dec(whole) {
                        assert(pre =~= whole.take(i + 1 - from));
                        lemma_dec_val_prefix_le(whole, i + 1 - from);
                    }
                }
                return None;
            },
        }
        i += 1;
    }
    proof {
        assert(s@.subrange(from as int, to as int) =~= whole);
    }
    Some(acc)
}

/// Parses a whole string as a `u64` in decimal.
pub fn parse_u64_str(s: &str) -> (r: Option<u64>)
    ensures
        match r {
            Some(v) => is_dec(s@) && v == dec_val(s@),
            None => !is_dec(s@) || dec_val(s@) > u64::MAX,
        },
{
    let n = s.unicode_len();
    let r = parse_u64_span(s, 0, n);
    proof {
        assert(s@.subrange(0, s@.len() as int) =~= s@);
    }
    r
}

/// A canonical decimal rendering always parses back to the same value.
pub proof fn lemma_dec_roundtrip(n: u64)
    ensures
        is_dec(dec_seq(n as nat)),
        dec_val(dec_seq(n as nat)) == n,
{
    lemma_dec_seq_digits(n as nat);
    lemma_dec_seq_val(n as nat);
}

/// Character-wise string equality, stated over the views.
pub fn str_eq(a: &str, b: &str) -> (r: bool)
    ensures
        r == (a@ == b@),
{
    let na = a.unicode_len();
    let nb = b.unicode_len();
    if na != nb {
        proof {
            assert(a@ != b@);
        }
        return false;
    }
    let mut i: usize = 0;
    while i < na
        invariant
            na == a@.len(),
            na == b@.len(),
            0 <= i <= na,
            forall|k: int| 0 <= k < i ==> a@[k] == b@[k],
        decreases na - i,
    {
        if a.get_char(i) != b.get_char(i) {
            return false;
        }
        i += 1;
    }
    proof {
        assert(a@ =~= b@);
    }
    true
}

/// Everything on a line before its first `#`.
pub open spec fn strip_comment(s: Seq<char>) -> Seq<char>
    decreases s.len(),
{
    if s.len() == 0 {
        s
    } else if s[0] == '#' {
        Seq::empty()
    } else {
        seq![s[0]] + strip_comment(s.drop_first())
    }
}

/// A line split at its first `#` keeps exactly the prefix before it.
pub proof fn lemma_strip_comment_span(s: Seq<char>, i: int)
    requires
        0 <= i <= s.len(),
        forall|k: int| 0 <= k < i ==> s[k] != '#',
        i == s.len() || s[i] == '#',
    ensures
        strip_comment(s) == s.take(i),
    decreases i,
{
    if s.len() == 0 {
        assert(s.take(i) =~= s);
    } else if i == 0 {
        assert(s.take(0) =~= Seq::<char>::empty());
    } else {
        lemma_strip_comment_span(s.drop_first(), i - 1);
        assert(strip_comment(s) == seq![s[0]] + strip_comment(s.drop_first()));
        assert(s.take(i) =~= seq![s[0]] + s.drop_first().take(i - 1));
    }
}

/// A sequence without `#` is untouched by comment stripping.
pub proof fn lemma_strip_comment_clean(s: Seq<char>)
    requires
        forall|k: int| 0 <= k < s.len() ==> s[k] != '#',
    ensures
        strip_comment(s) == s,
{
    lemma_strip_comment_span(s, s.len() as int);
    assert(s.take(s.len() as int) =~= s);
}

/// Splitting at every occurrence of `sep`; always yields at least one
/// (possibly empty) piece.
pub open spec fn split_char(s: Seq<char>, sep: char) -> Seq<Seq<char>>
    decreases s.len(),
{
    if s.len() == 0 {
        seq![Seq::<char>::empty()]
    } else if s[0] == sep {
        seq![Seq::<char>::empty()] + split_char(s.drop_first(), sep)
    } else {
        let r = split_char(s.drop_first(), sep);
        seq![seq![s[0]] + r[0]] + r.drop_first()
    }
}

pub proof fn lemma_split_char_len(s: Seq<char>, sep: char)
    ensures
        split_char(s, sep).len() >= 1,
    decreases s.len(),
{
    if s.len() > 0 {
        lemma_split_char_len(s.drop_first(), sep);
    }
}

/// If `s[from..mid)` is free of `sep`, the first piece of the split of
/// `s[from..]` is exactly that span, and the rest splits the remainder.
pub proof fn lemma_split_char_step(s: Seq<char>, sep: char, from: int, mid: int)
    requires
        0 <= from <= mid <= s.len(),
        forall|k: int| from <= k < mid ==> s[k] != sep,
        mid == s.len() || s[mid] == sep,
    ensures
        mid == s.len() ==> split_char(s.skip(from), sep) == seq![s.subrange(from, mid)],
        mid < s.len() ==> split_char(s.skip(from), sep) == seq![s.subrange(from, mid)]
            + split_char(s.skip(mid + 1), sep),
    decreases mid - from,
{
    let tail = s.skip(from);
    lemma_split_char_len(tail, sep);
    if from == mid {
        if mid == s.len() {
            assert(tail.len() == 0);
            assert(s.subrange(from, mid) =~= Seq::<char>::empty());
        } else {
            assert(tail[0] == s[mid]);
            assert(tail.drop_first() =~= s.skip(mid + 1));
            assert(s.subrange(from, mid) =~= Seq::<char>::empty());
            assert(split_char(tail, sep) =~= seq![s.subrange(from, mid)] + split_char(
                s.skip(mid + 1),
                sep,
            ));
        }
    } else {
        assert(tail[0] == s[from]);
        assert(tail[0] != sep);
        lemma_split_char_step(s, sep, from + 1, mid);
        let r = split_char(s.skip(from + 1), sep);
        assert(tail.drop_first() =~= s.skip(from + 1));
        lemma_split_char_len(s.skip(from + 1), sep);
        if mid == s.len() {
            assert(r == seq![s.subrange(from + 1, mid)]);
            assert(seq![s[from]] + r[0] =~= s.subrange(from, mid));
            assert(r.drop_first() =~= Seq::<Seq<char>>::empty());
            assert(split_char(tail, sep) =~= seq![s.subrange(from, mid)]);
        } else {
            assert(r == seq![s.subrange(from + 1, mid)] + split_char(s.skip(mid + 1), sep));
            assert(r[0] == s.subrange(from + 1, mid));
            assert(seq![s[from]] + r[0] =~= s.subrange(from, mid));
            assert(r.drop_first() =~= split_char(s.skip(mid + 1), sep));
            assert(split_char(tail, sep) =~= seq![s.subrange(from, mid)] + split_char(
                s.skip(mid + 1),
                sep,
            ));
        }
    }
}

/// Whitespace-separated tokens of a line.
pub open spec fn tokenize(s: Seq<char>) -> Seq<Seq<char>>
    decreases s.len(),
{
    if s.len() == 0 {
        Seq::empty()
    } else if is_ws(s[0]) {
        tokenize(s.drop_first())
    } else {
        let r = tokenize(s.drop_first());
        if s.len() > 1 && !is_ws(s[1]) {
            seq![seq![s[0]] + r[0]] + r.drop_first()
        } else {
            seq![seq![s[0]]] + r
        }
    }
}

/// Skipping blank space does not change the tokens.
pub proof fn lemma_tokenize_ws(s: Seq<char>, i: int)
    requires
        0 <= i < s.len(),
        is_ws(s[i]),
    ensures
        tokenize(s.skip(i)) == tokenize(s.skip(i + 1)),
{
    assert(s.skip(i).drop_first() =~= s.skip(i + 1));
}

/// A maximal non-blank span `s[from..mid)` is the next token.
pub proof fn lemma_tokenize_token(s: Seq<char>, from: int, mid: int)
    requires
        0 <= from < mid <= s.len(),
        forall|k: int| from <= k < mid ==> !is_ws(s[k]),
        mid == s.len() || is_ws(s[mid]),
    ensures
        tokenize(s.skip(from)) == seq![s.subrange(from, mid)] + tokenize(s.skip(mid)),
    decreases mid - from,
{
    let tail = s.skip(from);
    assert(tail[0] == s[from]);
    assert(tail.drop_first() =~= s.skip(from + 1));
    if from + 1 == mid {
        if mid == s.len() {
            assert(tail.len() == 1);
            assert(tokenize(tail) =~= seq![seq![s[from]]] + tokenize(s.skip(mid)));
            assert(seq![s[from]] =~= s.subrange(from, mid));
        } else {
            assert(tail[1] == s[mid]);
            assert(is_ws(tail[1]));
            assert(tokenize(tail) == seq![seq![s[from]]] + tokenize(s.skip(from + 1)));
            assert(seq![s[from]] =~= s.subrange(from, mid));
        }
    } else {
        lemma_tokenize_token(s, from + 1, mid);
        let r = tokenize(s.skip(from + 1));
        assert(r == seq![s.subrange(from + 1, mid)] + tokenize(s.skip(mid)));
        assert(tail.len() > 1);
        assert(tail[1] == s[from + 1]);
        assert(!is_ws(tail[1]));
        assert(r[0] == s.subrange(from + 1, mid));
        assert(seq![s[from]] + r[0] =~= s.subrange(from, mid));
        assert(r.drop_first() =~= tokenize(s.skip(mid)));
        assert(tokenize(tail) =~= seq![s.subrange(from, mid)] + tokenize(s.skip(mid)));
    }
}

/// Tokens of the whole line, reachable from any scan position.
pub proof fn lemma_tokenize_end(s: Seq<char>)
    ensures
        tokenize(s.skip(s.len() as int)) == Seq::<Seq<char>>::empty(),
{
    assert(s.skip(s.len() as int).len() == 0);
}

/// Index of the first occurrence of `c` at or after `from`, or the length.
pub fn find_char_from(s: &str, from: usize, c: char) -> (j: usize)
    requires
        from <= s@.len(),
    ensures
        from <= j <= s@.len(),
        forall|k: int| from <= k < j ==> s@[k] != c,
        j < s@.len() ==> s@[j as int] == c,
{
    let n = s.unicode_len();
    let mut j: usize = from;
    loop
        invariant
            n == s@.len(),
            from <= j <= n,
            forall|k: int| from <= k < j ==> s@[k] != c,
        decreases n - j,
    {
        if j == n {
            return j;
        }
        if s.get_char(j) == c {
            return j;
        }
        j += 1;
    }
}

/// Index of the first blank character at or after `from`, or the length.
pub fn find_ws_from(s: &str, from: usize) -> (j: usize)
    requires
        from <= s@.len(),
    ensures
        from <= j <= s@.len(),
        forall|k: int| from <= k < j ==> !is_ws(s@[k]),
        j < s@.len() ==> is_ws(s@[j as int]),
{
    let n = s.unicode_len();
    let mut j: usize = from;
    loop
        invariant
            n == s@.len(),
            from <= j <= n,
            forall|k: int| from <= k < j ==> !is_ws(s@[k]),
        decreases n - j,
    {
        if j == n {
            return j;
        }
        let c = s.get_char(j);
        if c == ' ' || c == '\t' || c == '\r' {
            return j;
        }
        j += 1;
    }
}

/// The tokens of a line, as owned strings.
pub fn tokenize_str(s: &str) -> (r: Vec<String>)
    ensures
        r.deep_view() == tokenize(s@),
{
    let n = s.unicode_len();
    let mut r: Vec<String> = Vec::new();
    let mut i: usize = 0;
    proof {
        assert(s@.skip(0) =~= s@);
    }
    while i < n
        invariant
            n == s@.len(),
            0 <= i <= n,
            tokenize(s@) == r.deep_view() + tokenize(s@.skip(i as int)),
        decreases n - i,
    {
        let c = s.get_char(i);
        if c == ' ' || c == '\t' || c == '\r' {
            proof {
                lemma_tokenize_ws(s@, i as int);
            }
            i += 1;
        } else {
            let j = find_ws_from(s, i + 1);
            let tok = s.substring_char(i, j).to_owned();
            proof {
                lemma_tokenize_token(s@, i as int, j as int);
                assert(tok@ == s@.subrange(i as int, j as int));
            }
            let ghost old_r = r.deep_view();
            r.push(tok);
            proof {
                assert(r.deep_view() =~= old_r + seq![tok@]);
                assert(r.deep_view() + tokenize(s@.skip(j as int)) =~= old_r + (seq![tok@]
                    + tokenize(s@.skip(j as int))));
            }
            i = j;
        }
    }
    proof {
        lemma_tokenize_end(s@);
        assert(r.deep_view() =~= r.deep_view() + tokenize(s@.skip(s@.len() as int)));
    }
    r
}

/// The lines of a text: the pieces between newline characters.
pub open spec fn spec_lines(s: Seq<char>) -> Seq<Seq<char>> {
    split_char(s, '\n')
}

/// The lines of a text, as owned strings.
pub fn lines_str(s: &str) -> (r: Vec<String>)
    ensures
        r.deep_view() == spec_lines(s@),
{
    let n = s.unicode_len();
    let mut r: Vec<String> = Vec::new();
    let mut i: usize = 0;
    proof {
        assert(s@.skip(0) =~= s@);
    }
    loop
        invariant
            n == s@.len(),
            0 <= i <= n,
            spec_lines(s@) == r.deep_view() + split_char(s@.skip(i as int), '\n'),
        decreases n - i,
    {
        let ghost target = spec_lines(s@);
        let j = find_char_from(s, i, '\n');
        let piece = s.substring_char(i, j).to_owned();
        proof {
            lemma_split_char_step(s@, '\n', i as int, j as int);
            assert(piece@ == s@.subrange(i as int, j as int));
        }
        let ghost old_r = r.deep_view();
        r.push(piece);
        proof {
            assert(r.deep_view() =~= old_r + seq![piece@]);
        }
        if j == n {
            proof {
                assert(piece@ =~= s@.subrange(i as int, j as int));
                assert(r.deep_view() =~= target);
            }
            return r;
        }
        proof {
            assert(split_char(s@.skip(i as int), '\n') == seq![s@.subrange(i as int, j as int)]
                + split_char(s@.skip(j + 1 as int), '\n'));
            assert(r.deep_view() + split_char(s@.skip(j + 1 as int), '\n') =~= old_r + (seq![piece@]
                + split_char(s@.skip(j + 1 as int), '\n')));
        }
        i = j + 1;
    }
}

/// The portion of a line before any comment, as an owned string.
pub fn strip_comment_str(s: &str) -> (r: String)
    ensures
        r@ == strip_comment(s@),
{
    let j = find_char_from(s, 0, '#');
    let r = s.substring_char(0, j).to_owned();
    proof {
        lemma_strip_comment_span(s@, j as int);
        assert(r@ == s@.subrange(0, j as int));
        assert(s@.take(j as int) =~= s@.subrange(0, j as int));
    }
    r
}

/// Character-level facts about every piece of a split: a piece never
/// contains the separator, and any property of the source characters
/// carries over.
pub proof fn lemma_split_char_wf(s: Seq<char>, sep: char, q: spec_fn(char) -> bool)
    requires
        forall|i: int| 0 <= i < s.len() ==> q(#[trigger] s[i]),
    ensures
        forall|k: int, j: int|
            #![trigger split_char(s, sep)[k][j]]
            0 <= k < split_char(s, sep).len() && 0 <= j < split_char(s, sep)[k].len() ==> q(
                split_char(s, sep)[k][j],
            ) && split_char(s, sep)[k][j] != sep,
    decreases s.len(),
{
    if s.len() == 0 {
    } else {
        assert(forall|i: int| 0 <= i < s.drop_first().len() ==> q(#[trigger] s.drop_first()[i]));
        lemma_split_char_wf(s.drop_first(), sep, q);
        let r = split_char(s.drop_first(), sep);
        lemma_split_char_len(s.drop_first(), sep);
        if s[0] == sep {
        } else {
            let parts = split_char(s, sep);
            assert(parts[0] == seq![s[0]] + r[0]);
            assert(q(s[0]) && s[0] != sep);
            assert forall|k: int, j: int|
                0 <= k < parts.len() && 0 <= j < parts[k].len() implies q(#[trigger] parts[k][j])
                && parts[k][j] != sep by {
                if k == 0 {
                    if j == 0 {
                    } else {
                        assert(parts[0][j] == r[0][j - 1]);
                    }
                } else {
                    assert(parts[k] == r[k]);
                }
            }
        }
    }
}

/// Character-level facts about every token: tokens are non-empty, never
/// contain blank space, and any property of the source characters
/// carries over.
pub proof fn lemma_tokenize_wf(s: Seq<char>, q: spec_fn(char) -> bool)
    requires
        forall|i: int| 0 <= i < s.len() ==> q(#[trigger] s[i]),
    ensures
        forall|k: int|
            0 <= k < tokenize(s).len() ==> (#[trigger] tokenize(s)[k]).len() > 0,
        forall|k: int, j: int|
            #![trigger tokenize(s)[k][j]]
            0 <= k < tokenize(s).len() && 0 <= j < tokenize(s)[k].len() ==> q(tokenize(s)[k][j])
                && !is_ws(tokenize(s)[k][j]),
    decreases s.len(),
{
    if s.len() == 0 {
    } else {
        assert(forall|i: int| 0 <= i < s.drop_first().len() ==> q(#[trigger] s.drop_first()[i]));
        lemma_tokenize_wf(s.drop_first(), q);
        let r = tokenize(s.drop_first());
        let toks = tokenize(s);
        if is_ws(s[0]) {
        } else if s.len() > 1 && !is_ws(s[1]) {
            assert(s.drop_first()[0] == s[1]);
            assert(r.len() >= 1);
            assert(toks[0] == seq![s[0]] + r[0]);
            assert forall|k: int, j: int|
                0 <= k < toks.len() && 0 <= j < toks[k].len() implies q(#[trigger] toks[k][j])
                && !is_ws(toks[k][j]) by {
                if k == 0 {
                    if j == 0 {
                    } else {
                        assert(toks[0][j] == r[0][j - 1]);
                    }
                } else {
                    assert(toks[k] == r[k]);
                }
            }
        } else {
            assert(toks[0] == seq![s[0]]);
            assert forall|k: int, j: int|
                0 <= k < toks.len() && 0 <= j < toks[k].len() implies q(#[trigger] toks[k][j])
                && !is_ws(toks[k][j]) by {
                if k == 0 {
                } else {
                    assert(toks[k] == r[k - 1]);
                }
            }
        }
    }
}

/// Comment stripping keeps only characters of the source and never
/// keeps a `#`.
pub proof fn lemma_strip_comment_wf(s: Seq<char>, q: spec_fn(char) -> bool)
    requires
        forall|i: int| 0 <= i < s.len() ==> q(#[trigger] s[i]),
    ensures
        forall|i: int|
            0 <= i < strip_comment(s).len() ==> q(#[trigger] strip_comment(s)[i]) && strip_comment(
                s,
            )[i] != '#',
    decreases s.len(),
{
    if s.len() == 0 {
    } else if s[0] == '#' {
    } else {
        assert(forall|i: int| 0 <= i < s.drop_first().len() ==> q(#[trigger] s.drop_first()[i]));
        lemma_strip_comment_wf(s.drop_first(), q);
        let r = strip_comment(s);
        assert forall|i: int| 0 <= i < r.len() implies q(#[trigger] r[i]) && r[i] != '#' by {
            if i > 0 {
                assert(r[i] == strip_comment(s.drop_first())[i - 1]);
            }
        }
    }
}

/// Pieces joined with a single separator between them.
pub open spec fn join_char(parts: Seq<Seq<char>>, sep: char) -> Seq<char>
    decreases parts.len(),
{
    if parts.len() == 0 {
        Seq::empty()
    } else if parts.len() == 1 {
        parts[0]
    } else {
        parts[0] + seq![sep] + join_char(parts.drop_first(), sep)
    }
}

/// Every character of a join is a character of some piece, or the
/// separator.
pub proof fn lemma_join_chars(parts: Seq<Seq<char>>, sep: char, q: spec_fn(char) -> bool)
    requires
        q(sep),
        forall|k: int, j: int|
            0 <= k < parts.len() && 0 <= j < parts[k].len() ==> q(#[trigger] parts[k][j]),
    ensures
        forall|i: int|
            0 <= i < join_char(parts, sep).len() ==> q(#[trigger] join_char(parts, sep)[i]),
    decreases parts.len(),
{
    if parts.len() == 0 {
    } else if parts.len() == 1 {
        assert(forall|j: int| 0 <= j < parts[0].len() ==> q(#[trigger] parts[0][j]));
    } else {
        assert(forall|k: int, j: int|
            0 <= k < parts.drop_first().len() && 0 <= j < parts.drop_first()[k].len() ==> q(
                #[trigger] parts.drop_first()[k][j],
            ));
        lemma_join_chars(parts.drop_first(), sep, q);
        let s = join_char(parts, sep);
        let rest = join_char(parts.drop_first(), sep);
        let m = parts[0].len() as int;
        assert forall|i: int| 0 <= i < s.len() implies q(#[trigger] s[i]) by {
            if i < m {
                assert(s[i] == parts[0][i]);
            } else if i == m {
                assert(s[i] == sep);
            } else {
                assert(s[i] == rest[i - m - 1]);
            }
        }
    }
}

/// Tokenizing undoes joining with a single blank, provided every piece
/// is a non-empty token without blank space.
pub proof fn lemma_tokenize_join(parts: Seq<Seq<char>>)
    requires
        parts.len() >= 1,
        forall|k: int| 0 <= k < parts.len() ==> (#[trigger] parts[k]).len() > 0,
        forall|k: int, j: int|
            0 <= k < parts.len() && 0 <= j < parts[k].len() ==> !is_ws(#[trigger] parts[k][j]),
    ensures
        tokenize(join_char(parts, ' ')) == parts,
    decreases parts.len(),
{
    let s = join_char(parts, ' ');
    if parts.len() == 1 {
        assert(s == parts[0]);
        lemma_tokenize_token(s, 0, s.len() as int);
        assert(s.skip(0) =~= s);
        assert(s.subrange(0, s.len() as int) =~= s);
        assert(tokenize(s.skip(s.len() as int)) =~= Seq::<Seq<char>>::empty());
        assert(tokenize(s) =~= seq![s]);
        assert(seq![s] =~= parts);
    } else {
        assert(forall|k: int| 0 <= k < parts.drop_first().len() ==> (#[trigger] parts.drop_first()[k]).len()
            > 0);
        assert(forall|k: int, j: int|
            0 <= k < parts.drop_first().len() && 0 <= j < parts.drop_first()[k].len() ==> !is_ws(
                #[trigger] parts.drop_first()[k][j],
            ));
        lemma_tokenize_join(parts.drop_first());
        let rest = join_char(parts.drop_first(), ' ');
        assert(s =~= parts[0] + seq![' '] + rest);
        let m = parts[0].len() as int;
        assert(forall|i: int| 0 <= i < m ==> s[i] == parts[0][i] && !is_ws(#[trigger] s[i]));
        assert(s[m] == ' ');
        lemma_tokenize_token(s, 0, m);
        assert(s.skip(0) =~= s);
        assert(tokenize(s) == seq![s.subrange(0, m)] + tokenize(s.skip(m)));
        lemma_tokenize_ws(s, m);
        assert(s.skip(m + 1) =~= rest);
        assert(s.subrange(0, m) =~= parts[0]);
        assert(tokenize(s) =~= seq![parts[0]] + tokenize(rest));
        assert(seq![parts[0]] + parts.drop_first() =~= parts);
        assert(tokenize(s) =~= parts);
    }
}

/// Splitting undoes joining, provided no piece contains the separator.
pub proof fn lemma_split_join(parts: Seq<Seq<char>>, sep: char)
    requires
        parts.len() >= 1,
        forall|i: int, k: int|
            0 <= i < parts.len() && 0 <= k < parts[i].len() ==> #[trigger] parts[i][k] != sep,
    ensures
        split_char(join_char(parts, sep), sep) == parts,
    decreases parts.len(),
{
    let s = join_char(parts, sep);
    if parts.len() == 1 {
        lemma_split_char_step(s, sep, 0, s.len() as int);
        assert(s.skip(0) =~= s);
        assert(s.subrange(0, s.len() as int) =~= s);
        assert(split_char(s, sep) =~= seq![parts[0]]);
        assert(seq![parts[0]] =~= parts);
    } else {
        lemma_split_join(parts.drop_first(), sep);
        let head = parts[0];
        let rest = join_char(parts.drop_first(), sep);
        assert(s =~= head + seq![sep] + rest);
        let m = head.len() as int;
        assert(forall|k: int| 0 <= k < m ==> s[k] == head[k] && s[k] != sep);
        assert(s[m] == sep);
        lemma_split_char_step(s, sep, 0, m);
        assert(s.skip(0) =~= s);
        assert(s.subrange(0, m) =~= head);
        assert(s.skip(m + 1) =~= rest);
        assert(split_char(s, sep) == seq![head] + split_char(rest, sep));
        assert(seq![head] + parts.drop_first() =~= parts);
    }
}

/// The first non-blank position at or after `i`, or the length.
pub open spec fn first_non_ws(s: Seq<char>, i: int) -> int
    decreases s.len() - i,
{
    if i < 0 || i >= s.len() {
        s.len() as int
    } else if !is_ws(s[i]) {
        i
    } else {
        first_non_ws(s, i + 1)
    }
}

/// One past the last non-blank position below `i`, or zero.
pub open spec fn after_last_non_ws(s: Seq<char>, i: int) -> int
    decreases i,
{
    if i <= 0 {
        0
    } else if !is_ws(s[i - 1]) {
        i
    } else {
        after_last_non_ws(s, i - 1)
    }
}

/// The line without leading and trailing blank space.
pub open spec fn spec_trim(s: Seq<char>) -> Seq<char> {
    let a = first_non_ws(s, 0);
    if a == s.len() {
        Seq::empty()
    } else {
        s.subrange(a, after_last_non_ws(s, s.len() as int))
    }
}

/// A blank prefix and a non-blank (or absent) boundary pin down
/// `first_non_ws`.
proof fn lemma_first_non_ws_at(s: Seq<char>, i: int, j: int)
    requires
        0 <= i <= j <= s.len(),
        forall|k: int| i <= k < j ==> is_ws(#[trigger] s[k]),
        j == s.len() || !is_ws(s[j]),
    ensures
        first_non_ws(s, i) == j,
    decreases j - i,
{
    if i < j {
        lemma_first_non_ws_at(s, i + 1, j);
    }
}

/// A blank suffix and a non-blank (or absent) boundary pin down
/// `after_last_non_ws`.
proof fn lemma_after_last_non_ws_at(s: Seq<char>, b: int, i: int)
    requires
        0 <= b <= i <= s.len(),
        forall|k: int| b <= k < i ==> is_ws(#[trigger] s[k]),
        b == 0 || !is_ws(s[b - 1]),
    ensures
        after_last_non_ws(s, i) == b,
    decreases i - b,
{
    if b < i {
        lemma_after_last_non_ws_at(s, b, i - 1);
    }
}

/// Index of the first non-blank character at or after `from`, or the
/// length.
fn find_non_ws_from(s: &str, from: usize) -> (j: usize)
    requires
        from <= s@.len(),
    ensures
        from <= j <= s@.len(),
        forall|k: int| from <= k < j ==> is_ws(#[trigger] s@[k]),
        j < s@.len() ==> !is_ws(s@[j as int]),
{
    let n = s.unicode_len();
    let mut j: usize = from;
    loop
        invariant
            n == s@.len(),
            from <= j <= n,
            forall|k: int| from <= k < j ==> is_ws(#[trigger] s@[k]),
        decreases n - j,
    {
        if j == n {
            return j;
        }
        let c = s.get_char(j);
        if !(c == ' ' || c == '\t' || c == '\r') {
            return j;
        }
        j += 1;
    }
}

/// Trims leading and trailing blank space.
pub fn trim_str(s: &str) -> (r: String)
    ensures
        r@ == spec_trim(s@),
{
    let n = s.unicode_len();
    let a = find_non_ws_from(s, 0);
    if a == n {
        proof {
            lemma_first_non_ws_at(s@, 0, n as int);
        }
        let r = String::new();
        proof {
            assert(r@ =~= spec_trim(s@));
        }
        return r;
    }
    proof {
        lemma_first_non_ws_at(s@, 0, a as int);
    }
    let mut b: usize = n;
    while b > a + 1
        invariant
            a < n,
            a + 1 <= b <= n,
            n == s@.len(),
            first_non_ws(s@, 0) == a as int,
            !is_ws(s@[a as int]),
            forall|k: int| b <= k < n ==> is_ws(#[trigger] s@[k]),
        decreases b,
    {
        let c = s.get_char(b - 1);
        if !(c == ' ' || c == '\t' || c == '\r') {
            proof {
                lemma_after_last_non_ws_at(s@, b as int, n as int);
            }
            let r = s.substring_char(a, b).to_owned();
            proof {
                assert(r@ =~= spec_trim(s@));
            }
            return r;
        }
        b -= 1;
    }
    // Only the first non-blank character remains.
    proof {
        assert(b == a + 1);
        if is_ws(s@[a as int]) {
            assert(false);
        }
        lemma_after_last_non_ws_at(s@, b as int, n as int);
    }
    let r = s.substring_char(a, b).to_owned();
    proof {
        assert(r@ =~= spec_trim(s@));
    }
    return r;
}

/// The non-blank, non-comment lines of a manifest text, in order.
pub open spec fn spec_urls(lines: Seq<Seq<char>>, i: int) -> Seq<Seq<char>>
    decreases lines.len() - i,
{
    if i < 0 || i >= lines.len() {
        Seq::empty()
    } else {
        let t = spec_trim(strip_comment(lines[i]));
        (if t.len() > 0 {
            seq![t]
        } else {
            Seq::empty()
        }) + spec_urls(lines, i + 1)
    }
}

/// Parses a manifest text into its entries: one per line, `#` comments
/// and blank lines ignored.
pub fn parse_urls(text: &str) -> (r: Vec<String>)
    ensures
        r.deep_view() =~~= spec_urls(spec_lines(text@), 0),
{
    let lines = lines_str(text);
    let ghost lv = spec_lines(text@);
    proof {
        assert(lines.deep_view() =~= lv);
    }
    let n = lines.len();
    let mut r: Vec<String> = Vec::new();
    let mut i: usize = 0;
    while i < n
        invariant
            0 <= i <= n,
            n == lv.len(),
            n == lines@.len(),
            lines.deep_view() =~= lv,
            spec_urls(lv, 0) =~~= r.deep_view() + spec_urls(lv, i as int),
        decreases n - i,
    {
        proof {
            assert(lines.deep_view()[i as int] == lv[i as int]);
        }
        let stripped = strip_comment_str(lines[i].as_str());
        let trimmed = trim_str(stripped.as_str());
        let ghost old_r = r.deep_view();
        if trimmed.as_str().unicode_len() > 0 {
            proof {
                assert(trimmed@ == spec_trim(strip_comment(lv[i as int])));
            }
            r.push(trimmed);
            proof {
                assert(r.deep_view() =~= old_r.push(spec_trim(strip_comment(lv[i as int]))));
                assert(r.deep_view() + spec_urls(lv, i + 1 as int) =~~= old_r + (seq![
                    spec_trim(strip_comment(lv[i as int])),
                ] + spec_urls(lv, i + 1 as int)));
            }
        } else {
            proof {
                assert(spec_urls(lv, i as int) =~~= spec_urls(lv, i + 1 as int));
            }
        }
        i += 1;
    }
    proof {
        assert(spec_urls(lv, n as int) =~~= Seq::<Seq<char>>::empty());
        assert(r.deep_view() + spec_urls(lv, n as int) =~~= r.deep_view());
    }
    r
}

/// The local path of a numbered input file under a data directory.
pub fn file_path(data_dir: &str, id: usize) -> (r: String)
    ensures
        r@ == data_dir@ + "/"@ + dec_seq(id as nat) + ".parquet"@,
{
    let mut s = data_dir.to_owned();
    s.append("/");
    s.append(usize_to_string(id).as_str());
    s.append(".parquet");
    s
}

} // verus!
