//! Character-level text handling shared by the command builders and the
//! output parsers: Unicode whitespace, trimming, first-line extraction,
//! decimal rendering and UTF-8 / lowercase conversions.
use vstd::prelude::*;
use vstd::utf8::*;

verus! {

/// Characters with the Unicode `White_Space` property (the set that
/// `char::is_whitespace` and `str::trim` use).
pub open spec fn is_whitespace(c: char) -> bool {
    ||| ('\u{9}' <= c && c <= '\u{d}')
    ||| c == ' '
    ||| c == '\u{85}'
    ||| c == '\u{a0}'
    ||| c == '\u{1680}'
    ||| ('\u{2000}' <= c && c <= '\u{200a}')
    ||| c == '\u{2028}'
    ||| c == '\u{2029}'
    ||| c == '\u{202f}'
    ||| c == '\u{205f}'
    ||| c == '\u{3000}'
}

/// `s` with its leading whitespace removed.
pub open spec fn trim_start(s: Seq<char>) -> Seq<char>
    decreases s.len(),
{
    if s.len() > 0 && is_whitespace(s[0]) {
        trim_start(s.drop_first())
    } else {
        s
    }
}

/// `s` with its trailing whitespace removed.
pub open spec fn trim_end(s: Seq<char>) -> Seq<char>
    decreases s.len(),
{
    if s.len() > 0 && is_whitespace(s.last()) {
        trim_end(s.drop_last())
    } else {
        s
    }
}

/// `s` with leading and trailing whitespace removed.
pub open spec fn trim(s: Seq<char>) -> Seq<char> {
    trim_end(trim_start(s))
}

/// True when `s` holds nothing but whitespace.
pub open spec fn is_blank(s: Seq<char>) -> bool {
    trim(s).len() == 0
}

/// The prefix of `s` before its first line feed (all of `s` if it has none).
pub open spec fn until_newline(s: Seq<char>) -> Seq<char>
    decreases s.len(),
{
    if s.len() == 0 {
        s
    } else if s[0] == '\n' {
        Seq::empty()
    } else {
        seq![s[0]] + until_newline(s.drop_first())
    }
}

/// The first line of `text` that is not blank, trimmed; empty when every
/// line is blank.  (A line feed is itself whitespace, so this is the text
/// from the first non-blank character to the end of its line, with the
/// trailing blanks of that line removed.)
pub open spec fn first_line(text: Seq<char>) -> Seq<char> {
    trim_end(until_newline(trim_start(text)))
}

/// Trimming the start leaves a text that is empty or starts with a
/// non-blank character, and is no longer than `s`.
proof fn lemma_trim_start_shape(s: Seq<char>)
    ensures
        trim_start(s).len() > 0 ==> !is_whitespace(trim_start(s)[0]),
        trim_start(s).len() <= s.len(),
    decreases s.len(),
{
    if s.len() > 0 && is_whitespace(s[0]) {
        lemma_trim_start_shape(s.drop_first());
    }
}

/// Trimming the end keeps a prefix that is empty or ends with a non-blank
/// character.
proof fn lemma_trim_end_shape(s: Seq<char>)
    ensures
        trim_end(s).len() <= s.len(),
        trim_end(s) == s.take(trim_end(s).len() as int),
        trim_end(s).len() > 0 ==> !is_whitespace(trim_end(s).last()),
    decreases s.len(),
{
    if s.len() > 0 && is_whitespace(s.last()) {
        lemma_trim_end_shape(s.drop_last());
        assert(s.drop_last().take(trim_end(s).len() as int) =~= s.take(trim_end(s).len() as int));
    } else {
        assert(s.take(s.len() as int) =~= s);
    }
}

/// The text before the first line feed holds no line feed and is a prefix.
proof fn lemma_until_newline_shape(s: Seq<char>)
    ensures
        !until_newline(s).contains('\n'),
        until_newline(s).len() <= s.len(),
        until_newline(s) == s.take(until_newline(s).len() as int),
    decreases s.len(),
{
    if s.len() > 0 && s[0] != '\n' {
        let rest = s.drop_first();
        lemma_until_newline_shape(rest);
        let u = until_newline(s);
        assert(u =~= seq![s[0]] + until_newline(rest));
        assert(s.take(u.len() as int) =~= seq![s[0]] + rest.take(until_newline(rest).len() as int));
        assert forall|k: int| 0 <= k < u.len() implies u[k] != '\n' by {
            if k > 0 {
                assert(u[k] == until_newline(rest)[k - 1]);
            }
        }
    } else if s.len() > 0 {
        assert(s.take(0) =~= Seq::<char>::empty());
    }
}

/// The line that `first_line` picks is one line, trimmed: it holds no line
/// feed and neither starts nor ends with whitespace.
pub proof fn lemma_first_line_is_one_trimmed_line(text: Seq<char>)
    ensures
        !first_line(text).contains('\n'),
        first_line(text).len() > 0 ==> !is_whitespace(first_line(text)[0]) && !is_whitespace(
            first_line(text).last(),
        ),
{
    let t = trim_start(text);
    let u = until_newline(t);
    let r = trim_end(u);
    lemma_trim_start_shape(text);
    lemma_until_newline_shape(t);
    lemma_trim_end_shape(u);
    if r.len() > 0 {
        assert(r[0] == u[0]);
        assert(u[0] == t[0]);
    }
    assert forall|k: int| 0 <= k < r.len() implies r[k] != '\n' by {
        assert(r[k] == u[k]);
    }
}

/// The decimal digit for `d < 10`.
pub open spec fn digit_char(d: nat) -> char {
    seq!['0', '1', '2', '3', '4', '5', '6', '7', '8', '9'][d as int]
}

/// The decimal rendering of a natural number, without leading zeros.
pub open spec fn decimal(n: nat) -> Seq<char>
    decreases n,
{
    if n < 10 {
        seq![digit_char(n)]
    } else {
        decimal(n / 10).push(digit_char(n % 10))
    }
}

/// The decimal rendering of an integer, with a leading `-` when negative.
pub open spec fn signed_decimal(i: int) -> Seq<char> {
    if i < 0 {
        seq!['-'] + decimal((-i) as nat)
    } else {
        decimal(i as nat)
    }
}

/// ASCII lowercase of one character; other characters are unchanged.
pub open spec fn ascii_lower(c: char) -> char {
    if 'A' <= c && c <= 'Z' {
        ((c as u32) + 32) as char
    } else {
        c
    }
}

/// ASCII case-insensitive equality of two strings.
pub open spec fn eq_ignore_ascii_case(a: Seq<char>, b: Seq<char>) -> bool {
    &&& a.len() == b.len()
    &&& forall|i: int| 0 <= i < a.len() ==> ascii_lower(#[trigger] a[i]) == ascii_lower(b[i])
}

/// The UTF-16 code units of one character.
pub open spec fn utf16_units(c: char) -> Seq<u16> {
    let v = c as u32;
    if v < 0x10000 {
        seq![v as u16]
    } else {
        seq![(0xd800 + (v - 0x10000) / 0x400) as u16, (0xdc00 + (v - 0x10000) % 0x400) as u16]
    }
}

/// The UTF-16 encoding of a text.
pub open spec fn encode_utf16(s: Seq<char>) -> Seq<u16>
    decreases s.len(),
{
    if s.len() == 0 {
        Seq::empty()
    } else {
        encode_utf16(s.drop_last()) + utf16_units(s.last())
    }
}

/// The text that `String::from_utf8_lossy` makes of `bytes`.
pub uninterp spec fn utf8_lossy(bytes: Seq<u8>) -> Seq<char>;

/// The text that `str::to_lowercase` makes of `s`.
pub uninterp spec fn lowercase(s: Seq<char>) -> Seq<char>;

/// `String::push`: appends one character.
#[verifier::external_body]
pub(crate) fn push_char(s: &mut String, c: char)
    ensures
        final(s)@ == old(s)@.push(c),
{
    s.push(c);
}

/// `String::from_utf8_lossy`: decodes `bytes`, replacing each invalid
/// sequence with U+FFFD.  The contract names the result and states the one
/// documented fact callers use: valid UTF-8 is decoded as is.
#[verifier::external_body]
pub(crate) fn decode_lossy(bytes: &[u8]) -> (s: String)
    ensures
        s@ == utf8_lossy(bytes@),
        valid_utf8(bytes@) ==> s@ == decode_utf8(bytes@),
{
    String::from_utf8_lossy(bytes).into_owned()
}

/// `String::from_utf8`: succeeds exactly on valid UTF-8, with its decoding.
#[verifier::external_body]
pub(crate) fn decode_strict(bytes: &[u8]) -> (s: Option<String>)
    ensures
        s is Some <==> valid_utf8(bytes@),
        s matches Some(t) ==> t@ == decode_utf8(bytes@),
{
    String::from_utf8(bytes.to_vec()).ok()
}

/// `str::to_lowercase`: the Unicode lowercase mapping of `s`.
#[verifier::external_body]
pub(crate) fn to_lowercase(s: &str) -> (r: String)
    ensures
        r@ == lowercase(s@),
{
    s.to_lowercase()
}

/// The characters of `s`, in order.
pub fn chars_of(s: &str) -> (v: Vec<char>)
    ensures
        v@ == s@,
{
    let mut v: Vec<char> = Vec::new();
    for c in it: s.chars()
        invariant
            v@ == it.seq().take(it.index() as int),
    {
        v.push(c);
    }
    v
}

/// A new string holding `v[start..end]`.
pub fn string_of(v: &Vec<char>, start: usize, end: usize) -> (s: String)
    requires
        start <= end <= v.len(),
    ensures
        s@ == v@.subrange(start as int, end as int),
{
    let mut s = String::new();
    let mut i = start;
    while i < end
        invariant
            start <= i <= end <= v.len(),
            s@ == v@.subrange(start as int, i as int),
        decreases end - i,
    {
        push_char(&mut s, v[i]);
        assert(v@.subrange(start as int, i + 1) =~= v@.subrange(start as int, i as int).push(v@[i as int]));
        i += 1;
    }
    s
}

/// Whether `c` is Unicode whitespace.
pub fn is_whitespace_char(c: char) -> (r: bool)
    ensures
        r == is_whitespace(c),
{
    ('\u{9}' <= c && c <= '\u{d}') || c == ' ' || c == '\u{85}' || c == '\u{a0}' || c == '\u{1680}'
        || ('\u{2000}' <= c && c <= '\u{200a}') || c == '\u{2028}' || c == '\u{2029}'
        || c == '\u{202f}' || c == '\u{205f}' || c == '\u{3000}'
}

/// The index at which the leading whitespace of `v[start..end]` ends.
pub fn skip_whitespace(v: &Vec<char>, start: usize, end: usize) -> (i: usize)
    requires
        start <= end <= v.len(),
    ensures
        start <= i <= end,
        trim_start(v@.subrange(start as int, end as int)) == v@.subrange(i as int, end as int),
{
    let mut i = start;
    while i < end && is_whitespace_char(v[i])
        invariant
            start <= i <= end <= v.len(),
            trim_start(v@.subrange(start as int, end as int)) == trim_start(
                v@.subrange(i as int, end as int),
            ),
        decreases end - i,
    {
        assert(v@.subrange(i as int, end as int).drop_first() =~= v@.subrange(i + 1, end as int));
        i += 1;
    }
    i
}

/// The index at which `v[start..end]` ends once its trailing whitespace is removed.
pub fn trim_end_index(v: &Vec<char>, start: usize, end: usize) -> (j: usize)
    requires
        start <= end <= v.len(),
    ensures
        start <= j <= end,
        trim_end(v@.subrange(start as int, end as int)) == v@.subrange(start as int, j as int),
{
    let mut j = end;
    while j > start && is_whitespace_char(v[j - 1])
        invariant
            start <= j <= end <= v.len(),
            trim_end(v@.subrange(start as int, end as int)) == trim_end(
                v@.subrange(start as int, j as int),
            ),
        decreases j - start,
    {
        assert(v@.subrange(start as int, j as int).drop_last() =~= v@.subrange(
            start as int,
            j - 1,
        ));
        j -= 1;
    }
    j
}

/// The bounds of `v` once leading and trailing whitespace are removed.
pub fn trim_bounds(v: &Vec<char>) -> (r: (usize, usize))
    ensures
        r.0 <= r.1 <= v.len(),
        trim(v@) == v@.subrange(r.0 as int, r.1 as int),
{
    assert(v@.subrange(0, v.len() as int) =~= v@);
    let i = skip_whitespace(v, 0, v.len());
    let j = trim_end_index(v, i, v.len());
    (i, j)
}

/// `s` with leading and trailing whitespace removed.
pub fn trimmed(s: &str) -> (r: String)
    ensures
        r@ == trim(s@),
{
    let v = chars_of(s);
    let (i, j) = trim_bounds(&v);
    string_of(&v, i, j)
}

/// Whether `s` holds nothing but whitespace.
pub fn blank(s: &str) -> (r: bool)
    ensures
        r == is_blank(s@),
{
    let v = chars_of(s);
    let (i, j) = trim_bounds(&v);
    i == j
}

/// The end of the line that starts at `start`: the index of the next line
/// feed at or after `start`, or `v.len()`.
pub fn line_end(v: &Vec<char>, start: usize) -> (k: usize)
    requires
        start <= v.len(),
    ensures
        start <= k <= v.len(),
        until_newline(v@.subrange(start as int, v.len() as int)) == v@.subrange(
            start as int,
            k as int,
        ),
{
    let mut k = start;
    while k < v.len() && v[k] != '\n'
        invariant
            start <= k <= v.len(),
            until_newline(v@.subrange(start as int, v.len() as int)) == v@.subrange(
                start as int,
                k as int,
            ) + until_newline(v@.subrange(k as int, v.len() as int)),
        decreases v.len() - k,
    {
        let ghost rest = v@.subrange(k as int, v.len() as int);
        assert(rest.drop_first() =~= v@.subrange(k + 1, v.len() as int));
        assert(v@.subrange(start as int, k as int) + seq![v@[k as int]] =~= v@.subrange(
            start as int,
            k + 1,
        ));
        assert(v@.subrange(start as int, k as int) + (seq![v@[k as int]] + until_newline(
            rest.drop_first(),
        )) =~= v@.subrange(start as int, k + 1) + until_newline(rest.drop_first()));
        k += 1;
    }
    assert(v@.subrange(start as int, k as int) + until_newline(
        v@.subrange(k as int, v.len() as int),
    ) =~= v@.subrange(start as int, k as int));
    k
}

/// The first non-blank line of `text`, trimmed.
pub fn first_line_of(text: &str) -> (r: String)
    ensures
        r@ == first_line(text@),
{
    let v = chars_of(text);
    assert(v@.subrange(0, v.len() as int) =~= v@);
    let i = skip_whitespace(&v, 0, v.len());
    let k = line_end(&v, i);
    let j = trim_end_index(&v, i, k);
    string_of(&v, i, j)
}

/// The decimal digit `d`.
pub fn digit(d: u64) -> (c: char)
    requires
        d < 10,
    ensures
        c == digit_char(d as nat),
{
    match d {
        0 => '0',
        1 => '1',
        2 => '2',
        3 => '3',
        4 => '4',
        5 => '5',
        6 => '6',
        7 => '7',
        8 => '8',
        _ => '9',
    }
}

/// Appends the decimal rendering of `n` to `out`.
pub fn push_decimal(out: &mut String, n: u64)
    ensures
        final(out)@ == old(out)@ + decimal(n as nat),
    decreases n,
{
    if n >= 10 {
        push_decimal(out, n / 10);
    }
    push_char(out, digit(n % 10));
    proof {
        if n >= 10 {
            assert(old(out)@ + decimal((n / 10) as nat) + seq![digit_char((n % 10) as nat)]
                =~= old(out)@ + decimal(n as nat));
        } else {
            assert(old(out)@.push(digit_char((n % 10) as nat)) =~= old(out)@ + decimal(n as nat));
        }
    }
}

/// Appends the decimal rendering of `i` (with a sign when negative) to `out`.
pub fn push_signed_decimal(out: &mut String, i: i64)
    ensures
        final(out)@ == old(out)@ + signed_decimal(i as int),
{
    if i < 0 {
        push_char(out, '-');
        let magnitude: u64 = if i == i64::MIN {
            9223372036854775808u64
        } else {
            (-i) as u64
        };
        push_decimal(out, magnitude);
        assert(old(out)@.push('-') + decimal(magnitude as nat) =~= old(out)@ + (seq!['-']
            + decimal((-i) as nat)));
    } else {
        push_decimal(out, i as u64);
    }
}

/// ASCII lowercase of one character.
pub fn ascii_lower_char(c: char) -> (r: char)
    ensures
        r == ascii_lower(c),
{
    if 'A' <= c && c <= 'Z' {
        let code: u32 = c as u32;
        assert(65 <= code <= 90);
        let lowered: u8 = (code + 32) as u8;
        lowered as char
    } else {
        c
    }
}

/// Whether two strings match ignoring ASCII case (`str::eq_ignore_ascii_case`).
pub fn equals_ignoring_ascii_case(a: &str, b: &str) -> (r: bool)
    ensures
        r == eq_ignore_ascii_case(a@, b@),
{
    let va = chars_of(a);
    let vb = chars_of(b);
    if va.len() != vb.len() {
        return false;
    }
    let mut i: usize = 0;
    while i < va.len()
        invariant
            va@ == a@,
            vb@ == b@,
            va.len() == vb.len(),
            i <= va.len(),
            forall|k: int| 0 <= k < i ==> ascii_lower(#[trigger] va@[k]) == ascii_lower(vb@[k]),
        decreases va.len() - i,
    {
        if ascii_lower_char(va[i]) != ascii_lower_char(vb[i]) {
            return false;
        }
        i += 1;
    }
    true
}

/// `value` in UTF-16 with a terminating zero unit, as wide-character
/// system interfaces take it.
pub fn wide_null(value: &str) -> (r: Vec<u16>)
    ensures
        r@ == encode_utf16(value@).push(0u16),
{
    let v = chars_of(value);
    let mut out: Vec<u16> = Vec::new();
    let mut i: usize = 0;
    while i < v.len()
        invariant
            i <= v.len(),
            out@ == encode_utf16(v@.take(i as int)),
        decreases v.len() - i,
    {
        let c = v[i];
        let code: u32 = c as u32;
        proof {
            char_is_scalar(c);
            assert(v@.take(i + 1).drop_last() =~= v@.take(i as int));
        }
        if code < 0x10000 {
            out.push(code as u16);
        } else {
            let offset = code - 0x10000;
            out.push((0xd800 + offset / 0x400) as u16);
            out.push((0xdc00 + offset % 0x400) as u16);
        }
        assert(out@ =~= encode_utf16(v@.take(i + 1)));
        i += 1;
    }
    out.push(0);
    assert(v@.take(v.len() as int) =~= v@);
    out
}

/// Whether `s` equals the literal `lit`.
pub fn equals_str(s: &str, lit: &str) -> (r: bool)
    ensures
        r == (s@ == lit@),
{
    let a = String::from_str(s);
    let b = String::from_str(lit);
    a == b
}

} // verus!
