//! Character-level text utilities: Unicode whitespace, trimming, splitting
//! into words, and decimal / hexadecimal integer text.

use vstd::prelude::*;

verus! {

// ---------------------------------------------------------------------------
// Conversions between strings and character vectors
// ---------------------------------------------------------------------------

/// The characters of `s`, in order.
pub fn chars_of(s: &str) -> (r: Vec<char>)
    ensures
        r@ == s@,
{
    broadcast use vstd::string::axiom_spec_iter;

    let mut out: Vec<char> = Vec::new();
    for ch in it: s.chars()
        invariant
            out@ == it.seq().take(it.index() as int),
    {
        out.push(ch);
    }
    assert(out@ =~= s@);
    out
}

/// The UTF-8 encoding of texts one after the other is their encodings one
/// after the other.
pub proof fn lemma_utf8_add(a: Seq<char>, b: Seq<char>)
    ensures
        vstd::utf8::encode_utf8(a + b) == vstd::utf8::encode_utf8(a) + vstd::utf8::encode_utf8(b),
    decreases a.len(),
{
    if a.len() == 0 {
        assert(a + b =~= b);
    } else {
        assert((a + b).drop_first() =~= a.drop_first() + b);
        assert((a + b)[0] == a[0]);
        lemma_utf8_add(a.drop_first(), b);
    }
}

/// Appends the UTF-8 encoding of `ch` to `out`.
fn push_utf8(out: &mut Vec<u8>, ch: char)
    ensures
        final(out)@ == old(out)@ + vstd::utf8::encode_scalar(ch as u32),
{
    broadcast use vstd::utf8::char_is_scalar;

    let v = ch as u32;
    if v <= 0x7F {
        out.push((v & 0x7F) as u8);
    } else if v <= 0x7FF {
        out.push(0xC0u8 | ((v >> 6) & 0x1F) as u8);
        out.push(0x80u8 | (v & 0x3F) as u8);
    } else if v <= 0xFFFF {
        out.push(0xE0u8 | ((v >> 12) & 0x0F) as u8);
        out.push(0x80u8 | ((v >> 6) & 0x3F) as u8);
        out.push(0x80u8 | (v & 0x3F) as u8);
    } else {
        out.push(0xF0u8 | ((v >> 18) & 0x7) as u8);
        out.push(0x80u8 | ((v >> 12) & 0x3F) as u8);
        out.push(0x80u8 | ((v >> 6) & 0x3F) as u8);
        out.push(0x80u8 | (v & 0x3F) as u8);
    }
    assert(out@ =~= old(out)@ + vstd::utf8::encode_scalar(v));
}

/// A `String` that holds the characters `c`, in order.
pub fn string_of(c: &[char]) -> (r: String)
    ensures
        r@ == c@,
{
    broadcast use vstd::utf8::encode_utf8_valid_utf8, vstd::utf8::encode_utf8_decode_utf8;

    let mut bytes: Vec<u8> = Vec::new();
    let mut i: usize = 0;
    assert(c@.take(0) =~= Seq::<char>::empty());
    while i < c.len()
        invariant
            i <= c@.len(),
            bytes@ == vstd::utf8::encode_utf8(c@.take(i as int)),
        decreases c.len() - i,
    {
        push_utf8(&mut bytes, c[i]);
        proof {
            let ch = seq![c@[i as int]];
            lemma_utf8_add(c@.take(i as int), ch);
            assert(ch.drop_first() =~= Seq::<char>::empty());
            assert(ch[0] == c@[i as int]);
            assert(vstd::utf8::encode_utf8(Seq::<char>::empty()) == Seq::<u8>::empty());
            assert(vstd::utf8::encode_utf8(ch) =~= vstd::utf8::encode_scalar(c@[i as int] as u32));
            assert(c@.take(i + 1) =~= c@.take(i as int) + ch);
        }
        i += 1;
    }
    assert(c@.take(c@.len() as int) =~= c@);
    assert(bytes@.subrange(0, bytes@.len() as int) =~= bytes@);
    match utf8_text(bytes.as_slice(), 0, bytes.len()) {
        Some(s) => s,
        None => {
            assert(false);
            String::new()
        },
    }
}

/// The text that `String::from_utf8_lossy` makes of some bytes.
pub uninterp spec fn lossy_text(bytes: Seq<u8>) -> Seq<char>;

/// The text of some bytes read as `String::from_utf8_lossy` reads them: the
/// characters they encode when they are valid UTF-8.
pub open spec fn utf8_lossy(bytes: Seq<u8>) -> Seq<char> {
    if vstd::utf8::valid_utf8(bytes) {
        vstd::utf8::decode_utf8(bytes)
    } else {
        lossy_text(bytes)
    }
}

/// `String::from_utf8_lossy`, made owned. Trusted: the text is `lossy_text`
/// of the bytes, and bytes that are valid UTF-8 decode to exactly their characters.
#[verifier::external_body]
pub(crate) fn from_utf8_lossy(bytes: &[u8]) -> (r: String)
    ensures
        r@ == lossy_text(bytes@),
        vstd::utf8::valid_utf8(bytes@) ==> r@ == vstd::utf8::decode_utf8(bytes@),
{
    String::from_utf8_lossy(bytes).into_owned()
}

/// `std::str::from_utf8` on the bytes `bytes[from..to]`, made owned.
/// Trusted: it succeeds exactly when those bytes are valid UTF-8, and the
/// string then holds the characters that they encode.
#[verifier::external_body]
pub(crate) fn utf8_text(bytes: &[u8], from: usize, to: usize) -> (r: Option<String>)
    requires
        from <= to <= bytes@.len(),
    ensures
        match r {
            Some(s) => vstd::utf8::valid_utf8(bytes@.subrange(from as int, to as int)) && s@
                == vstd::utf8::decode_utf8(bytes@.subrange(from as int, to as int)),
            None => !vstd::utf8::valid_utf8(bytes@.subrange(from as int, to as int)),
        },
{
    std::str::from_utf8(&bytes[from..to]).ok().map(|s| s.to_string())
}

/// Valid UTF-8 holds no more characters than bytes.
pub proof fn lemma_decode_utf8_len(bytes: Seq<u8>)
    requires
        vstd::utf8::valid_utf8(bytes),
    ensures
        vstd::utf8::decode_utf8(bytes).len() <= bytes.len(),
    decreases bytes.len(),
{
    if bytes.len() > 0 {
        let n = vstd::utf8::length_of_first_scalar(bytes);
        assert(1 <= n <= bytes.len());
        let rest = vstd::utf8::pop_first_scalar(bytes);
        assert(rest.len() == bytes.len() - n);
        lemma_decode_utf8_len(rest);
    }
}

/// Appends all of `src` to `dst`.
pub fn append_chars(dst: &mut Vec<char>, src: &[char])
    ensures
        final(dst)@ == old(dst)@ + src@,
{
    let mut i: usize = 0;
    while i < src.len()
        invariant
            i <= src@.len(),
            dst@ == old(dst)@ + src@.subrange(0, i as int),
        decreases src@.len() - i,
    {
        dst.push(src[i]);
        i = i + 1;
        assert(src@.subrange(0, i as int) == src@.subrange(0, i - 1) + seq![src@[i - 1]]);
    }
    assert(src@.subrange(0, src@.len() as int) == src@);
}

/// Appends the characters of `s` to `dst`.
pub fn append_str(dst: &mut Vec<char>, s: &str)
    ensures
        final(dst)@ == old(dst)@ + s@,
{
    let c = chars_of(s);
    append_chars(dst, c.as_slice());
}

// ---------------------------------------------------------------------------
// Whitespace
// ---------------------------------------------------------------------------

/// The Unicode `White_Space` property, as used by `char::is_whitespace`.
pub open spec fn is_ws(c: char) -> bool {
    ||| c == ' '
    ||| ('\t' <= c && c <= '\r')
    ||| c == '\u{85}'
    ||| c == '\u{A0}'
    ||| c == '\u{1680}'
    ||| ('\u{2000}' <= c && c <= '\u{200A}')
    ||| c == '\u{2028}'
    ||| c == '\u{2029}'
    ||| c == '\u{202F}'
    ||| c == '\u{205F}'
    ||| c == '\u{3000}'
}

/// Returns whether `c` is Unicode whitespace.
pub fn is_whitespace(c: char) -> (r: bool)
    ensures
        r == is_ws(c),
{
    c == ' ' || ('\t' <= c && c <= '\r') || c == '\u{85}' || c == '\u{A0}' || c == '\u{1680}'
        || ('\u{2000}' <= c && c <= '\u{200A}') || c == '\u{2028}' || c == '\u{2029}'
        || c == '\u{202F}' || c == '\u{205F}' || c == '\u{3000}'
}

/// Number of leading whitespace characters of `s`.
pub open spec fn leading_ws(s: Seq<char>) -> nat
    decreases s.len(),
{
    if s.len() > 0 && is_ws(s[0]) {
        1 + leading_ws(s.drop_first())
    } else {
        0
    }
}

/// Number of trailing whitespace characters of `s`.
pub open spec fn trailing_ws(s: Seq<char>) -> nat
    decreases s.len(),
{
    if s.len() > 0 && is_ws(s.last()) {
        1 + trailing_ws(s.drop_last())
    } else {
        0
    }
}

/// `s` without leading and trailing whitespace (`str::trim`).
pub open spec fn trim(s: Seq<char>) -> Seq<char> {
    let a = leading_ws(s);
    let t = s.skip(a as int);
    t.take(t.len() - trailing_ws(t))
}

proof fn lemma_leading_ws(s: Seq<char>)
    ensures
        leading_ws(s) <= s.len(),
        forall|k: int| 0 <= k < leading_ws(s) ==> is_ws(#[trigger] s[k]),
        leading_ws(s) < s.len() ==> !is_ws(s[leading_ws(s) as int]),
    decreases s.len(),
{
    if s.len() > 0 && is_ws(s[0]) {
        lemma_leading_ws(s.drop_first());
        assert forall|k: int| 0 <= k < leading_ws(s) implies is_ws(#[trigger] s[k]) by {
            if k > 0 {
                assert(s[k] == s.drop_first()[k - 1]);
            }
        }
    }
}

proof fn lemma_trailing_ws(s: Seq<char>)
    ensures
        trailing_ws(s) <= s.len(),
        forall|k: int| s.len() - trailing_ws(s) <= k < s.len() ==> is_ws(#[trigger] s[k]),
        trailing_ws(s) < s.len() ==> !is_ws(s[s.len() - trailing_ws(s) - 1]),
    decreases s.len(),
{
    if s.len() > 0 && is_ws(s.last()) {
        lemma_trailing_ws(s.drop_last());
        assert forall|k: int| s.len() - trailing_ws(s) <= k < s.len() implies is_ws(
            #[trigger] s[k],
        ) by {
            if k < s.len() - 1 {
                assert(s[k] == s.drop_last()[k]);
            }
        }
        if trailing_ws(s) < s.len() {
            assert(s[s.len() - trailing_ws(s) - 1] == s.drop_last()[s.drop_last().len()
                - trailing_ws(s.drop_last()) - 1]);
        }
    }
}

/// A leading-whitespace count is determined by the first non-whitespace character.
proof fn lemma_leading_ws_char(s: Seq<char>, a: int)
    requires
        0 <= a <= s.len(),
        forall|k: int| 0 <= k < a ==> is_ws(#[trigger] s[k]),
        a < s.len() ==> !is_ws(s[a]),
    ensures
        leading_ws(s) == a,
    decreases s.len(),
{
    if a > 0 {
        assert(is_ws(s[0]));
        assert forall|k: int| 0 <= k < a - 1 implies is_ws(#[trigger] s.drop_first()[k]) by {
            assert(s.drop_first()[k] == s[k + 1]);
        }
        if a - 1 < s.drop_first().len() {
            assert(s.drop_first()[a - 1] == s[a]);
        }
        lemma_leading_ws_char(s.drop_first(), a - 1);
    }
}

/// A trailing-whitespace count is determined by the last non-whitespace character.
proof fn lemma_trailing_ws_char(s: Seq<char>, b: int)
    requires
        0 <= b <= s.len(),
        forall|k: int| s.len() - b <= k < s.len() ==> is_ws(#[trigger] s[k]),
        b < s.len() ==> !is_ws(s[s.len() - b - 1]),
    ensures
        trailing_ws(s) == b,
    decreases s.len(),
{
    if b > 0 {
        assert(is_ws(s.last()));
        let t = s.drop_last();
        assert forall|k: int| t.len() - (b - 1) <= k < t.len() implies is_ws(#[trigger] t[k]) by {
            assert(t[k] == s[k]);
        }
        if b - 1 < t.len() {
            assert(t[t.len() - (b - 1) - 1] == s[s.len() - b - 1]);
        }
        lemma_trailing_ws_char(t, b - 1);
    }
}

/// Returns `s` without leading and trailing Unicode whitespace.
pub fn trim_chars(s: &[char]) -> (r: Vec<char>)
    ensures
        r@ == trim(s@),
{
    let n = s.len();
    let mut a: usize = 0;
    while a < n && is_whitespace(s[a])
        invariant
            n == s@.len(),
            a <= n,
            forall|k: int| 0 <= k < a ==> is_ws(#[trigger] s@[k]),
        decreases n - a,
    {
        a = a + 1;
    }
    proof {
        lemma_leading_ws_char(s@, a as int);
    }
    let mut b: usize = n;
    while b > a && is_whitespace(s[b - 1])
        invariant
            n == s@.len(),
            a <= b <= n,
            forall|k: int| b <= k < n ==> is_ws(#[trigger] s@[k]),
        decreases b,
    {
        b = b - 1;
    }
    let ghost t = s@.skip(a as int);
    proof {
        assert forall|k: int| t.len() - (n - b) <= k < t.len() implies is_ws(#[trigger] t[k]) by {
            assert(t[k] == s@[k + a]);
        }
        if n - b < t.len() {
            assert(t[t.len() - (n - b) - 1] == s@[b - 1]);
        }
        lemma_trailing_ws_char(t, (n - b) as int);
    }
    let mut r: Vec<char> = Vec::new();
    let mut i: usize = a;
    while i < b
        invariant
            a <= i <= b <= n,
            n == s@.len(),
            r@ == s@.subrange(a as int, i as int),
        decreases b - i,
    {
        r.push(s[i]);
        i = i + 1;
    }
    assert(r@ == trim(s@));
    r
}

/// Length of the run of non-whitespace characters that starts `s`.
pub open spec fn word_len(s: Seq<char>) -> nat
    decreases s.len(),
{
    if s.len() == 0 || is_ws(s[0]) {
        0
    } else {
        1 + word_len(s.drop_first())
    }
}

/// The whitespace-separated words of `s` (`str::split_whitespace`).
pub open spec fn split_ws(s: Seq<char>) -> Seq<Seq<char>>
    decreases s.len(),
{
    if s.len() == 0 {
        seq![]
    } else if is_ws(s[0]) {
        split_ws(s.drop_first())
    } else {
        let n = word_len(s);
        proof {
            lemma_word_len_bound(s);
        }
        seq![s.take(n as int)] + split_ws(s.skip(n as int))
    }
}

pub proof fn lemma_word_len_bound(s: Seq<char>)
    ensures
        word_len(s) <= s.len(),
        s.len() > 0 && !is_ws(s[0]) ==> word_len(s) > 0,
    decreases s.len(),
{
    if s.len() > 0 && !is_ws(s[0]) {
        lemma_word_len_bound(s.drop_first());
    }
}

/// A word run is determined by its first whitespace character (or the end).
proof fn lemma_word_len_char(s: Seq<char>, w: int)
    requires
        0 <= w <= s.len(),
        forall|k: int| 0 <= k < w ==> !is_ws(#[trigger] s[k]),
        w < s.len() ==> is_ws(s[w]),
    ensures
        word_len(s) == w,
    decreases s.len(),
{
    if w > 0 {
        assert(!is_ws(s[0]));
        assert forall|k: int| 0 <= k < w - 1 implies !is_ws(#[trigger] s.drop_first()[k]) by {
            assert(s.drop_first()[k] == s[k + 1]);
        }
        if w - 1 < s.drop_first().len() {
            assert(s.drop_first()[w - 1] == s[w]);
        }
        lemma_word_len_char(s.drop_first(), w - 1);
    }
}

/// Splits `s` into its whitespace-separated words.
pub fn split_whitespace(s: &[char]) -> (r: Vec<Vec<char>>)
    ensures
        r@.len() == split_ws(s@).len(),
        forall|k: int| 0 <= k < r@.len() ==> (#[trigger] r@[k])@ == split_ws(s@)[k],
{
    let n = s.len();
    let mut r: Vec<Vec<char>> = Vec::new();
    let ghost mut words: Seq<Seq<char>> = seq![];
    let mut i: usize = 0;
    assert(s@.skip(0) == s@);
    while i < n
        invariant
            i <= n,
            n == s@.len(),
            r@.len() == words.len(),
            forall|k: int| 0 <= k < r@.len() ==> (#[trigger] r@[k])@ == words[k],
            words + split_ws(s@.skip(i as int)) == split_ws(s@),
        decreases n - i,
    {
        let ghost rest = s@.skip(i as int);
        if is_whitespace(s[i]) {
            assert(rest.drop_first() == s@.skip(i + 1));
            i = i + 1;
        } else {
            let mut j: usize = i;
            let mut w: Vec<char> = Vec::new();
            while j < n && !is_whitespace(s[j])
                invariant
                    i <= j <= n,
                    n == s@.len(),
                    w@ == s@.subrange(i as int, j as int),
                    forall|k: int| i <= k < j ==> !is_ws(#[trigger] s@[k]),
                decreases n - j,
            {
                w.push(s[j]);
                j = j + 1;
            }
            proof {
                assert forall|k: int| 0 <= k < j - i implies !is_ws(#[trigger] rest[k]) by {
                    assert(rest[k] == s@[k + i]);
                }
                if j - i < rest.len() {
                    assert(rest[j - i] == s@[j as int]);
                }
                lemma_word_len_char(rest, j - i);
                assert(rest.take((j - i) as int) == w@);
                assert(rest.skip((j - i) as int) == s@.skip(j as int));
                assert(split_ws(rest) == seq![w@] + split_ws(s@.skip(j as int)));
                words = words.push(w@);
                assert(words + split_ws(s@.skip(j as int)) == split_ws(s@));
            }
            r.push(w);
            i = j;
        }
    }
    proof {
        assert(s@.skip(n as int) == Seq::<char>::empty());
        assert(words == split_ws(s@));
    }
    r
}

/// `true` when `p` is a prefix of `s`.
pub open spec fn has_prefix(s: Seq<char>, p: Seq<char>) -> bool {
    p.len() <= s.len() && s.take(p.len() as int) == p
}

/// `true` when `p` is a suffix of `s`.
pub open spec fn has_suffix(s: Seq<char>, p: Seq<char>) -> bool {
    p.len() <= s.len() && s.skip(s.len() - p.len()) == p
}

/// Returns whether `p` is a prefix of `s` (`str::starts_with`).
pub fn starts_with(s: &[char], p: &[char]) -> (r: bool)
    ensures
        r == has_prefix(s@, p@),
{
    if p.len() > s.len() {
        return false;
    }
    let mut i: usize = 0;
    while i < p.len()
        invariant
            p@.len() <= s@.len(),
            i <= p@.len(),
            forall|k: int| 0 <= k < i ==> s@[k] == p@[k],
        decreases p@.len() - i,
    {
        if s[i] != p[i] {
            assert(s@.take(p@.len() as int)[i as int] != p@[i as int]);
            return false;
        }
        i = i + 1;
    }
    assert(s@.take(p@.len() as int) == p@);
    true
}

/// Returns whether `p` is a suffix of `s` (`str::ends_with`).
pub fn ends_with(s: &[char], p: &[char]) -> (r: bool)
    ensures
        r == has_suffix(s@, p@),
{
    if p.len() > s.len() {
        return false;
    }
    let sl = s.len();
    let off = sl - p.len();
    let mut i: usize = 0;
    while i < p.len()
        invariant
            p@.len() <= s@.len(),
            off == s@.len() - p@.len(),
            off + p@.len() == s@.len(),
            sl == s@.len(),
            i <= p@.len(),
            forall|k: int| 0 <= k < i ==> s@[off + k] == p@[k],
        decreases p@.len() - i,
    {
        if s[off + i] != p[i] {
            assert(s@.skip(off as int)[i as int] != p@[i as int]);
            return false;
        }
        i = i + 1;
    }
    assert(s@.skip(off as int) == p@);
    true
}

/// Returns whether the characters of `s` are exactly those of `t`.
pub fn chars_eq(s: &[char], t: &[char]) -> (r: bool)
    ensures
        r == (s@ == t@),
{
    if s.len() != t.len() {
        return false;
    }
    let mut i: usize = 0;
    while i < s.len()
        invariant
            s@.len() == t@.len(),
            i <= s@.len(),
            forall|k: int| 0 <= k < i ==> s@[k] == t@[k],
        decreases s@.len() - i,
    {
        if s[i] != t[i] {
            return false;
        }
        i = i + 1;
    }
    assert(s@ == t@);
    true
}

/// Copies the characters `s[from..to]`.
pub fn slice_chars(s: &[char], from: usize, to: usize) -> (r: Vec<char>)
    requires
        from <= to <= s@.len(),
    ensures
        r@ == s@.subrange(from as int, to as int),
{
    let mut r: Vec<char> = Vec::new();
    let mut i = from;
    while i < to
        invariant
            from <= i <= to <= s@.len(),
            r@ == s@.subrange(from as int, i as int),
        decreases to - i,
    {
        r.push(s[i]);
        i = i + 1;
    }
    r
}

// ---------------------------------------------------------------------------
// Decimal integers
// ---------------------------------------------------------------------------

/// Why a text did not parse as an integer (`core::num::IntErrorKind`).
#[derive(Debug, Clone, Copy, PartialEq, Eq, Structural)]
pub enum IntParseError {
    /// The text was empty.
    Empty,
    /// The text held a character that is not a digit where one was expected.
    InvalidDigit,
    /// The value is above the type's maximum.
    PosOverflow,
    /// The value is below the type's minimum.
    NegOverflow,
}

pub open spec fn is_digit(c: char) -> bool {
    '0' <= c && c <= '9'
}

pub open spec fn digit_value(c: char) -> int {
    (c as int) - ('0' as int)
}

/// Scans the digits `s[i..]` onto `acc` as `i32::from_str` does: left to
/// right, failing at the first non-digit or at the first step that leaves
/// the `i32` range.
pub open spec fn scan_i32(s: Seq<char>, i: int, acc: int, negative: bool) -> Result<i32, IntParseError>
    decreases s.len() - i,
{
    if i < 0 || i >= s.len() {
        Ok(acc as i32)
    } else if !is_digit(s[i]) {
        Err(IntParseError::InvalidDigit)
    } else {
        let next = if negative {
            acc * 10 - digit_value(s[i])
        } else {
            acc * 10 + digit_value(s[i])
        };
        if next > i32::MAX {
            Err(IntParseError::PosOverflow)
        } else if next < i32::MIN {
            Err(IntParseError::NegOverflow)
        } else {
            scan_i32(s, i + 1, next, negative)
        }
    }
}

/// The result of `str::parse::<i32>` on text `s`: an optional sign followed by
/// at least one decimal digit.
pub open spec fn spec_parse_i32(s: Seq<char>) -> Result<i32, IntParseError> {
    if s.len() == 0 {
        Err(IntParseError::Empty)
    } else if s.len() == 1 && (s[0] == '+' || s[0] == '-') {
        Err(IntParseError::InvalidDigit)
    } else if s[0] == '-' {
        scan_i32(s, 1, 0, true)
    } else if s[0] == '+' {
        scan_i32(s, 1, 0, false)
    } else {
        scan_i32(s, 0, 0, false)
    }
}

/// Parses a decimal `i32` exactly as `str::parse::<i32>` does.
pub fn parse_i32(s: &[char]) -> (r: Result<i32, IntParseError>)
    ensures
        r == spec_parse_i32(s@),
{
    let n = s.len();
    if n == 0 {
        return Err(IntParseError::Empty);
    }
    if n == 1 && (s[0] == '+' || s[0] == '-') {
        return Err(IntParseError::InvalidDigit);
    }
    let negative = s[0] == '-';
    let mut i: usize = if s[0] == '-' || s[0] == '+' {
        1
    } else {
        0
    };
    let ghost start = i as int;
    let mut acc: i32 = 0;
    while i < n
        invariant
            n == s@.len(),
            start <= i <= n,
            spec_parse_i32(s@) == scan_i32(s@, i as int, acc as int, negative),
            negative == (s@[0] == '-'),
        decreases n - i,
    {
        let c = s[i];
        if !('0' <= c && c <= '9') {
            return Err(IntParseError::InvalidDigit);
        }
        let d: i64 = (c as u32 as i64) - ('0' as u32 as i64);
        let next: i64 = if negative {
            (acc as i64) * 10 - d
        } else {
            (acc as i64) * 10 + d
        };
        if next > 2147483647 {
            return Err(IntParseError::PosOverflow);
        }
        if next < -2147483648 {
            return Err(IntParseError::NegOverflow);
        }
        acc = next as i32;
        i = i + 1;
    }
    Ok(acc)
}

/// The decimal digits of `n`, most significant first.
pub open spec fn nat_decimal(n: nat) -> Seq<char>
    decreases n,
{
    if n < 10 {
        seq![(('0' as u32) + n) as char]
    } else {
        nat_decimal(n / 10) + seq![(('0' as u32) + (n % 10)) as char]
    }
}

/// The decimal text of `v` (`Display` for integers).
pub open spec fn int_decimal(v: int) -> Seq<char> {
    if v < 0 {
        seq!['-'] + nat_decimal((-v) as nat)
    } else {
        nat_decimal(v as nat)
    }
}

/// Appends the decimal digits of `n` to `dst`.
pub fn push_u64_decimal(dst: &mut Vec<char>, n: u64)
    ensures
        final(dst)@ == old(dst)@ + nat_decimal(n as nat),
    decreases n,
{
    if n < 10 {
        let d = char_from_digit(n as u32);
        dst.push(d);
    } else {
        push_u64_decimal(dst, n / 10);
        let d = char_from_digit((n % 10) as u32);
        dst.push(d);
    }
}

/// The character for a decimal digit.
fn char_from_digit(d: u32) -> (c: char)
    requires
        d < 10,
    ensures
        c == (('0' as u32) + d) as char,
{
    if d == 0 { '0' }
    else if d == 1 { '1' }
    else if d == 2 { '2' }
    else if d == 3 { '3' }
    else if d == 4 { '4' }
    else if d == 5 { '5' }
    else if d == 6 { '6' }
    else if d == 7 { '7' }
    else if d == 8 { '8' }
    else { '9' }
}

/// Appends the decimal text of `v` to `dst`.
pub fn push_i64_decimal(dst: &mut Vec<char>, v: i64)
    ensures
        final(dst)@ == old(dst)@ + int_decimal(v as int),
{
    if v < 0 {
        dst.push('-');
        let ghost mid = dst@;
        let m: u64 = if v == i64::MIN {
            9223372036854775808u64
        } else {
            (-v) as u64
        };
        push_u64_decimal(dst, m);
        assert(dst@ == old(dst)@ + (seq!['-'] + nat_decimal((-v) as nat)));
    } else {
        push_u64_decimal(dst, v as u64);
    }
}

/// Whether two strings hold the same characters.
pub fn same_text(a: &str, b: &str) -> (r: bool)
    ensures
        r == (a@ == b@),
{
    let x = chars_of(a);
    let y = chars_of(b);
    chars_eq(x.as_slice(), y.as_slice())
}

// ---------------------------------------------------------------------------
// What is read back of what is written
// ---------------------------------------------------------------------------

/// A run of characters, none of them white space.
pub open spec fn is_word(w: Seq<char>) -> bool {
    w.len() > 0 && forall|k: int| 0 <= k < w.len() ==> !is_ws(#[trigger] w[k])
}

proof fn lemma_word_len_word(w: Seq<char>, r: Seq<char>)
    requires
        forall|k: int| 0 <= k < w.len() ==> !is_ws(#[trigger] w[k]),
        r.len() == 0 || is_ws(r[0]),
    ensures
        word_len(w + r) == w.len(),
    decreases w.len(),
{
    if w.len() == 0 {
        assert(w + r =~= r);
    } else {
        assert((w + r).drop_first() =~= w.drop_first() + r);
        assert(forall|k: int| 0 <= k < w.drop_first().len() ==> w.drop_first()[k] == w[k + 1]);
        lemma_word_len_word(w.drop_first(), r);
    }
}

/// A word followed by a space and more text splits into the word and the
/// words of the rest; a word alone is one word.
pub proof fn lemma_split_word(w: Seq<char>, r: Seq<char>)
    requires
        is_word(w),
    ensures
        split_ws(w + seq![' '] + r) == seq![w] + split_ws(r),
        split_ws(w) == seq![w],
{
    let t = seq![' '] + r;
    lemma_word_len_word(w, t);
    lemma_word_len_word(w, seq![]);
    let s = w + seq![' '] + r;
    assert(s =~= w + t);
    assert(s.take(w.len() as int) =~= w);
    assert(s.skip(w.len() as int) =~= t);
    assert(t.drop_first() =~= r);
    assert(w + Seq::<char>::empty() =~= w);
    assert(w.take(w.len() as int) =~= w);
    assert(w.skip(w.len() as int) =~= Seq::<char>::empty());
    assert(s[0] == w[0]);
    assert(!is_ws(w[0]));
    assert(word_len(s) == w.len());
    assert(split_ws(s) == seq![w] + split_ws(t));
    assert(is_ws(t[0]));
    assert(split_ws(t) == split_ws(r));
    assert(word_len(w) == w.len());
    assert(split_ws(w) == seq![w] + split_ws(Seq::<char>::empty()));
    assert(seq![w] + Seq::<Seq<char>>::empty() =~= seq![w]);
}

/// The characters of a decimal text are digits.
pub proof fn lemma_decimal_digits(n: nat)
    ensures
        nat_decimal(n).len() > 0,
        forall|k: int| 0 <= k < nat_decimal(n).len() ==> is_digit(#[trigger] nat_decimal(n)[k]),
    decreases n,
{
    if n >= 10 {
        lemma_decimal_digits(n / 10);
        let a = nat_decimal(n / 10);
        let b = seq![(('0' as u32) + (n % 10)) as char];
        assert forall|k: int| 0 <= k < (a + b).len() implies is_digit(#[trigger] (a + b)[k]) by {
            if k >= a.len() {
                assert((a + b)[k] == b[k - a.len()]);
            }
        }
    }
}

/// Scanning the decimal text of `n` after `p` leaves `n` (or `-n`) as the value so far.
proof fn lemma_scan_decimal(p: Seq<char>, n: nat, r: Seq<char>, negative: bool)
    requires
        n <= (if negative { 2147483648int } else { 2147483647int }),
    ensures
        scan_i32(p + nat_decimal(n) + r, p.len() as int, 0, negative) == scan_i32(
            p + nat_decimal(n) + r,
            (p.len() + nat_decimal(n).len()) as int,
            if negative { -(n as int) } else { n as int },
            negative,
        ),
    decreases n,
{
    let s = p + nat_decimal(n) + r;
    let i = p.len() as int;
    if n < 10 {
        let c = (('0' as u32) + n) as char;
        assert(s[i] == c);
        assert(digit_value(c) == n);
    } else {
        let d = nat_decimal(n / 10);
        let c = (('0' as u32) + (n % 10)) as char;
        let r2 = seq![c] + r;
        assert(s =~= p + d + r2);
        lemma_scan_decimal(p, n / 10, r2, negative);
        let j = (p.len() + d.len()) as int;
        assert(s[j] == c);
        assert(digit_value(c) == n % 10);
        let acc: int = if negative { -((n / 10) as int) } else { (n / 10) as int };
        assert(if negative { acc * 10 - (n % 10) == -(n as int) } else { acc * 10 + (n % 10) == n as int });
    }
}

/// The decimal text of an `i32` parses back to it.
pub proof fn law_decimal_parses(v: i32)
    ensures
        spec_parse_i32(int_decimal(v as int)) == Ok::<i32, IntParseError>(v),
{
    if v < 0 {
        let n = (-(v as int)) as nat;
        lemma_decimal_digits(n);
        let s = seq!['-'] + nat_decimal(n);
        lemma_scan_decimal(seq!['-'], n, seq![], true);
        assert(seq!['-'] + nat_decimal(n) + Seq::<char>::empty() =~= s);
        assert(s[0] == '-');
    } else {
        let n = v as nat;
        lemma_decimal_digits(n);
        let s = nat_decimal(n);
        lemma_scan_decimal(seq![], n, seq![], false);
        assert(Seq::<char>::empty() + nat_decimal(n) + Seq::<char>::empty() =~= s);
        assert(is_digit(s[0]));
    }
}

} // verus!
