use vstd::prelude::*;

verus! {

/// Line feed.
pub const LF: u8 = 10;

/// Carriage return.
pub const CR: u8 = 13;

/// Space.
pub const SP: u8 = 32;

/// `&`, which separates query pairs.
pub const AMP: u8 = 38;

/// `:`, which ends a header name.
pub const COLON: u8 = 58;

/// `=`, which ends a query name.
pub const EQUALS: u8 = 61;

/// `?`, which starts the query.
pub const QUESTION: u8 = 63;

/// What `String::from_utf8_lossy` makes of a byte sequence.
pub uninterp spec fn lossy_of(b: Seq<u8>) -> Seq<char>;

/// Whether a character has the Unicode `White_Space` property.
pub open spec fn is_white_space(c: char) -> bool {
    ('\u{9}' <= c && c <= '\u{d}') || c == ' ' || c == '\u{85}' || c == '\u{a0}' || c
        == '\u{1680}' || ('\u{2000}' <= c && c <= '\u{200a}') || c == '\u{2028}' || c
        == '\u{2029}' || c == '\u{202f}' || c == '\u{205f}' || c == '\u{3000}'
}

/// A sequence without its leading white space.
pub open spec fn trim_start(s: Seq<char>) -> Seq<char>
    decreases s.len(),
{
    if s.len() > 0 && is_white_space(s[0]) {
        trim_start(s.drop_first())
    } else {
        s
    }
}

/// A sequence without its trailing white space.
pub open spec fn trim_end(s: Seq<char>) -> Seq<char>
    decreases s.len(),
{
    if s.len() > 0 && is_white_space(s.last()) {
        trim_end(s.drop_last())
    } else {
        s
    }
}

/// A sequence without its leading and trailing white space.
pub open spec fn trim_of(s: Seq<char>) -> Seq<char> {
    trim_end(trim_start(s))
}

/// The characters of bytes that are all ASCII, one for each byte.
pub open spec fn ascii_chars(b: Seq<u8>) -> Seq<char> {
    b.map_values(|x: u8| x as char)
}

/// Whether every byte is ASCII.
pub open spec fn all_ascii(b: Seq<u8>) -> bool {
    forall|i: int| 0 <= i < b.len() ==> #[trigger] b[i] < 128
}

/// What `serde_json::from_str::<Value>` makes of a text: `None` where it fails.
pub uninterp spec fn json_of(s: Seq<char>) -> Option<serde_json::Value>;

/// The compact text that `serde_json::Value`'s `Display` writes.
pub uninterp spec fn json_text_of(v: serde_json::Value) -> Seq<char>;

#[verifier::external_type_specification]
#[verifier::external_body]
pub struct ExValue(serde_json::Value);

/// Relies on `Clone` for `serde_json::Value`, which is derived: the copy is
/// the same value.
pub assume_specification[ <serde_json::Value as Clone>::clone ](v: &serde_json::Value) -> (r: serde_json::Value)
    ensures
        r == *v,
;

/// Relies on `String::from_utf8_lossy`: decodes UTF-8, putting U+FFFD for
/// invalid sequences; the result depends on the bytes alone, and ASCII bytes,
/// being valid UTF-8, decode to the same characters.
#[verifier::external_body]
fn decode_lossy(b: &[u8]) -> (r: String)
    ensures
        r@ == lossy_of(b@),
        all_ascii(b@) ==> r@ == ascii_chars(b@),
{
    String::from_utf8_lossy(b).into_owned()
}

/// Relies on `str::trim`: drops leading and trailing characters with the
/// Unicode `White_Space` property.
#[verifier::external_body]
fn trim(s: &str) -> (r: String)
    ensures
        r@ == trim_of(s@),
{
    s.trim().to_string()
}

/// Relies on `serde_json::from_str` into a `serde_json::Value`.
#[verifier::external_body]
pub(crate) fn parse_json(s: &str) -> (r: Option<serde_json::Value>)
    ensures
        r == json_of(s@),
{
    serde_json::from_str::<serde_json::Value>(s).ok()
}

/// Relies on `Display` for `serde_json::Value`, which writes compact JSON.
#[verifier::external_body]
pub(crate) fn json_text(v: &serde_json::Value) -> (r: String)
    ensures
        r@ == json_text_of(*v),
{
    v.to_string()
}

/// The numeric value of a sequence of decimal digits.
pub open spec fn digits_value(s: Seq<char>) -> nat
    decreases s.len(),
{
    if s.len() == 0 {
        0
    } else {
        digits_value(s.drop_last()) * 10 + (s.last() as nat - '0' as nat) as nat
    }
}

/// Whether every character is an ASCII decimal digit.
pub open spec fn all_digits(s: Seq<char>) -> bool {
    forall|i: int| 0 <= i < s.len() ==> '0' <= #[trigger] s[i] <= '9'
}

/// The `usize` that a text denotes: an optional `+` followed by one or more
/// decimal digits whose value fits in a `usize`.
pub open spec fn usize_of(s: Seq<char>) -> Option<usize> {
    let d = if s.len() > 0 && s[0] == '+' {
        s.drop_first()
    } else {
        s
    };
    if d.len() > 0 && all_digits(d) && digits_value(d) <= usize::MAX {
        Some(digits_value(d) as usize)
    } else {
        None
    }
}

/// Relies on `str::parse::<usize>`, which accepts exactly an optional `+` and
/// one or more decimal digits, and fails on overflow.
#[verifier::external_body]
pub(crate) fn parse_usize(s: &str) -> (r: Option<usize>)
    ensures
        r == usize_of(s@),
{
    s.parse::<usize>().ok()
}

/// The text of the bytes in `[lo, hi)`: decoded (ASCII bytes one character
/// each), then trimmed.
pub open spec fn text_of(s: Seq<u8>, lo: int, hi: int) -> Seq<char> {
    let b = s.subrange(lo, hi);
    if all_ascii(b) {
        trim_of(ascii_chars(b))
    } else {
        trim_of(lossy_of(b))
    }
}

/// Decodes the bytes in `[lo, hi)` and trims the result.
pub fn text_at(buf: &[u8], lo: usize, hi: usize) -> (r: String)
    requires
        lo <= hi <= buf@.len(),
    ensures
        r@ == text_of(buf@, lo as int, hi as int),
{
    let raw = decode_lossy(&buf[lo..hi]);
    trim(raw.as_str())
}

/// The first position in `[lo, hi)` that holds `b`, or `hi` where none does.
pub open spec fn first_at(s: Seq<u8>, lo: int, hi: int, b: u8) -> int
    decreases hi - lo,
{
    if lo >= hi {
        hi
    } else if s[lo] == b {
        lo
    } else {
        first_at(s, lo + 1, hi, b)
    }
}

/// A first position lies in `[lo, hi]`, and no earlier position holds `b`.
pub proof fn lemma_first_at(s: Seq<u8>, lo: int, hi: int, b: u8)
    requires
        lo <= hi,
    ensures
        lo <= first_at(s, lo, hi, b) <= hi,
        first_at(s, lo, hi, b) < hi ==> s[first_at(s, lo, hi, b)] == b,
        forall|i: int| lo <= i < first_at(s, lo, hi, b) ==> s[i] != b,
    decreases hi - lo,
{
    if lo < hi && s[lo] != b {
        lemma_first_at(s, lo + 1, hi, b);
    }
}

/// Finds the first position in `[lo, hi)` that holds `b`.
pub fn find_byte(buf: &[u8], lo: usize, hi: usize, b: u8) -> (r: usize)
    requires
        lo <= hi <= buf@.len(),
    ensures
        r == first_at(buf@, lo as int, hi as int, b),
        lo <= r <= hi,
{
    proof {
        lemma_first_at(buf@, lo as int, hi as int, b);
    }
    let mut i = lo;
    while i < hi
        invariant
            lo <= i <= hi <= buf@.len(),
            first_at(buf@, lo as int, hi as int, b) == first_at(buf@, i as int, hi as int, b),
        decreases hi - i,
    {
        if buf[i] == b {
            return i;
        }
        i = i + 1;
    }
    i
}

/// Whether a string is exactly the characters `word`.
pub fn str_is(s: &String, word: &str) -> (r: bool)
    ensures
        r == (s@ == word@),
{
    let w = String::from_str(word);
    *s == w
}

/// Trimming keeps a sequence that neither starts nor ends with white space.
pub proof fn lemma_trim_keeps(s: Seq<char>)
    requires
        s.len() == 0 || (!is_white_space(s[0]) && !is_white_space(s.last())),
    ensures
        trim_of(s) == s,
{
}

} // verus!
