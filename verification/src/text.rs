//! Byte-level text helpers: whitespace recognition, prefix tests, and
//! conversion of source byte ranges to owned text.
use vstd::prelude::*;
use vstd::string::StringExecFns;
use vstd::utf8::{decode_utf8, valid_utf8};

verus! {

/// Text decoded from UTF-8 bytes, with every ill-formed sequence replaced by
/// U+FFFD (the result of `String::from_utf8_lossy`).
pub uninterp spec fn utf8_text(bytes: Seq<u8>) -> Seq<char>;

/// Calls `String::from_utf8_lossy`: the result is the text named by
/// `utf8_text`, and, as that function's documentation states, exactly the
/// decoded characters when the bytes are well-formed UTF-8.
#[verifier::external_body]
pub(crate) fn text_from_utf8(bytes: &[u8]) -> (r: String)
    ensures
        r@ == utf8_text(bytes@),
        valid_utf8(bytes@) ==> r@ == decode_utf8(bytes@),
{
    String::from_utf8_lossy(bytes).into_owned()
}

/// The text of source bytes: their decoded characters when they are
/// well-formed UTF-8, else their lossy decoding.
pub open spec fn source_text(bytes: Seq<u8>) -> Seq<char> {
    if valid_utf8(bytes) {
        decode_utf8(bytes)
    } else {
        utf8_text(bytes)
    }
}

/// The text of the source bytes `start..end`.
pub fn range_text(s: &[u8], start: usize, end: usize) -> (r: String)
    requires
        start <= end <= s@.len(),
    ensures
        r@ == source_text(s@.subrange(start as int, end as int)),
{
    text_from_utf8(&s[start..end])
}

/// Byte length of the Unicode whitespace character encoded at `i`, if it lies
/// wholly before `end`; 0 when no whitespace character starts there.
pub open spec fn ws_width(s: Seq<u8>, i: int, end: int) -> int {
    if i < 0 || end > s.len() {
        0
    } else if i < end && (s[i] == 0x20u8 || (0x09u8 <= s[i] <= 0x0du8)) {
        1
    } else if i + 1 < end && s[i] == 0xc2u8 && (s[i + 1] == 0x85u8 || s[i + 1] == 0xa0u8) {
        2
    } else if i + 2 < end && ((s[i] == 0xe1u8 && s[i + 1] == 0x9au8 && s[i + 2] == 0x80u8) || (
    s[i] == 0xe2u8 && s[i + 1] == 0x80u8 && ((0x80u8 <= s[i + 2] <= 0x8au8) || s[i + 2] == 0xa8u8
        || s[i + 2] == 0xa9u8 || s[i + 2] == 0xafu8)) || (s[i] == 0xe2u8 && s[i + 1] == 0x81u8
        && s[i + 2] == 0x9fu8) || (s[i] == 0xe3u8 && s[i + 1] == 0x80u8 && s[i + 2] == 0x80u8)) {
        3
    } else {
        0
    }
}

/// A whitespace character's encoding ends right before `i`.
pub open spec fn ws_ending_at(s: Seq<u8>, i: int) -> bool {
    ||| (i >= 1 && ws_width(s, i - 1, i) == 1)
    ||| (i >= 2 && ws_width(s, i - 2, i) == 2)
    ||| (i >= 3 && ws_width(s, i - 3, i) == 3)
}

/// Some whitespace character starts in `i..end`.
pub open spec fn has_ws(s: Seq<u8>, i: int, end: int) -> bool {
    exists|k: int| i <= k < end && #[trigger] ws_width(s, k, end) > 0
}

/// The bytes `i..i + pat.len()` lie before `end` and equal `pat`.
pub open spec fn starts_with_at(s: Seq<u8>, i: int, end: int, pat: Seq<u8>) -> bool {
    0 <= i && i + pat.len() <= end && end <= s.len() && s.subrange(i, i + pat.len()) == pat
}

/// The bytes `start..end` are exactly `pat`.
pub open spec fn bytes_are(s: Seq<u8>, start: int, end: int, pat: Seq<u8>) -> bool {
    end - start == pat.len() && starts_with_at(s, start, end, pat)
}

/// Index of the first `b` in `i..end`, or `end` when there is none.
pub open spec fn find_in(s: Seq<u8>, i: int, end: int, b: u8) -> int
    decreases end - i,
{
    if i >= end || i < 0 || i >= s.len() {
        end
    } else if s[i] == b {
        i
    } else {
        find_in(s, i + 1, end, b)
    }
}

pub proof fn lemma_find_in_bounds(s: Seq<u8>, i: int, end: int, b: u8)
    requires
        0 <= i <= end <= s.len(),
    ensures
        i <= find_in(s, i, end, b) <= end,
        find_in(s, i, end, b) < end ==> s[find_in(s, i, end, b)] == b,
        forall|k: int| i <= k < find_in(s, i, end, b) ==> s[k] != b,
    decreases end - i,
{
    if i < end && s[i] != b {
        lemma_find_in_bounds(s, i + 1, end, b);
    }
}

/// Exec counterpart of `ws_width`.
pub fn whitespace_width(s: &[u8], i: usize, end: usize) -> (r: usize)
    requires
        end <= s@.len(),
    ensures
        r as int == ws_width(s@, i as int, end as int),
        r <= 3,
{
    if i < end && (s[i] == 0x20u8 || (0x09u8 <= s[i] && s[i] <= 0x0du8)) {
        1
    } else if i < end && end - i > 1 && s[i] == 0xc2u8 && (s[i + 1] == 0x85u8 || s[i + 1] == 0xa0u8) {
        2
    } else if i < end && end - i > 2 && ((s[i] == 0xe1u8 && s[i + 1] == 0x9au8 && s[i + 2] == 0x80u8)
        || (s[i] == 0xe2u8 && s[i + 1] == 0x80u8 && ((0x80u8 <= s[i + 2] && s[i + 2] <= 0x8au8)
        || s[i + 2] == 0xa8u8 || s[i + 2] == 0xa9u8 || s[i + 2] == 0xafu8)) || (s[i] == 0xe2u8
        && s[i + 1] == 0x81u8 && s[i + 2] == 0x9fu8) || (s[i] == 0xe3u8 && s[i + 1] == 0x80u8
        && s[i + 2] == 0x80u8)) {
        3
    } else {
        0
    }
}

/// Exec counterpart of `ws_ending_at`.
pub fn whitespace_ends_at(s: &[u8], i: usize) -> (r: bool)
    requires
        i <= s@.len(),
    ensures
        r == ws_ending_at(s@, i as int),
{
    (i >= 1 && whitespace_width(s, i - 1, i) == 1) || (i >= 2 && whitespace_width(s, i - 2, i) == 2)
        || (i >= 3 && whitespace_width(s, i - 3, i) == 3)
}

/// Exec counterpart of `has_ws`.
pub fn contains_whitespace(s: &[u8], start: usize, end: usize) -> (r: bool)
    requires
        end <= s@.len(),
    ensures
        r == has_ws(s@, start as int, end as int),
{
    let mut k = start;
    while k < end
        invariant
            start <= k,
            end <= s@.len(),
            forall|j: int| start <= j < k ==> #[trigger] ws_width(s@, j, end as int) == 0,
        decreases end - k,
    {
        if whitespace_width(s, k, end) > 0 {
            return true;
        }
        k = k + 1;
    }
    false
}

/// Exec counterpart of `starts_with_at`.
pub fn bytes_at(s: &[u8], i: usize, end: usize, pat: &[u8]) -> (r: bool)
    requires
        end <= s@.len(),
    ensures
        r == starts_with_at(s@, i as int, end as int, pat@),
{
    if i > end || end - i < pat.len() {
        return false;
    }
    let mut k: usize = 0;
    while k < pat.len()
        invariant
            i + pat@.len() <= end <= s@.len(),
            k <= pat@.len(),
            forall|j: int| 0 <= j < k ==> s@[i + j] == pat@[j],
        decreases pat@.len() - k,
    {
        if s[i + k] != pat[k] {
            assert(s@.subrange(i as int, i + pat@.len())[k as int] != pat@[k as int]);
            return false;
        }
        k = k + 1;
    }
    assert(s@.subrange(i as int, i + pat@.len()) =~= pat@);
    true
}

/// Exec counterpart of `bytes_are`.
pub fn bytes_equal(s: &[u8], start: usize, end: usize, pat: &[u8]) -> (r: bool)
    requires
        start <= end <= s@.len(),
    ensures
        r == bytes_are(s@, start as int, end as int, pat@),
{
    end - start == pat.len() && bytes_at(s, start, end, pat)
}

/// Exec counterpart of `find_in`.
pub fn find_byte(s: &[u8], start: usize, end: usize, b: u8) -> (r: usize)
    requires
        start <= end <= s@.len(),
    ensures
        r as int == find_in(s@, start as int, end as int, b),
        start <= r <= end,
{
    let mut i = start;
    while i < end && s[i] != b
        invariant
            start <= i <= end <= s@.len(),
            find_in(s@, start as int, end as int, b) == find_in(s@, i as int, end as int, b),
        decreases end - i,
    {
        i = i + 1;
    }
    i
}

/// Decimal digit `d` (below ten) as text.
pub open spec fn digit_text(d: nat) -> Seq<char> {
    if d == 0 {
        "0"@
    } else if d == 1 {
        "1"@
    } else if d == 2 {
        "2"@
    } else if d == 3 {
        "3"@
    } else if d == 4 {
        "4"@
    } else if d == 5 {
        "5"@
    } else if d == 6 {
        "6"@
    } else if d == 7 {
        "7"@
    } else if d == 8 {
        "8"@
    } else {
        "9"@
    }
}

/// `n` written in decimal, without leading zeros.
pub open spec fn decimal_text(n: nat) -> Seq<char>
    decreases n,
{
    if n < 10 {
        digit_text(n)
    } else {
        decimal_text(n / 10) + digit_text(n % 10)
    }
}

fn digit(d: u64) -> (r: &'static str)
    requires
        d < 10,
    ensures
        r@ == digit_text(d as nat),
{
    if d == 0 {
        "0"
    } else if d == 1 {
        "1"
    } else if d == 2 {
        "2"
    } else if d == 3 {
        "3"
    } else if d == 4 {
        "4"
    } else if d == 5 {
        "5"
    } else if d == 6 {
        "6"
    } else if d == 7 {
        "7"
    } else if d == 8 {
        "8"
    } else {
        "9"
    }
}

/// `n` written in decimal.
pub fn decimal(n: u64) -> (r: String)
    ensures
        r@ == decimal_text(n as nat),
    decreases n,
{
    if n < 10 {
        String::from_str(digit(n))
    } else {
        let mut s = decimal(n / 10);
        s.append(digit(n % 10));
        s
    }
}

} // verus!
