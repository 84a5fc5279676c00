//! The command codec: decoding the wire-encoded history line.
//!
//! A history line arrives base64-encoded. Decoded and read as UTF-8 it must
//! have the shape: optional leading whitespace, a run of decimal digits (the
//! client's sequence index), optional whitespace, then the command text,
//! with trailing whitespace trimmed. The command text may be empty; absent
//! leading digits the line is rejected.

use vstd::prelude::*;

verus! {

/// Whitespace, as the history scanner understands it: the ASCII whitespace
/// characters.
pub open spec fn is_space(c: char) -> bool {
    c == ' ' || c == '\t' || c == '\n' || c == '\r' || c == '\u{b}' || c == '\u{c}'
}

/// An ASCII decimal digit.
pub open spec fn is_digit(c: char) -> bool {
    48 <= c as u32 <= 57
}

/// The numeric value of a digit character.
pub open spec fn digit_of(c: char) -> int {
    c as u32 - 48
}

/// The first position at or after `from` that does not hold whitespace.
pub open spec fn ws_end(s: Seq<char>, from: int) -> int
    decreases s.len() - from when 0 <= from <= s.len()
{
    if from < s.len() && is_space(s[from]) {
        ws_end(s, from + 1)
    } else {
        from
    }
}

/// The first position at or after `from` that does not hold a digit.
pub open spec fn digit_end(s: Seq<char>, from: int) -> int
    decreases s.len() - from when 0 <= from <= s.len()
{
    if from < s.len() && is_digit(s[from]) {
        digit_end(s, from + 1)
    } else {
        from
    }
}

/// The decimal value of `s[from..to)`.
pub open spec fn digits_val(s: Seq<char>, from: int, to: int) -> int
    decreases to - from when from <= to
{
    if from < to {
        digits_val(s, from, to - 1) * 10 + digit_of(s[to - 1])
    } else {
        0
    }
}

/// The end of `s[lo..hi)` once trailing whitespace is dropped.
pub open spec fn rtrim(s: Seq<char>, lo: int, hi: int) -> int
    decreases hi - lo when lo <= hi
{
    if lo < hi && is_space(s[hi - 1]) {
        rtrim(s, lo, hi - 1)
    } else {
        hi
    }
}

pub proof fn lemma_digit_end_bounds(s: Seq<char>, from: int)
    requires
        0 <= from <= s.len(),
    ensures
        from <= digit_end(s, from) <= s.len(),
        forall|t: int| from <= t < digit_end(s, from) ==> is_digit(#[trigger] s[t]),
    decreases s.len() - from,
{
    if from < s.len() && is_digit(s[from]) {
        lemma_digit_end_bounds(s, from + 1);
    }
}

/// A run of digits has a non-negative value.
pub proof fn lemma_digits_val_nonneg(s: Seq<char>, from: int, to: int)
    requires
        from <= to,
        forall|t: int| from <= t < to ==> is_digit(#[trigger] s[t]),
    ensures
        0 <= digits_val(s, from, to),
    decreases to - from,
{
    if from < to {
        lemma_digits_val_nonneg(s, from, to - 1);
    }
}

/// A digit run's value does not shrink as the run extends.
pub proof fn lemma_digits_val_mono(s: Seq<char>, from: int, i: int, j: int)
    requires
        from <= i <= j,
        forall|t: int| from <= t < j ==> is_digit(#[trigger] s[t]),
    ensures
        digits_val(s, from, i) <= digits_val(s, from, j),
    decreases j - i,
{
    if i < j {
        lemma_digits_val_mono(s, from, i, j - 1);
        lemma_digits_val_nonneg(s, from, j - 1);
    }
}

/// What a decoded history line means: `None` when the line does not have
/// the "digits, then remainder" shape (or the index does not fit in `u32`);
/// otherwise the index and the command text, trimmed of surrounding
/// whitespace, internal whitespace kept.
pub open spec fn scan_history(s: Seq<char>) -> Option<(u32, Seq<char>)> {
    let i = ws_end(s, 0);
    if i < s.len() && is_digit(s[i]) {
        let j = digit_end(s, i);
        let v = digits_val(s, i, j);
        if v <= u32::MAX {
            let k = ws_end(s, j);
            let h = rtrim(s, k, s.len() as int);
            Some(((v as u32), s.subrange(k, h)))
        } else {
            None
        }
    } else {
        None
    }
}

fn is_space_at(s: &str, i: usize) -> (r: bool)
    requires
        i < s@.len(),
    ensures
        r == is_space(s@[i as int]),
{
    let c = s.get_char(i);
    c == ' ' || c == '\t' || c == '\n' || c == '\r' || c == '\u{b}' || c == '\u{c}'
}

fn is_digit_at(s: &str, i: usize) -> (r: bool)
    requires
        i < s@.len(),
    ensures
        r == is_digit(s@[i as int]),
{
    let u = s.get_char(i) as u32;
    48 <= u && u <= 57
}

/// Scan a decoded history line for its index and command text.
///
/// Returns `None` where the line has no leading digit run (after optional
/// whitespace) or the index overflows `u32`; otherwise the index and the
/// command text with surrounding whitespace trimmed.
pub fn decode_history_text(s: &str) -> (r: Option<(u32, String)>)
    ensures
        match r {
            Some(p) => scan_history(s@) == Some((p.0, p.1@)),
            None => scan_history(s@) is None,
        },
{
    let n = s.unicode_len();
    let mut i: usize = 0;
    while i < n && is_space_at(s, i)
        invariant
            n == s@.len(),
            0 <= i <= n,
            ws_end(s@, 0) == ws_end(s@, i as int),
        decreases n - i,
    {
        i = i + 1;
    }
    assert(ws_end(s@, 0) == i as int);
    if i >= n || !is_digit_at(s, i) {
        return None;
    }
    let ghost start = i as int;
    let mut j: usize = i;
    let mut acc: u32 = 0;
    while j < n && is_digit_at(s, j)
        invariant
            n == s@.len(),
            ws_end(s@, 0) == start,
            start < n,
            is_digit(s@[start]),
            0 <= start <= j <= n,
            digit_end(s@, start) == digit_end(s@, j as int),
            forall|t: int| start <= t < j ==> is_digit(#[trigger] s@[t]),
            acc == digits_val(s@, start, j as int),
        decreases n - j,
    {
        let d = s.get_char(j) as u32 - 48;
        let wide: u64 = (acc as u64) * 10 + (d as u64);
        if wide > u32::MAX as u64 {
            proof {
                lemma_digit_end_bounds(s@, start);
                let e = digit_end(s@, start);
                assert(digit_end(s@, j as int) == digit_end(s@, j + 1));
                lemma_digit_end_bounds(s@, j + 1);
                assert(j + 1 <= e);
                assert(digits_val(s@, start, j + 1) == wide);
                lemma_digits_val_mono(s@, start, j + 1, e);
            }
            return None;
        }
        acc = wide as u32;
        j = j + 1;
    }
    assert(digit_end(s@, start) == j as int);
    let ghost jj = j as int;
    let mut k: usize = j;
    while k < n && is_space_at(s, k)
        invariant
            n == s@.len(),
            0 <= jj <= k <= n,
            ws_end(s@, jj) == ws_end(s@, k as int),
        decreases n - k,
    {
        k = k + 1;
    }
    assert(ws_end(s@, jj) == k as int);
    let ghost kk = k as int;
    let mut h: usize = n;
    while h > k && is_space_at(s, h - 1)
        invariant
            n == s@.len(),
            kk == k as int,
            0 <= kk <= h <= n,
            rtrim(s@, kk, n as int) == rtrim(s@, kk, h as int),
        decreases h,
    {
        h = h - 1;
    }
    assert(rtrim(s@, kk, n as int) == h as int);
    let text = s.substring_char(k, h).to_owned();
    Some((acc, text))
}

/// How decoding a history field can fail: each stage a distinct rejection.
#[derive(Clone, Copy, Debug, PartialEq, Eq, Structural)]
pub enum HistoryError {
    /// The field is not valid base64.
    NotBase64,
    /// The decoded bytes are not valid UTF-8.
    NotUtf8,
    /// The text lacks the "digits, then remainder" shape, or the index
    /// does not fit.
    BadShape,
}

/// What `base64` decodes a string to, when it is valid base64.
pub uninterp spec fn b64_of(s: Seq<char>) -> Option<Seq<u8>>;

/// Relies on `base64::decode` (standard alphabet, padded): whether a string
/// is valid base64, and the bytes it decodes to, are a function of the
/// characters alone.
#[verifier::external_body]
fn base64_decode(s: &str) -> (r: Option<Vec<u8>>)
    ensures
        match r {
            Some(v) => b64_of(s@) == Some(v@),
            None => b64_of(s@) is None,
        },
{
    base64::decode(s).ok()
}

/// What a byte sequence reads as in UTF-8, when it is valid UTF-8.
pub uninterp spec fn utf8_of(b: Seq<u8>) -> Option<Seq<char>>;

/// Relies on `String::from_utf8`: whether bytes are valid UTF-8, and the
/// text they decode to, are a function of the bytes alone.
#[verifier::external_body]
fn utf8_decode(b: Vec<u8>) -> (r: Option<String>)
    ensures
        match r {
            Some(t) => utf8_of(b@) == Some(t@),
            None => utf8_of(b@) is None,
        },
{
    String::from_utf8(b).ok()
}

/// What the whole decode of a history field yields: base64, then UTF-8,
/// then the line scan, each stage with its own rejection.
pub open spec fn history_of(raw: Seq<char>) -> Result<(u32, Seq<char>), HistoryError> {
    match b64_of(raw) {
        Option::None => Err(HistoryError::NotBase64),
        Option::Some(bytes) => match utf8_of(bytes) {
            Option::None => Err(HistoryError::NotUtf8),
            Option::Some(text) => match scan_history(text) {
                Option::None => Err(HistoryError::BadShape),
                Option::Some(p) => Ok(p),
            },
        },
    }
}

/// Decode a wire-encoded history field into (sequence index, command text).
///
/// An empty command text is not a failure: the caller treats it as
/// "nothing to record".
pub fn decode_history(raw: &str) -> (r: Result<(u32, String), HistoryError>)
    ensures
        match r {
            Ok(p) => history_of(raw@) == Ok::<(u32, Seq<char>), HistoryError>((p.0, p.1@)),
            Err(e) => history_of(raw@) == Err::<(u32, Seq<char>), HistoryError>(e),
        },
{
    let bytes = match base64_decode(raw) {
        Option::Some(v) => v,
        Option::None => {
            return Err(HistoryError::NotBase64);
        },
    };
    let text = match utf8_decode(bytes) {
        Option::Some(t) => t,
        Option::None => {
            return Err(HistoryError::NotUtf8);
        },
    };
    match decode_history_text(text.as_str()) {
        Option::Some(p) => Ok(p),
        Option::None => Err(HistoryError::BadShape),
    }
}

} // verus!
