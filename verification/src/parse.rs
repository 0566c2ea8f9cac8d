use vstd::prelude::*;

use crate::offset::{offset_from_minutes, result_view, Offset, OffsetError};
use crate::text::{
    all_digits, ascii_upper, chars_of, decimal_value, first_index, is_ascii_digit, is_digit_char,
    is_whitespace, is_whitespace_char, last_index, lemma_decimal_value_bounds,
    lemma_decimal_value_prefix, lemma_first_index, lemma_last_index, trim, trim_bounds, upper_copy,
};
use crate::zones::{lookup_zone, named_zone};

verus! {

pub open spec fn colon_pred() -> spec_fn(char) -> bool {
    |c: char| c == ':'
}

pub open spec fn whitespace_pred() -> spec_fn(char) -> bool {
    |c: char| is_whitespace(c)
}

pub open spec fn sign_pred() -> spec_fn(char) -> bool {
    |c: char| c == '+' || c == '-'
}

/// A run of decimal digits read as an `i16`: refused unless it is non-empty,
/// all ASCII digits, and at most `i16::MAX`.
pub open spec fn spec_parse_digits(s: Seq<char>) -> Result<int, OffsetError> {
    if s.len() == 0 || !all_digits(s) || decimal_value(s) > i16::MAX {
        Err(OffsetError::UnrecognizedFormat)
    } else {
        Ok(decimal_value(s))
    }
}

/// Both fields, or the error of the first that failed.
pub open spec fn both_fields(h: Result<int, OffsetError>, m: Result<int, OffsetError>) -> Result<
    (int, int),
    OffsetError,
> {
    match h {
        Err(e) => Err(e),
        Ok(h) => match m {
            Err(e) => Err(e),
            Ok(m) => Ok((h, m)),
        },
    }
}

/// Hours and minutes of the text after the sign. With a colon, the digits
/// before the first colon are the hours and the digits after it the
/// minutes. Without one, the text must be one to four ASCII digits: one or
/// two are hours only, three are one digit of hours and two of minutes,
/// four are two and two. Anything else is refused as unrecognized.
pub open spec fn numeric_fields(rest: Seq<char>) -> Result<(int, int), OffsetError> {
    let k = first_index(rest, colon_pred());
    if k < rest.len() {
        both_fields(spec_parse_digits(rest.take(k)), spec_parse_digits(rest.skip(k + 1)))
    } else if !all_digits(rest) {
        Err(OffsetError::UnrecognizedFormat)
    } else if rest.len() == 1 || rest.len() == 2 {
        Ok((decimal_value(rest), 0))
    } else if rest.len() == 3 {
        Ok((decimal_value(rest.take(1)), decimal_value(rest.skip(1))))
    } else if rest.len() == 4 {
        Ok((decimal_value(rest.take(2)), decimal_value(rest.skip(2))))
    } else {
        Err(OffsetError::UnrecognizedFormat)
    }
}

/// A signed numeric offset such as `+5`, `-0800`, `+530` or `+05:30`.
pub open spec fn spec_parse_numeric(s: Seq<char>) -> Result<int, OffsetError> {
    if s.len() == 0 || !(s[0] == '+' || s[0] == '-') {
        Err(OffsetError::UnrecognizedFormat)
    } else {
        match numeric_fields(s.drop_first()) {
            Err(e) => Err(e),
            Ok((h, m)) => if m >= 60 {
                Err(OffsetError::InvalidMinutes)
            } else if h > 14 {
                Err(OffsetError::InvalidHours)
            } else if s[0] == '-' {
                offset_from_minutes(-(h * 60 + m))
            } else {
                offset_from_minutes(h * 60 + m)
            },
        }
    }
}

/// Whether `u` starts with `UTC` or `GMT`.
pub open spec fn utc_or_gmt_prefix(u: Seq<char>) -> bool {
    u.len() >= 3 && (u.take(3) == seq!['U', 'T', 'C'] || u.take(3) == seq!['G', 'M', 'T'])
}

/// Offset text read after trimming and upper-casing: empty text is refused;
/// `UTC` or `GMT` alone is zero, and followed by a sign it is that numeric
/// offset; a name of the table is its offset; anything else is read as a
/// signed numeric offset.
pub open spec fn spec_normalize(input: Seq<char>) -> Result<int, OffsetError> {
    let t = trim(input);
    let u = ascii_upper(t);
    if t.len() == 0 {
        Err(OffsetError::Empty)
    } else if utc_or_gmt_prefix(u) && u.len() == 3 {
        offset_from_minutes(0)
    } else if utc_or_gmt_prefix(u) && (u[3] == '+' || u[3] == '-') {
        spec_parse_numeric(u.skip(3))
    } else {
        match named_zone(u) {
            Some(m) => offset_from_minutes(m),
            None => spec_parse_numeric(u),
        }
    }
}

/// Whether the trimmed text ends in `Z` or `z` right after a digit.
pub open spec fn ends_in_zulu(t: Seq<char>) -> bool {
    &&& t.len() >= 2
    &&& (t.last() == 'Z' || t.last() == 'z')
    &&& is_ascii_digit(t[t.len() - 2])
}

/// The offset at the end of a datetime text, tried in turn: the whole
/// trimmed text as an offset; a `Z`/`z` right after a digit; the token after
/// the last whitespace as an offset; the text from the last sign on as a
/// numeric offset. Empty text is refused with `Empty`, text where none of
/// these works with `UnrecognizedFormat`.
pub open spec fn spec_extract_offset(input: Seq<char>) -> Result<int, OffsetError> {
    let t = trim(input);
    let w = last_index(t, whitespace_pred());
    let j = last_index(t, sign_pred());
    if t.len() == 0 {
        Err(OffsetError::Empty)
    } else if spec_normalize(t) is Ok {
        spec_normalize(t)
    } else if ends_in_zulu(t) {
        offset_from_minutes(0)
    } else if w >= 0 && spec_normalize(t.skip(w + 1)) is Ok {
        spec_normalize(t.skip(w + 1))
    } else if j >= 0 && spec_parse_numeric(ascii_upper(t.skip(j))) is Ok {
        spec_parse_numeric(ascii_upper(t.skip(j)))
    } else {
        Err(OffsetError::UnrecognizedFormat)
    }
}

pub open spec fn number_view(r: Result<i16, OffsetError>) -> Result<int, OffsetError> {
    match r {
        Ok(x) => Ok(x as int),
        Err(e) => Err(e),
    }
}

pub open spec fn fields_view(r: Result<(i16, i16), OffsetError>) -> Result<(int, int), OffsetError> {
    match r {
        Ok((h, m)) => Ok((h as int, m as int)),
        Err(e) => Err(e),
    }
}

/// Reads the digits `v[lo..hi]` as an `i16`.
fn parse_digits(v: &[char], lo: usize, hi: usize) -> (r: Result<i16, OffsetError>)
    requires
        lo <= hi <= v@.len(),
    ensures
        number_view(r) == spec_parse_digits(v@.subrange(lo as int, hi as int)),
        r matches Ok(x) ==> x >= 0,
{
    let ghost s = v@.subrange(lo as int, hi as int);
    if lo == hi {
        return Err(OffsetError::UnrecognizedFormat);
    }
    let mut i = lo;
    while i < hi
        invariant
            lo <= i <= hi <= v@.len(),
            s == v@.subrange(lo as int, hi as int),
            forall|j: int| lo <= j < i ==> is_ascii_digit(#[trigger] v@[j]),
        decreases hi - i,
    {
        if !is_digit_char(v[i]) {
            assert(s[i - lo] == v@[i as int]);
            return Err(OffsetError::UnrecognizedFormat);
        }
        i = i + 1;
    }
    assert(all_digits(s)) by {
        assert forall|j: int| 0 <= j < s.len() implies is_ascii_digit(#[trigger] s[j]) by {
            assert(s[j] == v@[lo + j]);
        }
    }
    let mut acc: i32 = 0;
    i = lo;
    while i < hi
        invariant
            lo <= i <= hi <= v@.len(),
            s == v@.subrange(lo as int, hi as int),
            all_digits(s),
            acc as int == decimal_value(v@.subrange(lo as int, i as int)),
            0 <= acc <= i16::MAX,
        decreases hi - i,
    {
        let c = v[i];
        assert(s[i - lo] == c);
        let d = (c as u32 - '0' as u32) as i32;
        assert(v@.subrange(lo as int, i + 1).drop_last() =~= v@.subrange(lo as int, i as int));
        acc = acc * 10 + d;
        if acc > i16::MAX as i32 {
            proof {
                assert(s.take(i + 1 - lo) =~= v@.subrange(lo as int, i + 1));
                lemma_decimal_value_prefix(s, i + 1 - lo);
            }
            return Err(OffsetError::UnrecognizedFormat);
        }
        i = i + 1;
    }
    assert(v@.subrange(lo as int, hi as int) == s);
    Ok(acc as i16)
}

/// The index of the first colon in `v[lo..hi]`, or `hi` when there is none.
fn find_colon(v: &[char], lo: usize, hi: usize) -> (k: usize)
    requires
        lo <= hi <= v@.len(),
    ensures
        lo <= k <= hi,
        k - lo == first_index(v@.subrange(lo as int, hi as int), colon_pred()),
{
    let mut k = lo;
    while k < hi && v[k] != ':'
        invariant
            lo <= k <= hi <= v@.len(),
            forall|j: int| lo <= j < k ==> v@[j] != ':',
        decreases hi - k,
    {
        k = k + 1;
    }
    proof {
        let s = v@.subrange(lo as int, hi as int);
        assert forall|j: int| 0 <= j < k - lo implies !colon_pred()(#[trigger] s[j]) by {
            assert(s[j] == v@[lo + j]);
        }
        lemma_first_index(s, colon_pred(), k - lo);
    }
    k
}

/// Hours and minutes of `v[lo..hi]`, the text after the sign.
fn read_fields(v: &[char], lo: usize, hi: usize) -> (r: Result<(i16, i16), OffsetError>)
    requires
        lo <= hi <= v@.len(),
    ensures
        fields_view(r) == numeric_fields(v@.subrange(lo as int, hi as int)),
        r matches Ok((h, m)) ==> h >= 0 && m >= 0,
{
    let ghost rest = v@.subrange(lo as int, hi as int);
    let k = find_colon(v, lo, hi);
    if k < hi {
        assert(rest.take(k - lo) =~= v@.subrange(lo as int, k as int));
        assert(rest.skip(k - lo + 1) =~= v@.subrange(k + 1, hi as int));
        let h = match parse_digits(v, lo, k) {
            Ok(h) => h,
            Err(e) => return Err(e),
        };
        let m = match parse_digits(v, k + 1, hi) {
            Ok(m) => m,
            Err(e) => return Err(e),
        };
        return Ok((h, m));
    }
    let n = hi - lo;
    if n == 0 || n > 4 {
        return Err(OffsetError::UnrecognizedFormat);
    }
    // Hours take the first one or two digits; minutes whatever follows.
    let c: usize = if n == 3 {
        1
    } else if n == 4 {
        2
    } else {
        n
    };
    assert(rest.take(c as int) =~= v@.subrange(lo as int, lo + c));
    assert(rest.skip(c as int) =~= v@.subrange(lo + c, hi as int));
    let h = match parse_digits(v, lo, lo + c) {
        Ok(h) => h,
        Err(e) => {
            proof {
                if all_digits(rest) {
                    lemma_all_digits_split(rest, c as int);
                    lemma_decimal_value_bounds(rest.take(c as int));
                }
            }
            return Err(e);
        },
    };
    if c == n {
        assert(rest.take(c as int) =~= rest);
        return Ok((h, 0));
    }
    let m = match parse_digits(v, lo + c, hi) {
        Ok(m) => m,
        Err(e) => {
            proof {
                if all_digits(rest) {
                    lemma_all_digits_split(rest, c as int);
                    lemma_decimal_value_bounds(rest.skip(c as int));
                }
            }
            return Err(e);
        },
    };
    proof {
        lemma_digits_join(rest, c as int);
    }
    Ok((h, m))
}

/// A digit string splits into two digit strings.
proof fn lemma_all_digits_split(s: Seq<char>, c: int)
    requires
        all_digits(s),
        0 <= c <= s.len(),
    ensures
        all_digits(s.take(c)),
        all_digits(s.skip(c)),
{
    assert forall|i: int| 0 <= i < s.take(c).len() implies is_ascii_digit(#[trigger] s.take(c)[i]) by {
        assert(s.take(c)[i] == s[i]);
    }
    assert forall|i: int| 0 <= i < s.skip(c).len() implies is_ascii_digit(#[trigger] s.skip(c)[i]) by {
        assert(s.skip(c)[i] == s[i + c]);
    }
}

/// Two digit strings put together make a digit string.
proof fn lemma_digits_join(s: Seq<char>, c: int)
    requires
        0 <= c <= s.len(),
        all_digits(s.take(c)),
        all_digits(s.skip(c)),
    ensures
        all_digits(s),
{
    assert forall|i: int| 0 <= i < s.len() implies is_ascii_digit(#[trigger] s[i]) by {
        if i < c {
            assert(s.take(c)[i] == s[i]);
        } else {
            assert(s.skip(c)[i - c] == s[i]);
        }
    }
}

/// Reads the signed numeric offset `v[lo..hi]`.
fn parse_numeric_chars(v: &[char], lo: usize, hi: usize) -> (r: Result<Offset, OffsetError>)
    requires
        lo <= hi <= v@.len(),
    ensures
        result_view(r) == spec_parse_numeric(v@.subrange(lo as int, hi as int)),
{
    let ghost s = v@.subrange(lo as int, hi as int);
    if lo == hi {
        return Err(OffsetError::UnrecognizedFormat);
    }
    let sign = v[lo];
    if sign != '+' && sign != '-' {
        return Err(OffsetError::UnrecognizedFormat);
    }
    assert(s.drop_first() =~= v@.subrange(lo + 1, hi as int));
    let (hours, minutes) = match read_fields(v, lo + 1, hi) {
        Ok(f) => f,
        Err(e) => return Err(e),
    };
    if minutes >= 60 {
        return Err(OffsetError::InvalidMinutes);
    }
    if hours > 14 {
        return Err(OffsetError::InvalidHours);
    }
    let total = hours * 60 + minutes;
    if sign == '-' {
        Offset::from_minutes(-total)
    } else {
        Offset::from_minutes(total)
    }
}

/// Reads a signed numeric offset such as `+5`, `-0800`, `+530` or `+05:30`:
/// a sign, then hours and minutes split at the first colon, or, without a
/// colon, by the number of digits (see `numeric_fields`).
/// Minutes of 60 or more are refused with `InvalidMinutes`, then hours above
/// 14 with `InvalidHours`, then offsets outside -12:00..=+14:00 with
/// `OutOfRange`.
pub fn parse_numeric(s: &str) -> (r: Result<Offset, OffsetError>)
    ensures
        result_view(r) == spec_parse_numeric(s@),
{
    let v = chars_of(s);
    assert(v@.subrange(0, v@.len() as int) =~= v@);
    parse_numeric_chars(v.as_slice(), 0, v.len())
}

/// Whether `u` starts with `UTC` or `GMT`.
fn has_utc_or_gmt_prefix(u: &[char]) -> (b: bool)
    ensures
        b == utc_or_gmt_prefix(u@),
{
    if u.len() < 3 {
        return false;
    }
    let b = (u[0] == 'U' && u[1] == 'T' && u[2] == 'C') || (u[0] == 'G' && u[1] == 'M' && u[2]
        == 'T');
    proof {
        if b {
            if u[0] == 'U' {
                assert(u@.take(3) =~= seq!['U', 'T', 'C']);
            } else {
                assert(u@.take(3) =~= seq!['G', 'M', 'T']);
            }
        } else {
            assert(u@.take(3)[0] == u@[0] && u@.take(3)[1] == u@[1] && u@.take(3)[2] == u@[2]);
            assert(seq!['U', 'T', 'C'][0] == 'U' && seq!['U', 'T', 'C'][1] == 'T' && seq![
                'U',
                'T',
                'C',
            ][2] == 'C');
            assert(seq!['G', 'M', 'T'][0] == 'G' && seq!['G', 'M', 'T'][1] == 'M' && seq![
                'G',
                'M',
                'T',
            ][2] == 'T');
        }
    }
    b
}

/// Normalizes the offset text `v[lo..hi]`.
fn normalize_chars(v: &[char], lo: usize, hi: usize) -> (r: Result<Offset, OffsetError>)
    requires
        lo <= hi <= v@.len(),
    ensures
        result_view(r) == spec_normalize(v@.subrange(lo as int, hi as int)),
{
    let (a, b) = trim_bounds(v, lo, hi);
    if a == b {
        return Err(OffsetError::Empty);
    }
    let u = upper_copy(v, a, b);
    let n = u.len();
    if has_utc_or_gmt_prefix(u.as_slice()) {
        if n == 3 {
            return Offset::from_minutes(0);
        }
        if u[3] == '+' || u[3] == '-' {
            assert(u@.skip(3) =~= u@.subrange(3, n as int));
            return parse_numeric_chars(u.as_slice(), 3, n);
        }
    }
    match lookup_zone(u.as_slice()) {
        Some(m) => Offset::from_minutes(m),
        None => {
            assert(u@.subrange(0, n as int) =~= u@);
            parse_numeric_chars(u.as_slice(), 0, n)
        },
    }
}

/// Normalizes messy offset or time zone text into a canonical [`Offset`].
///
/// Accepts, ignoring surrounding whitespace and ASCII letter case: the
/// abbreviations of a small fixed table ("UTC", "PST", "Z", ...), `UTC` or
/// `GMT` followed by a signed numeric offset ("UTC+8", "GMT-05:30"), and
/// bare signed numeric offsets in several widths ("+5", "+05:30", "+0530",
/// "+530"). Any other text is refused, never panicked on.
pub fn normalize(input: &str) -> (r: Result<Offset, OffsetError>)
    ensures
        result_view(r) == spec_normalize(input@),
{
    let v = chars_of(input);
    assert(v@.subrange(0, v@.len() as int) =~= v@);
    normalize_chars(v.as_slice(), 0, v.len())
}

/// The index of the last whitespace character of `v[lo..hi]`.
fn last_whitespace(v: &[char], lo: usize, hi: usize) -> (r: Option<usize>)
    requires
        lo <= hi <= v@.len(),
    ensures
        r matches Some(i) ==> lo <= i < hi && i - lo == last_index(
            v@.subrange(lo as int, hi as int),
            whitespace_pred(),
        ),
        r is None ==> last_index(v@.subrange(lo as int, hi as int), whitespace_pred()) == -1,
{
    let mut i = hi;
    while i > lo && !is_whitespace_char(v[i - 1])
        invariant
            lo <= i <= hi <= v@.len(),
            forall|j: int| i <= j < hi ==> !is_whitespace(#[trigger] v@[j]),
        decreases i - lo,
    {
        i = i - 1;
    }
    proof {
        let s = v@.subrange(lo as int, hi as int);
        assert forall|j: int| i - 1 - lo < j < s.len() implies !whitespace_pred()(
            #[trigger] s[j],
        ) by {
            assert(s[j] == v@[lo + j]);
        }
        if i > lo {
            assert(s[i - 1 - lo] == v@[i - 1]);
        }
        lemma_last_index(s, whitespace_pred(), i - 1 - lo);
    }
    if i == lo {
        None
    } else {
        Some(i - 1)
    }
}

/// The index of the last `+` or `-` of `v[lo..hi]`.
fn last_sign(v: &[char], lo: usize, hi: usize) -> (r: Option<usize>)
    requires
        lo <= hi <= v@.len(),
    ensures
        r matches Some(i) ==> lo <= i < hi && i - lo == last_index(
            v@.subrange(lo as int, hi as int),
            sign_pred(),
        ),
        r is None ==> last_index(v@.subrange(lo as int, hi as int), sign_pred()) == -1,
{
    let mut i = hi;
    while i > lo && !(v[i - 1] == '+' || v[i - 1] == '-')
        invariant
            lo <= i <= hi <= v@.len(),
            forall|j: int| i <= j < hi ==> !(#[trigger] v@[j] == '+' || v@[j] == '-'),
        decreases i - lo,
    {
        i = i - 1;
    }
    proof {
        let s = v@.subrange(lo as int, hi as int);
        assert forall|j: int| i - 1 - lo < j < s.len() implies !sign_pred()(#[trigger] s[j]) by {
            assert(s[j] == v@[lo + j]);
        }
        if i > lo {
            assert(s[i - 1 - lo] == v@[i - 1]);
        }
        lemma_last_index(s, sign_pred(), i - 1 - lo);
    }
    if i == lo {
        None
    } else {
        Some(i - 1)
    }
}

/// Pulls a UTC offset out of a full datetime text and normalizes it. The
/// date and time are not read; only the end of the text is: a `Z`/`z`
/// marker after a digit, a zone token after the last whitespace
/// ("... GMT-0800", "... PST"), or a signed numeric offset glued onto the
/// time ("...T10:30:00+05:30"). Text that is a bare offset as a whole gives
/// what [`normalize`] gives. Any other text is refused, never panicked on.
pub fn extract_offset(input: &str) -> (r: Result<Offset, OffsetError>)
    ensures
        result_view(r) == spec_extract_offset(input@),
{
    let v = chars_of(input);
    let n = v.len();
    assert(v@.subrange(0, n as int) =~= v@);
    let (a, b) = trim_bounds(v.as_slice(), 0, n);
    let ghost t = v@.subrange(a as int, b as int);
    if a == b {
        return Err(OffsetError::Empty);
    }
    let whole = normalize_chars(v.as_slice(), a, b);
    if whole.is_ok() {
        return whole;
    }
    if b - a >= 2 && (v[b - 1] == 'Z' || v[b - 1] == 'z') && is_digit_char(v[b - 2]) {
        assert(t.last() == v@[b - 1] && t[t.len() - 2] == v@[b - 2]);
        return Offset::from_minutes(0);
    }
    proof {
        if ends_in_zulu(t) {
            assert(t.last() == v@[b - 1] && t[t.len() - 2] == v@[b - 2]);
        }
    }
    match last_whitespace(v.as_slice(), a, b) {
        Some(w) => {
            assert(t[w - a] == v@[w as int]);
            assert(t.skip(w - a + 1) =~= v@.subrange(w + 1, b as int));
            let token = normalize_chars(v.as_slice(), w + 1, b);
            if token.is_ok() {
                return token;
            }
        },
        None => {},
    }
    match last_sign(v.as_slice(), a, b) {
        Some(j) => {
            assert(t.skip(j - a) =~= v@.subrange(j as int, b as int));
            let u = upper_copy(v.as_slice(), j, b);
            assert(u@.subrange(0, u@.len() as int) =~= u@);
            let tail = parse_numeric_chars(u.as_slice(), 0, u.len());
            if tail.is_ok() {
                return tail;
            }
        },
        None => {},
    }
    Err(OffsetError::UnrecognizedFormat)
}

} // verus!
