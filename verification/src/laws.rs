use vstd::prelude::*;

use crate::offset::{abs, canonical_text, digit_char, in_range, offset_from_minutes, OffsetError};
use crate::parse::{
    colon_pred, ends_in_zulu, numeric_fields, sign_pred, spec_extract_offset, spec_normalize,
    spec_parse_digits, spec_parse_numeric, utc_or_gmt_prefix, whitespace_pred,
};
use crate::text::{
    all_digits, ascii_upper, decimal_value, digit_value, first_index, is_ascii_digit, is_whitespace,
    last_index,
    lemma_decimal_value_bounds, lemma_first_index, lemma_last_index, lemma_trim_idempotent,
    lemma_trim_start_no_leading, trim, trim_end,
    trim_start, upper_char,
};
use crate::zones::named_zone;

verus! {

proof fn lemma_digit_char_value(d: int)
    requires
        0 <= d <= 9,
    ensures
        is_ascii_digit(digit_char(d)),
        digit_value(digit_char(d)) == d,
        !is_whitespace(digit_char(d)),
        digit_char(d) != ':',
{
}

proof fn lemma_two_digits(a: int, b: int)
    requires
        0 <= a <= 9,
        0 <= b <= 9,
    ensures
        all_digits(seq![digit_char(a), digit_char(b)]),
        decimal_value(seq![digit_char(a), digit_char(b)]) == a * 10 + b,
{
    lemma_digit_char_value(a);
    lemma_digit_char_value(b);
    let s = seq![digit_char(a), digit_char(b)];
    assert(s.drop_last() =~= seq![digit_char(a)]);
    assert(seq![digit_char(a)].drop_last() =~= Seq::<char>::empty());
    assert(decimal_value(Seq::<char>::empty()) == 0);
    assert(decimal_value(seq![digit_char(a)]) == a);
}

pub open spec fn is_upper_letter(c: char) -> bool {
    'A' <= c && c <= 'Z'
}

/// Every name of the table has one to four characters, all upper-case
/// letters.
proof fn lemma_zone_names_are_letters(u: Seq<char>)
    ensures
        named_zone(u) is Some ==> 1 <= u.len() <= 4 && forall|i: int|
            0 <= i < u.len() ==> is_upper_letter(#[trigger] u[i]),
{
}

/// The canonical text has no surrounding whitespace, no lower-case letter,
/// no `UTC`/`GMT` prefix, and is no name of the table.
proof fn lemma_canonical_text_is_numeric(m: int)
    requires
        in_range(m),
    ensures
        trim(canonical_text(m)) == canonical_text(m),
        ascii_upper(canonical_text(m)) == canonical_text(m),
        !utc_or_gmt_prefix(canonical_text(m)),
        named_zone(canonical_text(m)) is None,
{
    let s = canonical_text(m);
    let h = abs(m) / 60;
    let mm = abs(m) % 60;
    lemma_digit_char_value(h / 10);
    lemma_digit_char_value(h % 10);
    lemma_digit_char_value(mm / 10);
    lemma_digit_char_value(mm % 10);
    assert(trim_start(s) == s);
    assert(trim_end(s) == s);
    assert(ascii_upper(s) =~= s);
    assert(s.take(3)[0] == s[0]);
    lemma_zone_names_are_letters(s);
}

/// The canonical text read as a numeric offset is the offset itself.
proof fn lemma_canonical_text_value(m: int)
    requires
        in_range(m),
    ensures
        spec_parse_numeric(canonical_text(m)) == Ok::<int, OffsetError>(m),
{
    let s = canonical_text(m);
    let h = abs(m) / 60;
    let mm = abs(m) % 60;
    assert(h <= 14);
    lemma_digit_char_value(h / 10);
    lemma_digit_char_value(h % 10);
    let rest = s.drop_first();
    assert(rest =~= seq![
        digit_char(h / 10),
        digit_char(h % 10),
        ':',
        digit_char(mm / 10),
        digit_char(mm % 10),
    ]);
    assert forall|j: int| 0 <= j < 2 implies !colon_pred()(#[trigger] rest[j]) by {}
    lemma_first_index(rest, colon_pred(), 2);
    assert(rest.take(2) =~= seq![digit_char(h / 10), digit_char(h % 10)]);
    assert(rest.skip(3) =~= seq![digit_char(mm / 10), digit_char(mm % 10)]);
    lemma_two_digits(h / 10, h % 10);
    lemma_two_digits(mm / 10, mm % 10);
    assert(numeric_fields(rest) == Ok::<(int, int), OffsetError>((h, mm)));
}

/// The canonical text of every offset reads back as that offset, through
/// `normalize` and through `extract_offset`, 
pub proof fn lemma_canonical_text_reparses(m: int)
    requires
        in_range(m),
    ensures
        spec_normalize(canonical_text(m)) == Ok::<int, OffsetError>(m),
        spec_extract_offset(canonical_text(m)) == Ok::<int, OffsetError>(m),
{
    lemma_canonical_text_is_numeric(m);
    lemma_canonical_text_value(m);
    lemma_extract_agrees_with_normalize(canonical_text(m));
}

pub open spec fn all_whitespace(s: Seq<char>) -> bool {
    forall|i: int| 0 <= i < s.len() ==> is_whitespace(#[trigger] s[i])
}

proof fn lemma_trim_start_skips_whitespace(p: Seq<char>, x: Seq<char>)
    requires
        all_whitespace(p),
    ensures
        trim_start(p + x) == trim_start(x),
    decreases p.len(),
{
    if p.len() > 0 {
        assert((p + x)[0] == p[0]);
        assert((p + x).drop_first() =~= p.drop_first() + x);
        assert(all_whitespace(p.drop_first())) by {
            assert forall|i: int| 0 <= i < p.drop_first().len() implies is_whitespace(
                #[trigger] p.drop_first()[i],
            ) by {
                assert(p.drop_first()[i] == p[i + 1]);
            }
        }
        lemma_trim_start_skips_whitespace(p.drop_first(), x);
    } else {
        assert(p + x =~= x);
    }
}

proof fn lemma_trim_end_skips_whitespace(x: Seq<char>, q: Seq<char>)
    requires
        all_whitespace(q),
    ensures
        trim_end(x + q) == trim_end(x),
    decreases q.len(),
{
    if q.len() > 0 {
        assert((x + q).last() == q.last());
        assert((x + q).drop_last() =~= x + q.drop_last());
        assert(all_whitespace(q.drop_last())) by {
            assert forall|i: int| 0 <= i < q.drop_last().len() implies is_whitespace(
                #[trigger] q.drop_last()[i],
            ) by {
                assert(q.drop_last()[i] == q[i]);
            }
        }
        lemma_trim_end_skips_whitespace(x, q.drop_last());
    } else {
        assert(x + q =~= x);
    }
}

proof fn lemma_trim_start_append(s: Seq<char>, q: Seq<char>)
    requires
        all_whitespace(q),
    ensures
        trim_start(s).len() > 0 ==> trim_start(s + q) == trim_start(s) + q,
        trim_start(s).len() == 0 ==> trim_start(s + q).len() == 0,
    decreases s.len(),
{
    if s.len() == 0 {
        assert(s + q =~= q);
        lemma_trim_start_skips_whitespace(q, Seq::<char>::empty());
        assert(q + Seq::<char>::empty() =~= q);
    } else {
        assert((s + q)[0] == s[0]);
        if is_whitespace(s[0]) {
            assert((s + q).drop_first() =~= s.drop_first() + q);
            lemma_trim_start_append(s.drop_first(), q);
        }
    }
}

/// Whitespace around the text changes nothing: `normalize` gives the same
/// for `p + s + q` as for `s` whenever `p` and `q` are all whitespace.
pub proof fn lemma_normalize_ignores_padding(p: Seq<char>, s: Seq<char>, q: Seq<char>)
    requires
        all_whitespace(p),
        all_whitespace(q),
    ensures
        spec_normalize(p + s + q) == spec_normalize(s),
{
    assert(p + s + q =~= p + (s + q));
    lemma_trim_start_skips_whitespace(p, s + q);
    lemma_trim_start_append(s, q);
    if trim_start(s).len() > 0 {
        lemma_trim_end_skips_whitespace(trim_start(s), q);
    }
    assert(trim(p + s + q) == trim(s));
}

/// `normalize` depends on its input only through the trimmed text: cutting
/// off surrounding whitespace does not change the result.
pub proof fn lemma_normalize_ignores_surrounding_whitespace(s: Seq<char>)
    ensures
        spec_normalize(trim(s)) == spec_normalize(s),
{
    lemma_trim_idempotent(s);
}

/// Every offset that `normalize`, `extract_offset` or `parse_numeric`
/// returns lies in -12:00..=+14:00.
pub proof fn lemma_results_in_range(s: Seq<char>)
    ensures
        spec_normalize(s) matches Ok(m) ==> in_range(m),
        spec_extract_offset(s) matches Ok(m) ==> in_range(m),
        spec_parse_numeric(s) matches Ok(m) ==> in_range(m),
{
    lemma_results_in_range_numeric(s);
    lemma_results_in_range_numeric(ascii_upper(trim(s)));
    lemma_results_in_range_numeric(ascii_upper(trim(s)).skip(3));
}

proof fn lemma_results_in_range_numeric(s: Seq<char>)
    ensures
        spec_parse_numeric(s) matches Ok(m) ==> in_range(m),
{
}

/// On text that `normalize` accepts, `extract_offset` gives the same offset;
/// both refuse with `Empty` exactly the same texts.
pub proof fn lemma_extract_agrees_with_normalize(s: Seq<char>)
    ensures
        spec_normalize(s) is Ok ==> spec_extract_offset(s) == spec_normalize(s),
        spec_extract_offset(s) == Err::<int, OffsetError>(OffsetError::Empty) <==> spec_normalize(
            s,
        ) == Err::<int, OffsetError>(OffsetError::Empty),
{
    lemma_trim_idempotent(s);
    lemma_results_in_range(s);
}

proof fn lemma_upper_keeps_whitespace(c: char)
    ensures
        is_whitespace(upper_char(c)) == is_whitespace(c),
        is_ascii_digit(upper_char(c)) == is_ascii_digit(c),
        upper_char(c) == '+' <==> c == '+',
        upper_char(c) == '-' <==> c == '-',
        upper_char(c) == 'Z' <==> (c == 'Z' || c == 'z'),
        upper_char(upper_char(c)) == upper_char(c),
{
}

proof fn lemma_trim_start_upper(s: Seq<char>)
    ensures
        trim_start(ascii_upper(s)) == ascii_upper(trim_start(s)),
    decreases s.len(),
{
    if s.len() > 0 {
        lemma_upper_keeps_whitespace(s[0]);
        if is_whitespace(s[0]) {
            assert(ascii_upper(s).drop_first() =~= ascii_upper(s.drop_first()));
            lemma_trim_start_upper(s.drop_first());
        }
    } else {
        assert(ascii_upper(s) =~= s);
    }
}

proof fn lemma_trim_end_upper(s: Seq<char>)
    ensures
        trim_end(ascii_upper(s)) == ascii_upper(trim_end(s)),
    decreases s.len(),
{
    if s.len() > 0 {
        lemma_upper_keeps_whitespace(s.last());
        if is_whitespace(s.last()) {
            assert(ascii_upper(s).drop_last() =~= ascii_upper(s.drop_last()));
            lemma_trim_end_upper(s.drop_last());
        }
    } else {
        assert(ascii_upper(s) =~= s);
    }
}

/// Upper-casing and trimming commute.
proof fn lemma_trim_upper(s: Seq<char>)
    ensures
        trim(ascii_upper(s)) == ascii_upper(trim(s)),
        ascii_upper(ascii_upper(s)) == ascii_upper(s),
{
    lemma_trim_start_upper(s);
    lemma_trim_end_upper(trim_start(s));
    assert forall|i: int| 0 <= i < s.len() implies #[trigger] ascii_upper(ascii_upper(s))[i]
        == ascii_upper(s)[i] by {
        lemma_upper_keeps_whitespace(s[i]);
    }
    assert(ascii_upper(ascii_upper(s)) =~= ascii_upper(s));
}

/// `normalize` ignores ASCII letter case: two texts that differ only in the
/// case of ASCII letters give the same result.
pub proof fn lemma_normalize_ignores_ascii_case(s1: Seq<char>, s2: Seq<char>)
    requires
        ascii_upper(s1) == ascii_upper(s2),
    ensures
        spec_normalize(s1) == spec_normalize(s2),
{
    lemma_trim_upper(s1);
    lemma_trim_upper(s2);
    assert(ascii_upper(trim(s1)) == ascii_upper(trim(s2)));
    assert(trim(s1).len() == ascii_upper(trim(s1)).len());
    assert(trim(s2).len() == ascii_upper(trim(s2)).len());
}

proof fn lemma_last_index_agrees(a: Seq<char>, b: Seq<char>, p: spec_fn(char) -> bool)
    requires
        a.len() == b.len(),
        forall|i: int| 0 <= i < a.len() ==> p(#[trigger] a[i]) == p(b[i]),
    ensures
        last_index(a, p) == last_index(b, p),
    decreases a.len(),
{
    if a.len() > 0 {
        assert(p(a[a.len() - 1]) == p(b[b.len() - 1]));
        assert forall|i: int| 0 <= i < a.drop_last().len() implies p(#[trigger] a.drop_last()[i])
            == p(b.drop_last()[i]) by {
            assert(a.drop_last()[i] == a[i] && b.drop_last()[i] == b[i]);
        }
        lemma_last_index_agrees(a.drop_last(), b.drop_last(), p);
    }
}

proof fn lemma_skip_upper(t: Seq<char>, k: int)
    requires
        0 <= k <= t.len(),
    ensures
        ascii_upper(t.skip(k)) == ascii_upper(t).skip(k),
{
    assert(ascii_upper(t.skip(k)) =~= ascii_upper(t).skip(k));
}

/// Two texts with the same upper-case form have their whitespace, signs,
/// `Z` markers and digits in the same places.
proof fn lemma_same_upper_same_landmarks(t1: Seq<char>, t2: Seq<char>)
    requires
        ascii_upper(t1) == ascii_upper(t2),
    ensures
        t1.len() == t2.len(),
        last_index(t1, whitespace_pred()) == last_index(t2, whitespace_pred()),
        last_index(t1, sign_pred()) == last_index(t2, sign_pred()),
        -1 <= last_index(t1, whitespace_pred()) < t1.len(),
        -1 <= last_index(t1, sign_pred()) < t1.len(),
        ends_in_zulu(t1) == ends_in_zulu(t2),
{
    let u = ascii_upper(t1);
    assert(t1.len() == u.len() && t2.len() == ascii_upper(t2).len());
    assert forall|i: int| #![trigger t1[i]] 0 <= i < t1.len() implies whitespace_pred()(t1[i])
        == whitespace_pred()(t2[i]) && sign_pred()(t1[i]) == sign_pred()(t2[i]) && is_ascii_digit(t1[i]) == is_ascii_digit(t2[i]) && ((t1[i] == 'Z'
        || t1[i] == 'z') == (t2[i] == 'Z' || t2[i] == 'z')) by {
        assert(u[i] == upper_char(t1[i]) && ascii_upper(t2)[i] == upper_char(t2[i]));
        lemma_upper_keeps_whitespace(t1[i]);
        lemma_upper_keeps_whitespace(t2[i]);
    }
    lemma_last_index_agrees(t1, t2, whitespace_pred());
    lemma_last_index_agrees(t1, t2, sign_pred());
    lemma_last_index_bounds(t1, whitespace_pred());
    lemma_last_index_bounds(t1, sign_pred());
    if t1.len() >= 2 {
        assert(is_ascii_digit(t1[t1.len() - 2]) == is_ascii_digit(t2[t2.len() - 2]));
        assert(t1.last() == t1[t1.len() - 1] && t2.last() == t2[t2.len() - 1]);
    }
}

/// `extract_offset` ignores ASCII letter case as well: two texts that
/// differ only in the case of ASCII letters give the same result.
pub proof fn lemma_extract_ignores_ascii_case(s1: Seq<char>, s2: Seq<char>)
    requires
        ascii_upper(s1) == ascii_upper(s2),
    ensures
        spec_extract_offset(s1) == spec_extract_offset(s2),
{
    lemma_trim_upper(s1);
    lemma_trim_upper(s2);
    let t1 = trim(s1);
    let t2 = trim(s2);
    lemma_same_upper_same_landmarks(t1, t2);
    lemma_normalize_ignores_ascii_case(t1, t2);
    let w = last_index(t1, whitespace_pred());
    let j = last_index(t1, sign_pred());
    if w >= 0 {
        lemma_skip_upper(t1, w + 1);
        lemma_skip_upper(t2, w + 1);
        lemma_normalize_ignores_ascii_case(t1.skip(w + 1), t2.skip(w + 1));
    }
    if j >= 0 {
        lemma_skip_upper(t1, j);
        lemma_skip_upper(t2, j);
        lemma_trim_upper(t1.skip(j));
        lemma_trim_upper(t2.skip(j));
    }
}

proof fn lemma_last_index_bounds(s: Seq<char>, p: spec_fn(char) -> bool)
    ensures
        -1 <= last_index(s, p) < s.len(),
    decreases s.len(),
{
    if s.len() > 0 {
        lemma_last_index_bounds(s.drop_last(), p);
    }
}

/// What the sign and the hours and minutes of a numeric offset give: minutes
/// of 60 or more are refused, then hours above 14, then offsets out of range.
pub open spec fn numeric_rule(negative: bool, h: int, m: int) -> Result<int, OffsetError> {
    if m >= 60 {
        Err(OffsetError::InvalidMinutes)
    } else if h > 14 {
        Err(OffsetError::InvalidHours)
    } else if negative {
        offset_from_minutes(-(h * 60 + m))
    } else {
        offset_from_minutes(h * 60 + m)
    }
}

proof fn lemma_digits_parse(s: Seq<char>)
    requires
        all_digits(s),
        s.len() > 0,
        decimal_value(s) <= i16::MAX,
    ensures
        spec_parse_digits(s) == Ok::<int, OffsetError>(decimal_value(s)),
{
}

/// The colon form `sign hours ':' minutes` with runs of decimal digits on
/// either side: an empty side is refused, otherwise the numbers on the two
/// sides follow `numeric_rule`, whatever their widths. (Runs
/// that spell a number above `i16::MAX` are refused as unrecognized, so they
/// are left out here.)
pub proof fn lemma_colon_form(sign: char, h: Seq<char>, m: Seq<char>)
    requires
        sign == '+' || sign == '-',
        all_digits(h),
        all_digits(m),
        decimal_value(h) <= i16::MAX,
        decimal_value(m) <= i16::MAX,
    ensures
        spec_parse_numeric(seq![sign] + h + seq![':'] + m) == if h.len() == 0 || m.len() == 0 {
            Err(OffsetError::UnrecognizedFormat)
        } else {
            numeric_rule(sign == '-', decimal_value(h), decimal_value(m))
        },
{
    let s = seq![sign] + h + seq![':'] + m;
    let rest = s.drop_first();
    assert(rest =~= h + seq![':'] + m);
    assert forall|j: int| 0 <= j < h.len() implies !colon_pred()(#[trigger] rest[j]) by {
        assert(rest[j] == h[j]);
        assert(is_ascii_digit(h[j]));
    }
    assert(rest[h.len() as int] == ':');
    lemma_first_index(rest, colon_pred(), h.len() as int);
    assert(rest.take(h.len() as int) =~= h);
    assert(rest.skip(h.len() as int + 1) =~= m);
    if h.len() > 0 {
        lemma_digits_parse(h);
    }
    if m.len() > 0 {
        lemma_digits_parse(m);
    }
    lemma_decimal_value_bounds(h);
    lemma_decimal_value_bounds(m);
}

/// The bare form `sign digits`: one or two digits are hours, three are one
/// digit of hours and two of minutes, four are two and two; any other
/// number of digits is refused. The numbers then follow `numeric_rule`.
pub proof fn lemma_bare_digit_widths(sign: char, d: Seq<char>)
    requires
        sign == '+' || sign == '-',
        all_digits(d),
    ensures
        spec_parse_numeric(seq![sign] + d) == if d.len() == 1 || d.len() == 2 {
            numeric_rule(sign == '-', decimal_value(d), 0)
        } else if d.len() == 3 {
            numeric_rule(sign == '-', decimal_value(d.take(1)), decimal_value(d.skip(1)))
        } else if d.len() == 4 {
            numeric_rule(sign == '-', decimal_value(d.take(2)), decimal_value(d.skip(2)))
        } else {
            Err(OffsetError::UnrecognizedFormat)
        },
{
    let s = seq![sign] + d;
    let rest = s.drop_first();
    assert(rest =~= d);
    assert forall|j: int| 0 <= j < d.len() implies !colon_pred()(#[trigger] d[j]) by {
        assert(is_ascii_digit(d[j]));
    }
    lemma_first_index(d, colon_pred(), d.len() as int);
    assert forall|k: int| 0 <= k <= d.len() implies all_digits(#[trigger] d.take(k)) && all_digits(
        d.skip(k),
    ) by {
        assert forall|i: int| 0 <= i < d.take(k).len() implies is_ascii_digit(
            #[trigger] d.take(k)[i],
        ) by {
            assert(d.take(k)[i] == d[i]);
        }
        assert forall|i: int| 0 <= i < d.skip(k).len() implies is_ascii_digit(
            #[trigger] d.skip(k)[i],
        ) by {
            assert(d.skip(k)[i] == d[i + k]);
        }
    }
    lemma_decimal_value_bounds(d);
    if d.len() == 1 || d.len() == 2 {
        lemma_digits_parse(d);
    } else if d.len() == 3 || d.len() == 4 {
        let c: int = if d.len() == 3 {
            1
        } else {
            2
        };
        lemma_decimal_value_bounds(d.take(c));
        lemma_decimal_value_bounds(d.skip(c));
        lemma_digits_parse(d.take(c));
        lemma_digits_parse(d.skip(c));
    }
}

/// An offset's hours and minutes make up its magnitude again, with at most
/// 14 hours and fewer than 60 minutes: the parts that `hours` and `minutes`
/// return.
pub proof fn lemma_hours_minutes_recompose(m: int)
    requires
        in_range(m),
    ensures
        (abs(m) / 60) * 60 + abs(m) % 60 == abs(m),
        0 <= abs(m) / 60 <= 14,
        0 <= abs(m) % 60 < 60,
{
}


proof fn lemma_digits_parse_nonneg(s: Seq<char>)
    ensures
        spec_parse_digits(s) matches Ok(v) ==> v >= 0,
{
    if all_digits(s) {
        lemma_decimal_value_bounds(s);
    }
}

/// The hours and minutes that a numeric offset reads are never negative.
proof fn lemma_numeric_fields_nonneg(rest: Seq<char>)
    ensures
        numeric_fields(rest) matches Ok((h, m)) ==> h >= 0 && m >= 0,
{
    let k = first_index(rest, colon_pred());
    if k < rest.len() {
        lemma_digits_parse_nonneg(rest.take(k));
        lemma_digits_parse_nonneg(rest.skip(k + 1));
    } else if all_digits(rest) {
        lemma_decimal_value_bounds(rest);
        if 1 <= rest.len() <= 4 {
            let c: int = if rest.len() == 4 {
                2
            } else {
                1
            };
            assert forall|i: int| 0 <= i < rest.take(c).len() implies is_ascii_digit(
                #[trigger] rest.take(c)[i],
            ) by {
                assert(rest.take(c)[i] == rest[i]);
            }
            assert forall|i: int| 0 <= i < rest.skip(c).len() implies is_ascii_digit(
                #[trigger] rest.skip(c)[i],
            ) by {
                assert(rest.skip(c)[i] == rest[i + c]);
            }
            lemma_decimal_value_bounds(rest.take(c));
            lemma_decimal_value_bounds(rest.skip(c));
        }
    }
}

/// A numeric offset reads the same with either sign, up to the sign of the
/// result: west of UTC it is accepted only if east of UTC it is too (the
/// range is wider to the east), and every error other than `OutOfRange` is
/// the same for both signs.
pub proof fn lemma_sign_symmetry(r: Seq<char>)
    ensures
        spec_parse_numeric(seq!['-'] + r) matches Ok(o) ==> spec_parse_numeric(seq!['+'] + r)
            == Ok::<int, OffsetError>(-o),
        forall|e: OffsetError|
            e != OffsetError::OutOfRange ==> (spec_parse_numeric(seq!['-'] + r) == Err::<
                int,
                OffsetError,
            >(e) <==> spec_parse_numeric(seq!['+'] + r) == Err::<int, OffsetError>(e)),
{
    assert((seq!['-'] + r).drop_first() =~= r);
    assert((seq!['+'] + r).drop_first() =~= r);
    assert((seq!['-'] + r)[0] == '-');
    assert((seq!['+'] + r)[0] == '+');
    lemma_numeric_fields_nonneg(r);
}

/// The errors of the numeric reader are never `Empty`.
proof fn lemma_numeric_never_empty(s: Seq<char>)
    ensures
        spec_parse_numeric(s) != Err::<int, OffsetError>(OffsetError::Empty),
{
}

/// `normalize` and `extract_offset` refuse with `Empty` exactly the texts
/// that are blank once trimmed, and `extract_offset` refuses any other text
/// only as unrecognized.
pub proof fn lemma_empty_exactly_on_blank(s: Seq<char>)
    ensures
        (spec_normalize(s) == Err::<int, OffsetError>(OffsetError::Empty)) <==> trim(s).len()
            == 0,
        (spec_extract_offset(s) == Err::<int, OffsetError>(OffsetError::Empty)) <==> trim(
            s,
        ).len() == 0,
        spec_extract_offset(s) matches Err(e) ==> e == OffsetError::Empty || e
            == OffsetError::UnrecognizedFormat,
{
    let u = ascii_upper(trim(s));
    lemma_numeric_never_empty(u);
    if u.len() >= 3 {
        lemma_numeric_never_empty(u.skip(3));
    }
}


proof fn lemma_trim_end_keeps_first(s: Seq<char>)
    requires
        s.len() > 0,
        !is_whitespace(s[0]),
    ensures
        trim_end(s).len() > 0,
        trim_end(s)[0] == s[0],
    decreases s.len(),
{
    if is_whitespace(s.last()) {
        assert(s.len() > 1);
        assert(s.drop_last()[0] == s[0]);
        lemma_trim_end_keeps_first(s.drop_last());
    }
}

proof fn lemma_trim_end_prepend(x: Seq<char>, y: Seq<char>)
    requires
        trim_end(y).len() > 0,
    ensures
        trim_end(x + y) == x + trim_end(y),
    decreases y.len(),
{
    assert((x + y).last() == y.last());
    if is_whitespace(y.last()) {
        assert((x + y).drop_last() =~= x + y.drop_last());
        lemma_trim_end_prepend(x, y.drop_last());
    }
}

/// `UTC` or `GMT`, in any ASCII case, in front of a signed offset changes
/// nothing: `normalize` reads the offset after it as it reads the offset
/// alone.
pub proof fn lemma_utc_gmt_prefix_is_neutral(pfx: Seq<char>, n: Seq<char>)
    requires
        ascii_upper(pfx) == seq!['U', 'T', 'C'] || ascii_upper(pfx) == seq!['G', 'M', 'T'],
        n.len() > 0,
        n[0] == '+' || n[0] == '-',
    ensures
        spec_normalize(pfx + n) == spec_normalize(n),
{
    let up = ascii_upper(pfx);
    assert(up.len() == pfx.len());
    assert(seq!['U', 'T', 'C'].len() == 3 && seq!['G', 'M', 'T'].len() == 3);
    assert(pfx.len() == 3);
    assert forall|i: int| 0 <= i < 3 implies !is_whitespace(#[trigger] pfx[i]) by {
        assert(up[i] == upper_char(pfx[i]));
    }
    // Trimming keeps the prefix and the sign.
    assert(trim_start(n) == n);
    lemma_trim_end_keeps_first(n);
    let tn = trim(n);
    assert((pfx + n)[0] == pfx[0]);
    assert(trim_start(pfx + n) == pfx + n);
    lemma_trim_end_prepend(pfx, n);
    assert(trim(pfx + n) == pfx + tn);
    let u = ascii_upper(tn);
    assert(ascii_upper(pfx + tn) =~= up + u);
    assert((up + u).take(3) =~= up);
    assert((up + u).skip(3) =~= u);
    assert(u[0] == upper_char(tn[0]));
    assert((up + u)[3] == u[0]);
    // The offset alone is read as a numeric offset.
    assert(!utc_or_gmt_prefix(u)) by {
        if u.len() >= 3 {
            assert(u.take(3)[0] == u[0]);
        }
    }
    lemma_zone_names_are_letters(u);
}


proof fn lemma_trim_without_whitespace(s: Seq<char>)
    requires
        forall|i: int| 0 <= i < s.len() ==> !is_whitespace(#[trigger] s[i]),
    ensures
        trim(s) == s,
{
    if s.len() > 0 {
        assert(!is_whitespace(s[0]));
        assert(!is_whitespace(s[s.len() - 1]));
    }
    assert(trim_start(s) == s);
    assert(trim_end(s) == s);
}

proof fn lemma_upper_without_lower_case(s: Seq<char>)
    requires
        forall|i: int| 0 <= i < s.len() ==> upper_char(#[trigger] s[i]) == s[i],
    ensures
        ascii_upper(s) == s,
{
    assert(ascii_upper(s) =~= s);
}

/// Characters of a written date and time: digits, `-`, `:`, `.` and `T`.
pub open spec fn is_datetime_char(c: char) -> bool {
    is_ascii_digit(c) || c == '-' || c == ':' || c == '.' || c == 'T'
}

/// A signed offset made of a sign, then digits and colons.
pub open spec fn is_signed_digits(n: Seq<char>) -> bool {
    &&& n.len() > 0
    &&& (n[0] == '+' || n[0] == '-')
    &&& forall|i: int| 1 <= i < n.len() ==> is_ascii_digit(#[trigger] n[i]) || n[i] == ':'
}

/// A signed offset made of digits and colons reads, through `normalize`, as
/// a numeric offset.
proof fn lemma_signed_digits_normalize(n: Seq<char>)
    requires
        is_signed_digits(n),
    ensures
        trim(n) == n,
        ascii_upper(n) == n,
        spec_normalize(n) == spec_parse_numeric(n),
{
    assert forall|i: int| 0 <= i < n.len() implies !is_whitespace(#[trigger] n[i]) && upper_char(
        n[i],
    ) == n[i] by {
        if i > 0 {
            assert(is_ascii_digit(n[i]) || n[i] == ':');
        }
    }
    lemma_trim_without_whitespace(n);
    lemma_upper_without_lower_case(n);
    assert(!utc_or_gmt_prefix(n)) by {
        if n.len() >= 3 {
            assert(n.take(3)[0] == n[0]);
        }
    }
    lemma_zone_names_are_letters(n);
}

/// The date and time in front of a signed offset are not read:
/// `extract_offset` on a date-and-time text glued to a signed offset gives
/// what `normalize` gives on the offset alone, with any error turned into
/// `UnrecognizedFormat` (the date and time may be nonsense, such as
/// `9999-99-99T99:99:99`).
pub proof fn lemma_extract_skips_datetime(d: Seq<char>, n: Seq<char>)
    requires
        d.len() > 0,
        is_ascii_digit(d[0]),
        forall|i: int| 0 <= i < d.len() ==> is_datetime_char(#[trigger] d[i]),
        is_signed_digits(n),
    ensures
        spec_extract_offset(d + n) == match spec_normalize(n) {
            Ok(m) => Ok::<int, OffsetError>(m),
            Err(_) => Err(OffsetError::UnrecognizedFormat),
        },
{
    let t = d + n;
    let k = d.len() as int;
    assert forall|i: int| 0 <= i < t.len() implies !is_whitespace(#[trigger] t[i]) && upper_char(
        t[i],
    ) == t[i] && (i > k ==> !sign_pred()(t[i])) && !whitespace_pred()(t[i]) by {
        if i < k {
            assert(t[i] == d[i]);
            assert(is_datetime_char(d[i]));
        } else {
            assert(t[i] == n[i - k]);
            if i > k {
                assert(is_ascii_digit(n[i - k]) || n[i - k] == ':');
            }
        }
    }
    lemma_trim_without_whitespace(t);
    lemma_upper_without_lower_case(t);
    // The whole text is no offset: it starts with a digit.
    assert(t[0] == d[0]);
    assert(!utc_or_gmt_prefix(t)) by {
        if t.len() >= 3 {
            assert(t.take(3)[0] == t[0]);
        }
    }
    lemma_zone_names_are_letters(t);
    assert(spec_normalize(t) is Err);
    // No `Z` at the end, and no whitespace.
    assert(t.last() == n.last());
    if n.len() > 1 {
        assert(is_ascii_digit(n[n.len() - 1]) || n[n.len() - 1] == ':');
    }
    assert(!ends_in_zulu(t));
    lemma_last_index(t, whitespace_pred(), -1);
    // The last sign is the one of the offset.
    assert(t[k] == n[0]);
    lemma_last_index(t, sign_pred(), k);
    assert(t.skip(k) =~= n);
    lemma_signed_digits_normalize(n);
}


/// What an accepted offset text looks like once trimmed and upper-cased: no
/// whitespace, and either letters only or a digit at the end.
pub open spec fn offset_shaped(u: Seq<char>) -> bool {
    &&& forall|i: int| 0 <= i < u.len() ==> !is_whitespace(#[trigger] u[i])
    &&& (is_ascii_digit(u.last()) || forall|i: int| 0 <= i < u.len() ==> is_upper_letter(
        #[trigger] u[i],
    ))
}

proof fn lemma_numeric_is_offset_shaped(s: Seq<char>)
    requires
        spec_parse_numeric(s) is Ok,
    ensures
        s.len() > 0,
        forall|i: int| 0 <= i < s.len() ==> !is_whitespace(#[trigger] s[i]),
        is_ascii_digit(s.last()),
{
    let rest = s.drop_first();
    let k = first_index(rest, colon_pred());
    lemma_first_index_bounds(rest, colon_pred());
    if k < rest.len() {
        let h = rest.take(k);
        let m = rest.skip(k + 1);
        assert forall|i: int| 0 <= i < s.len() implies !is_whitespace(#[trigger] s[i]) by {
            if i > 0 {
                if i - 1 < k {
                    assert(h[i - 1] == s[i]);
                    assert(is_ascii_digit(h[i - 1]));
                } else if i - 1 == k {
                    assert(colon_pred()(rest[k]));
                } else {
                    assert(m[i - 2 - k] == s[i]);
                    assert(is_ascii_digit(m[i - 2 - k]));
                }
            }
        }
        assert(m[m.len() - 1] == s.last());
        assert(is_ascii_digit(m[m.len() - 1]));
    } else {
        assert forall|i: int| 0 <= i < s.len() implies !is_whitespace(#[trigger] s[i]) by {
            if i > 0 {
                assert(rest[i - 1] == s[i]);
                assert(is_ascii_digit(rest[i - 1]));
            }
        }
        assert(rest[rest.len() - 1] == s.last());
        assert(is_ascii_digit(rest[rest.len() - 1]));
    }
}

proof fn lemma_first_index_bounds(s: Seq<char>, p: spec_fn(char) -> bool)
    ensures
        0 <= first_index(s, p) <= s.len(),
        first_index(s, p) < s.len() ==> p(s[first_index(s, p)]),
    decreases s.len(),
{
    if s.len() > 0 && !p(s[0]) {
        lemma_first_index_bounds(s.drop_first(), p);
        let k = first_index(s.drop_first(), p);
        if k < s.drop_first().len() {
            assert(s.drop_first()[k] == s[k + 1]);
        }
    }
}

/// Every text that `normalize` accepts is offset-shaped once trimmed and
/// upper-cased.
proof fn lemma_normalized_text_is_offset_shaped(x: Seq<char>)
    requires
        spec_normalize(x) is Ok,
    ensures
        trim(x).len() > 0,
        offset_shaped(ascii_upper(trim(x))),
{
    let u = ascii_upper(trim(x));
    lemma_zone_names_are_letters(u);
    if utc_or_gmt_prefix(u) && u.len() == 3 {
        assert(u.take(3) =~= u);
    } else if utc_or_gmt_prefix(u) && (u[3] == '+' || u[3] == '-') {
        let tail = u.skip(3);
        lemma_numeric_is_offset_shaped(tail);
        assert forall|i: int| 0 <= i < u.len() implies !is_whitespace(#[trigger] u[i]) by {
            if i < 3 {
                assert(u.take(3)[i] == u[i]);
            } else {
                assert(tail[i - 3] == u[i]);
            }
        }
        assert(tail.last() == u.last());
    } else if named_zone(u) is None {
        lemma_numeric_is_offset_shaped(u);
    }
}

proof fn lemma_trim_start_concat(a: Seq<char>, b: Seq<char>)
    ensures
        trim_start(a).len() > 0 ==> trim_start(a + b) == trim_start(a) + b,
        trim_start(a).len() == 0 ==> trim_start(a + b) == trim_start(b),
    decreases a.len(),
{
    if a.len() == 0 {
        assert(a + b =~= b);
    } else {
        assert((a + b)[0] == a[0]);
        if is_whitespace(a[0]) {
            assert((a + b).drop_first() =~= a.drop_first() + b);
            lemma_trim_start_concat(a.drop_first(), b);
        }
    }
}

proof fn lemma_trim_start_is_suffix(a: Seq<char>)
    ensures
        trim_start(a).len() <= a.len(),
        trim_start(a) == a.skip(a.len() - trim_start(a).len()),
    decreases a.len(),
{
    if a.len() > 0 && is_whitespace(a[0]) {
        lemma_trim_start_is_suffix(a.drop_first());
        assert(a.drop_first().skip(a.len() - 1 - trim_start(a).len()) =~= a.skip(
            a.len() - trim_start(a).len(),
        ));
    } else {
        assert(a.skip(0) =~= a);
    }
}

/// Only the last whitespace-separated token of a text decides, when it is
/// an offset: whatever stands before it, and whichever whitespace character
/// `w` separates them, `extract_offset` gives what `normalize` gives on that
/// token.
pub proof fn lemma_extract_reads_token_after_whitespace(p: Seq<char>, w: char, z: Seq<char>)
    requires
        is_whitespace(w),
        forall|i: int| 0 <= i < z.len() ==> !is_whitespace(#[trigger] z[i]),
        spec_normalize(z) is Ok,
    ensures
        spec_extract_offset(p + seq![w] + z) == spec_normalize(z),
{
    lemma_trim_without_whitespace(z);
    lemma_normalized_text_is_offset_shaped(z);
    let uz = ascii_upper(z);
    let a = p + seq![w];
    let x = p + seq![w] + z;
    assert(x =~= a + z);
    lemma_trim_start_concat(a, z);
    assert(trim_start(z) == z);
    let q = trim_start(a);
    let t = trim(x);
    assert(z.last() == z[z.len() - 1]);
    if q.len() == 0 {
        assert(trim_start(x) == z);
        assert(t == z);
    } else {
        assert(trim_start(x) == q + z);
        assert((q + z).last() == z.last());
        assert(trim_end(q + z) == q + z);
        assert(t == q + z);
        lemma_trim_start_is_suffix(a);
        lemma_trim_start_no_leading(a);
        let i = q.len() - 1;
        assert(q[i] == a[a.len() - 1]);
        assert(t[i] == w);
        lemma_upper_keeps_whitespace(w);
        // The whole text holds whitespace inside, so it is not an offset.
        assert(t[0] == q[0]);
        assert(trim_start(t) == t);
        assert(trim_end(t) == t);
        assert(trim(t) == t);
        if spec_normalize(t) is Ok {
            lemma_normalized_text_is_offset_shaped(t);
            assert(ascii_upper(t)[i] == upper_char(t[i]));
            assert(false);
        }
        // It does not end in a `Z` after a digit.
        if z.len() >= 2 && (z.last() == 'Z' || z.last() == 'z') {
            lemma_upper_keeps_whitespace(z.last());
            assert(uz.last() == upper_char(z.last()));
            assert(is_upper_letter(uz[uz.len() - 2]));
            assert(uz[uz.len() - 2] == upper_char(z[z.len() - 2]));
            lemma_upper_keeps_whitespace(z[z.len() - 2]);
        }
        assert(t[t.len() - 2] == if z.len() >= 2 {
            z[z.len() - 2]
        } else {
            w
        });
        assert(!ends_in_zulu(t));
        // The last whitespace is the one before the token.
        assert forall|j: int| i < j < t.len() implies !whitespace_pred()(#[trigger] t[j]) by {
            assert(t[j] == z[j - q.len()]);
        }
        lemma_last_index(t, whitespace_pred(), i);
        assert(t.skip(i + 1) =~= z);
    }
}

/// Only the last whitespace-separated token of a text decides, when it is
/// an offset: `extract_offset` on a text, a space and an offset token gives
/// what `normalize` gives on the token.
pub proof fn lemma_extract_reads_last_token(p: Seq<char>, z: Seq<char>)
    requires
        forall|i: int| 0 <= i < z.len() ==> !is_whitespace(#[trigger] z[i]),
        spec_normalize(z) is Ok,
    ensures
        spec_extract_offset(p + seq![' '] + z) == spec_normalize(z),
{
    lemma_extract_reads_token_after_whitespace(p, ' ', z);
}


/// Whitespace is exactly Unicode `White_Space`, listed character by
/// character: tab, line feed, vertical tab, form feed, carriage return,
/// space, next line, no-break space, ogham space mark, the spaces
/// U+2000..=U+200A, line and paragraph separators, narrow no-break space,
/// medium mathematical space and ideographic space.
pub proof fn lemma_whitespace_is_unicode_white_space(c: char)
    ensures
        is_whitespace(c) <==> (c == '\u{9}'
            || c == '\u{a}'
            || c == '\u{b}'
            || c == '\u{c}'
            || c == '\u{d}'
            || c == ' '
            || c == '\u{85}'
            || c == '\u{a0}'
            || c == '\u{1680}'
            || c == '\u{2000}'
            || c == '\u{2001}'
            || c == '\u{2002}'
            || c == '\u{2003}'
            || c == '\u{2004}'
            || c == '\u{2005}'
            || c == '\u{2006}'
            || c == '\u{2007}'
            || c == '\u{2008}'
            || c == '\u{2009}'
            || c == '\u{200a}'
            || c == '\u{2028}'
            || c == '\u{2029}'
            || c == '\u{202f}'
            || c == '\u{205f}'
            || c == '\u{3000}'),
{
}

/// Line endings are whitespace: a text with its `\n` or `\r\n` ending
/// trims, normalizes and has its offset extracted as the text without it.
pub proof fn lemma_line_endings_are_trimmed(s: Seq<char>)
    ensures
        trim(s + seq!['\r', '\n']) == trim(s),
        trim(s + seq!['\n']) == trim(s),
        spec_normalize(s + seq!['\r', '\n']) == spec_normalize(s),
        spec_normalize(s + seq!['\n']) == spec_normalize(s),
        spec_extract_offset(s + seq!['\r', '\n']) == spec_extract_offset(s),
        spec_extract_offset(s + seq!['\n']) == spec_extract_offset(s),
{
    lemma_whitespace_is_unicode_white_space('\r');
    lemma_whitespace_is_unicode_white_space('\n');
    lemma_trim_ignores_trailing_whitespace(s, seq!['\r', '\n']);
    lemma_trim_ignores_trailing_whitespace(s, seq!['\n']);
}

proof fn lemma_trim_ignores_trailing_whitespace(s: Seq<char>, q: Seq<char>)
    requires
        all_whitespace(q),
    ensures
        trim(s + q) == trim(s),
{
    lemma_trim_start_append(s, q);
    if trim_start(s).len() > 0 {
        lemma_trim_end_skips_whitespace(trim_start(s), q);
    }
}

/// ASCII upper-casing maps each of `a..=z` to the letter of `A..=Z` in the
/// same place, and leaves every other character as it is.
pub proof fn lemma_upper_case_is_ascii(c: char)
    ensures
        upper_char('a') == 'A',
        upper_char('b') == 'B',
        upper_char('c') == 'C',
        upper_char('d') == 'D',
        upper_char('e') == 'E',
        upper_char('f') == 'F',
        upper_char('g') == 'G',
        upper_char('h') == 'H',
        upper_char('i') == 'I',
        upper_char('j') == 'J',
        upper_char('k') == 'K',
        upper_char('l') == 'L',
        upper_char('m') == 'M',
        upper_char('n') == 'N',
        upper_char('o') == 'O',
        upper_char('p') == 'P',
        upper_char('q') == 'Q',
        upper_char('r') == 'R',
        upper_char('s') == 'S',
        upper_char('t') == 'T',
        upper_char('u') == 'U',
        upper_char('v') == 'V',
        upper_char('w') == 'W',
        upper_char('x') == 'X',
        upper_char('y') == 'Y',
        upper_char('z') == 'Z',
        !('a' <= c && c <= 'z') ==> upper_char(c) == c,
{
}

proof fn lemma_zone_row(name: Seq<char>, lower: Seq<char>, m: int)
    requires
        named_zone(name) == Some(m),
        ascii_upper(lower) == name,
        forall|i: int| 0 <= i < lower.len() ==> 'a' <= #[trigger] lower[i] && lower[i] <= 'z',
        in_range(m),
        utc_or_gmt_prefix(name) ==> name.len() == 3 && m == 0,
    ensures
        spec_normalize(name) == Ok::<int, OffsetError>(m),
        spec_normalize(lower) == Ok::<int, OffsetError>(m),
{
    lemma_zone_names_are_letters(name);
    assert forall|i: int| 0 <= i < name.len() implies !is_whitespace(#[trigger] name[i])
        && upper_char(name[i]) == name[i] by {
        assert(is_upper_letter(name[i]));
    }
    lemma_trim_without_whitespace(name);
    lemma_upper_without_lower_case(name);
    assert(lower.len() == name.len());
    assert forall|i: int| 0 <= i < lower.len() implies !is_whitespace(#[trigger] lower[i]) by {
        assert('a' <= lower[i] && lower[i] <= 'z');
    }
    lemma_trim_without_whitespace(lower);
    if utc_or_gmt_prefix(name) {
        assert(name.take(3) =~= name);
    }
}

#[verifier::rlimit(40)]
proof fn lemma_zone_rows_1()
    ensures
        spec_normalize(seq!['U', 'T', 'C']) == Ok::<int, OffsetError>(0),
        spec_normalize(seq!['u', 't', 'c']) == Ok::<int, OffsetError>(0),
        spec_normalize(seq!['G', 'M', 'T']) == Ok::<int, OffsetError>(0),
        spec_normalize(seq!['g', 'm', 't']) == Ok::<int, OffsetError>(0),
{
    assert(ascii_upper(seq!['u', 't', 'c']) =~= seq!['U', 'T', 'C']);
    lemma_zone_row(seq!['U', 'T', 'C'], seq!['u', 't', 'c'], 0);
    assert(ascii_upper(seq!['g', 'm', 't']) =~= seq!['G', 'M', 'T']);
    lemma_zone_row(seq!['G', 'M', 'T'], seq!['g', 'm', 't'], 0);
}

#[verifier::rlimit(40)]
proof fn lemma_zone_rows_2()
    ensures
        spec_normalize(seq!['Z']) == Ok::<int, OffsetError>(0),
        spec_normalize(seq!['z']) == Ok::<int, OffsetError>(0),
        spec_normalize(seq!['E', 'S', 'T']) == Ok::<int, OffsetError>(-300),
        spec_normalize(seq!['e', 's', 't']) == Ok::<int, OffsetError>(-300),
{
    assert(ascii_upper(seq!['z']) =~= seq!['Z']);
    lemma_zone_row(seq!['Z'], seq!['z'], 0);
    assert(ascii_upper(seq!['e', 's', 't']) =~= seq!['E', 'S', 'T']);
    lemma_zone_row(seq!['E', 'S', 'T'], seq!['e', 's', 't'], -300);
}

#[verifier::rlimit(40)]
proof fn lemma_zone_rows_3()
    ensures
        spec_normalize(seq!['E', 'D', 'T']) == Ok::<int, OffsetError>(-240),
        spec_normalize(seq!['e', 'd', 't']) == Ok::<int, OffsetError>(-240),
        spec_normalize(seq!['C', 'S', 'T']) == Ok::<int, OffsetError>(-360),
        spec_normalize(seq!['c', 's', 't']) == Ok::<int, OffsetError>(-360),
{
    assert(ascii_upper(seq!['e', 'd', 't']) =~= seq!['E', 'D', 'T']);
    lemma_zone_row(seq!['E', 'D', 'T'], seq!['e', 'd', 't'], -240);
    assert(ascii_upper(seq!['c', 's', 't']) =~= seq!['C', 'S', 'T']);
    lemma_zone_row(seq!['C', 'S', 'T'], seq!['c', 's', 't'], -360);
}

#[verifier::rlimit(40)]
proof fn lemma_zone_rows_4()
    ensures
        spec_normalize(seq!['C', 'D', 'T']) == Ok::<int, OffsetError>(-300),
        spec_normalize(seq!['c', 'd', 't']) == Ok::<int, OffsetError>(-300),
        spec_normalize(seq!['M', 'S', 'T']) == Ok::<int, OffsetError>(-420),
        spec_normalize(seq!['m', 's', 't']) == Ok::<int, OffsetError>(-420),
{
    assert(ascii_upper(seq!['c', 'd', 't']) =~= seq!['C', 'D', 'T']);
    lemma_zone_row(seq!['C', 'D', 'T'], seq!['c', 'd', 't'], -300);
    assert(ascii_upper(seq!['m', 's', 't']) =~= seq!['M', 'S', 'T']);
    lemma_zone_row(seq!['M', 'S', 'T'], seq!['m', 's', 't'], -420);
}

#[verifier::rlimit(40)]
proof fn lemma_zone_rows_5()
    ensures
        spec_normalize(seq!['M', 'D', 'T']) == Ok::<int, OffsetError>(-360),
        spec_normalize(seq!['m', 'd', 't']) == Ok::<int, OffsetError>(-360),
        spec_normalize(seq!['P', 'S', 'T']) == Ok::<int, OffsetError>(-480),
        spec_normalize(seq!['p', 's', 't']) == Ok::<int, OffsetError>(-480),
{
    assert(ascii_upper(seq!['m', 'd', 't']) =~= seq!['M', 'D', 'T']);
    lemma_zone_row(seq!['M', 'D', 'T'], seq!['m', 'd', 't'], -360);
    assert(ascii_upper(seq!['p', 's', 't']) =~= seq!['P', 'S', 'T']);
    lemma_zone_row(seq!['P', 'S', 'T'], seq!['p', 's', 't'], -480);
}

#[verifier::rlimit(40)]
proof fn lemma_zone_rows_6()
    ensures
        spec_normalize(seq!['P', 'D', 'T']) == Ok::<int, OffsetError>(-420),
        spec_normalize(seq!['p', 'd', 't']) == Ok::<int, OffsetError>(-420),
        spec_normalize(seq!['I', 'S', 'T']) == Ok::<int, OffsetError>(330),
        spec_normalize(seq!['i', 's', 't']) == Ok::<int, OffsetError>(330),
{
    assert(ascii_upper(seq!['p', 'd', 't']) =~= seq!['P', 'D', 'T']);
    lemma_zone_row(seq!['P', 'D', 'T'], seq!['p', 'd', 't'], -420);
    assert(ascii_upper(seq!['i', 's', 't']) =~= seq!['I', 'S', 'T']);
    lemma_zone_row(seq!['I', 'S', 'T'], seq!['i', 's', 't'], 330);
}

#[verifier::rlimit(40)]
proof fn lemma_zone_rows_7()
    ensures
        spec_normalize(seq!['J', 'S', 'T']) == Ok::<int, OffsetError>(540),
        spec_normalize(seq!['j', 's', 't']) == Ok::<int, OffsetError>(540),
        spec_normalize(seq!['C', 'E', 'T']) == Ok::<int, OffsetError>(60),
        spec_normalize(seq!['c', 'e', 't']) == Ok::<int, OffsetError>(60),
{
    assert(ascii_upper(seq!['j', 's', 't']) =~= seq!['J', 'S', 'T']);
    lemma_zone_row(seq!['J', 'S', 'T'], seq!['j', 's', 't'], 540);
    assert(ascii_upper(seq!['c', 'e', 't']) =~= seq!['C', 'E', 'T']);
    lemma_zone_row(seq!['C', 'E', 'T'], seq!['c', 'e', 't'], 60);
}

#[verifier::rlimit(40)]
proof fn lemma_zone_rows_8()
    ensures
        spec_normalize(seq!['C', 'E', 'S', 'T']) == Ok::<int, OffsetError>(120),
        spec_normalize(seq!['c', 'e', 's', 't']) == Ok::<int, OffsetError>(120),
        spec_normalize(seq!['W', 'E', 'T']) == Ok::<int, OffsetError>(0),
        spec_normalize(seq!['w', 'e', 't']) == Ok::<int, OffsetError>(0),
{
    assert(ascii_upper(seq!['c', 'e', 's', 't']) =~= seq!['C', 'E', 'S', 'T']);
    lemma_zone_row(seq!['C', 'E', 'S', 'T'], seq!['c', 'e', 's', 't'], 120);
    assert(ascii_upper(seq!['w', 'e', 't']) =~= seq!['W', 'E', 'T']);
    lemma_zone_row(seq!['W', 'E', 'T'], seq!['w', 'e', 't'], 0);
}

#[verifier::rlimit(40)]
proof fn lemma_zone_rows_9()
    ensures
        spec_normalize(seq!['W', 'E', 'S', 'T']) == Ok::<int, OffsetError>(60),
        spec_normalize(seq!['w', 'e', 's', 't']) == Ok::<int, OffsetError>(60),
        spec_normalize(seq!['E', 'E', 'T']) == Ok::<int, OffsetError>(120),
        spec_normalize(seq!['e', 'e', 't']) == Ok::<int, OffsetError>(120),
{
    assert(ascii_upper(seq!['w', 'e', 's', 't']) =~= seq!['W', 'E', 'S', 'T']);
    lemma_zone_row(seq!['W', 'E', 'S', 'T'], seq!['w', 'e', 's', 't'], 60);
    assert(ascii_upper(seq!['e', 'e', 't']) =~= seq!['E', 'E', 'T']);
    lemma_zone_row(seq!['E', 'E', 'T'], seq!['e', 'e', 't'], 120);
}

#[verifier::rlimit(40)]
proof fn lemma_zone_rows_10()
    ensures
        spec_normalize(seq!['E', 'E', 'S', 'T']) == Ok::<int, OffsetError>(180),
        spec_normalize(seq!['e', 'e', 's', 't']) == Ok::<int, OffsetError>(180),
        spec_normalize(seq!['M', 'S', 'K']) == Ok::<int, OffsetError>(180),
        spec_normalize(seq!['m', 's', 'k']) == Ok::<int, OffsetError>(180),
{
    assert(ascii_upper(seq!['e', 'e', 's', 't']) =~= seq!['E', 'E', 'S', 'T']);
    lemma_zone_row(seq!['E', 'E', 'S', 'T'], seq!['e', 'e', 's', 't'], 180);
    assert(ascii_upper(seq!['m', 's', 'k']) =~= seq!['M', 'S', 'K']);
    lemma_zone_row(seq!['M', 'S', 'K'], seq!['m', 's', 'k'], 180);
}

#[verifier::rlimit(40)]
proof fn lemma_zone_rows_11()
    ensures
        spec_normalize(seq!['B', 'S', 'T']) == Ok::<int, OffsetError>(60),
        spec_normalize(seq!['b', 's', 't']) == Ok::<int, OffsetError>(60),
        spec_normalize(seq!['A', 'S', 'T']) == Ok::<int, OffsetError>(-240),
        spec_normalize(seq!['a', 's', 't']) == Ok::<int, OffsetError>(-240),
{
    assert(ascii_upper(seq!['b', 's', 't']) =~= seq!['B', 'S', 'T']);
    lemma_zone_row(seq!['B', 'S', 'T'], seq!['b', 's', 't'], 60);
    assert(ascii_upper(seq!['a', 's', 't']) =~= seq!['A', 'S', 'T']);
    lemma_zone_row(seq!['A', 'S', 'T'], seq!['a', 's', 't'], -240);
}

#[verifier::rlimit(40)]
proof fn lemma_zone_rows_12()
    ensures
        spec_normalize(seq!['A', 'D', 'T']) == Ok::<int, OffsetError>(-180),
        spec_normalize(seq!['a', 'd', 't']) == Ok::<int, OffsetError>(-180),
        spec_normalize(seq!['H', 'S', 'T']) == Ok::<int, OffsetError>(-600),
        spec_normalize(seq!['h', 's', 't']) == Ok::<int, OffsetError>(-600),
{
    assert(ascii_upper(seq!['a', 'd', 't']) =~= seq!['A', 'D', 'T']);
    lemma_zone_row(seq!['A', 'D', 'T'], seq!['a', 'd', 't'], -180);
    assert(ascii_upper(seq!['h', 's', 't']) =~= seq!['H', 'S', 'T']);
    lemma_zone_row(seq!['H', 'S', 'T'], seq!['h', 's', 't'], -600);
}

#[verifier::rlimit(40)]
proof fn lemma_zone_rows_13()
    ensures
        spec_normalize(seq!['A', 'K', 'S', 'T']) == Ok::<int, OffsetError>(-540),
        spec_normalize(seq!['a', 'k', 's', 't']) == Ok::<int, OffsetError>(-540),
        spec_normalize(seq!['A', 'K', 'D', 'T']) == Ok::<int, OffsetError>(-480),
        spec_normalize(seq!['a', 'k', 'd', 't']) == Ok::<int, OffsetError>(-480),
{
    assert(ascii_upper(seq!['a', 'k', 's', 't']) =~= seq!['A', 'K', 'S', 'T']);
    lemma_zone_row(seq!['A', 'K', 'S', 'T'], seq!['a', 'k', 's', 't'], -540);
    assert(ascii_upper(seq!['a', 'k', 'd', 't']) =~= seq!['A', 'K', 'D', 'T']);
    lemma_zone_row(seq!['A', 'K', 'D', 'T'], seq!['a', 'k', 'd', 't'], -480);
}

#[verifier::rlimit(40)]
proof fn lemma_zone_rows_14()
    ensures
        spec_normalize(seq!['S', 'G', 'T']) == Ok::<int, OffsetError>(480),
        spec_normalize(seq!['s', 'g', 't']) == Ok::<int, OffsetError>(480),
        spec_normalize(seq!['H', 'K', 'T']) == Ok::<int, OffsetError>(480),
        spec_normalize(seq!['h', 'k', 't']) == Ok::<int, OffsetError>(480),
{
    assert(ascii_upper(seq!['s', 'g', 't']) =~= seq!['S', 'G', 'T']);
    lemma_zone_row(seq!['S', 'G', 'T'], seq!['s', 'g', 't'], 480);
    assert(ascii_upper(seq!['h', 'k', 't']) =~= seq!['H', 'K', 'T']);
    lemma_zone_row(seq!['H', 'K', 'T'], seq!['h', 'k', 't'], 480);
}

#[verifier::rlimit(40)]
proof fn lemma_zone_rows_15()
    ensures
        spec_normalize(seq!['K', 'S', 'T']) == Ok::<int, OffsetError>(540),
        spec_normalize(seq!['k', 's', 't']) == Ok::<int, OffsetError>(540),
        spec_normalize(seq!['A', 'E', 'S', 'T']) == Ok::<int, OffsetError>(600),
        spec_normalize(seq!['a', 'e', 's', 't']) == Ok::<int, OffsetError>(600),
{
    assert(ascii_upper(seq!['k', 's', 't']) =~= seq!['K', 'S', 'T']);
    lemma_zone_row(seq!['K', 'S', 'T'], seq!['k', 's', 't'], 540);
    assert(ascii_upper(seq!['a', 'e', 's', 't']) =~= seq!['A', 'E', 'S', 'T']);
    lemma_zone_row(seq!['A', 'E', 'S', 'T'], seq!['a', 'e', 's', 't'], 600);
}

#[verifier::rlimit(40)]
proof fn lemma_zone_rows_16()
    ensures
        spec_normalize(seq!['A', 'E', 'D', 'T']) == Ok::<int, OffsetError>(660),
        spec_normalize(seq!['a', 'e', 'd', 't']) == Ok::<int, OffsetError>(660),
        spec_normalize(seq!['A', 'C', 'S', 'T']) == Ok::<int, OffsetError>(570),
        spec_normalize(seq!['a', 'c', 's', 't']) == Ok::<int, OffsetError>(570),
{
    assert(ascii_upper(seq!['a', 'e', 'd', 't']) =~= seq!['A', 'E', 'D', 'T']);
    lemma_zone_row(seq!['A', 'E', 'D', 'T'], seq!['a', 'e', 'd', 't'], 660);
    assert(ascii_upper(seq!['a', 'c', 's', 't']) =~= seq!['A', 'C', 'S', 'T']);
    lemma_zone_row(seq!['A', 'C', 'S', 'T'], seq!['a', 'c', 's', 't'], 570);
}

#[verifier::rlimit(40)]
proof fn lemma_zone_rows_17()
    ensures
        spec_normalize(seq!['A', 'C', 'D', 'T']) == Ok::<int, OffsetError>(630),
        spec_normalize(seq!['a', 'c', 'd', 't']) == Ok::<int, OffsetError>(630),
        spec_normalize(seq!['A', 'W', 'S', 'T']) == Ok::<int, OffsetError>(480),
        spec_normalize(seq!['a', 'w', 's', 't']) == Ok::<int, OffsetError>(480),
{
    assert(ascii_upper(seq!['a', 'c', 'd', 't']) =~= seq!['A', 'C', 'D', 'T']);
    lemma_zone_row(seq!['A', 'C', 'D', 'T'], seq!['a', 'c', 'd', 't'], 630);
    assert(ascii_upper(seq!['a', 'w', 's', 't']) =~= seq!['A', 'W', 'S', 'T']);
    lemma_zone_row(seq!['A', 'W', 'S', 'T'], seq!['a', 'w', 's', 't'], 480);
}

#[verifier::rlimit(40)]
proof fn lemma_zone_rows_18()
    ensures
        spec_normalize(seq!['N', 'Z', 'S', 'T']) == Ok::<int, OffsetError>(720),
        spec_normalize(seq!['n', 'z', 's', 't']) == Ok::<int, OffsetError>(720),
        spec_normalize(seq!['N', 'Z', 'D', 'T']) == Ok::<int, OffsetError>(780),
        spec_normalize(seq!['n', 'z', 'd', 't']) == Ok::<int, OffsetError>(780),
{
    assert(ascii_upper(seq!['n', 'z', 's', 't']) =~= seq!['N', 'Z', 'S', 'T']);
    lemma_zone_row(seq!['N', 'Z', 'S', 'T'], seq!['n', 'z', 's', 't'], 720);
    assert(ascii_upper(seq!['n', 'z', 'd', 't']) =~= seq!['N', 'Z', 'D', 'T']);
    lemma_zone_row(seq!['N', 'Z', 'D', 'T'], seq!['n', 'z', 'd', 't'], 780);
}

/// The table of abbreviations, row by row: each name, in upper or lower
/// case, normalizes to its fixed offset in minutes.
pub proof fn lemma_zone_table()
    ensures
        spec_normalize(seq!['U', 'T', 'C']) == Ok::<int, OffsetError>(0),
        spec_normalize(seq!['u', 't', 'c']) == Ok::<int, OffsetError>(0),
        spec_normalize(seq!['G', 'M', 'T']) == Ok::<int, OffsetError>(0),
        spec_normalize(seq!['g', 'm', 't']) == Ok::<int, OffsetError>(0),
        spec_normalize(seq!['Z']) == Ok::<int, OffsetError>(0),
        spec_normalize(seq!['z']) == Ok::<int, OffsetError>(0),
        spec_normalize(seq!['E', 'S', 'T']) == Ok::<int, OffsetError>(-300),
        spec_normalize(seq!['e', 's', 't']) == Ok::<int, OffsetError>(-300),
        spec_normalize(seq!['E', 'D', 'T']) == Ok::<int, OffsetError>(-240),
        spec_normalize(seq!['e', 'd', 't']) == Ok::<int, OffsetError>(-240),
        spec_normalize(seq!['C', 'S', 'T']) == Ok::<int, OffsetError>(-360),
        spec_normalize(seq!['c', 's', 't']) == Ok::<int, OffsetError>(-360),
        spec_normalize(seq!['C', 'D', 'T']) == Ok::<int, OffsetError>(-300),
        spec_normalize(seq!['c', 'd', 't']) == Ok::<int, OffsetError>(-300),
        spec_normalize(seq!['M', 'S', 'T']) == Ok::<int, OffsetError>(-420),
        spec_normalize(seq!['m', 's', 't']) == Ok::<int, OffsetError>(-420),
        spec_normalize(seq!['M', 'D', 'T']) == Ok::<int, OffsetError>(-360),
        spec_normalize(seq!['m', 'd', 't']) == Ok::<int, OffsetError>(-360),
        spec_normalize(seq!['P', 'S', 'T']) == Ok::<int, OffsetError>(-480),
        spec_normalize(seq!['p', 's', 't']) == Ok::<int, OffsetError>(-480),
        spec_normalize(seq!['P', 'D', 'T']) == Ok::<int, OffsetError>(-420),
        spec_normalize(seq!['p', 'd', 't']) == Ok::<int, OffsetError>(-420),
        spec_normalize(seq!['I', 'S', 'T']) == Ok::<int, OffsetError>(330),
        spec_normalize(seq!['i', 's', 't']) == Ok::<int, OffsetError>(330),
        spec_normalize(seq!['J', 'S', 'T']) == Ok::<int, OffsetError>(540),
        spec_normalize(seq!['j', 's', 't']) == Ok::<int, OffsetError>(540),
        spec_normalize(seq!['C', 'E', 'T']) == Ok::<int, OffsetError>(60),
        spec_normalize(seq!['c', 'e', 't']) == Ok::<int, OffsetError>(60),
        spec_normalize(seq!['C', 'E', 'S', 'T']) == Ok::<int, OffsetError>(120),
        spec_normalize(seq!['c', 'e', 's', 't']) == Ok::<int, OffsetError>(120),
        spec_normalize(seq!['W', 'E', 'T']) == Ok::<int, OffsetError>(0),
        spec_normalize(seq!['w', 'e', 't']) == Ok::<int, OffsetError>(0),
        spec_normalize(seq!['W', 'E', 'S', 'T']) == Ok::<int, OffsetError>(60),
        spec_normalize(seq!['w', 'e', 's', 't']) == Ok::<int, OffsetError>(60),
        spec_normalize(seq!['E', 'E', 'T']) == Ok::<int, OffsetError>(120),
        spec_normalize(seq!['e', 'e', 't']) == Ok::<int, OffsetError>(120),
        spec_normalize(seq!['E', 'E', 'S', 'T']) == Ok::<int, OffsetError>(180),
        spec_normalize(seq!['e', 'e', 's', 't']) == Ok::<int, OffsetError>(180),
        spec_normalize(seq!['M', 'S', 'K']) == Ok::<int, OffsetError>(180),
        spec_normalize(seq!['m', 's', 'k']) == Ok::<int, OffsetError>(180),
        spec_normalize(seq!['B', 'S', 'T']) == Ok::<int, OffsetError>(60),
        spec_normalize(seq!['b', 's', 't']) == Ok::<int, OffsetError>(60),
        spec_normalize(seq!['A', 'S', 'T']) == Ok::<int, OffsetError>(-240),
        spec_normalize(seq!['a', 's', 't']) == Ok::<int, OffsetError>(-240),
        spec_normalize(seq!['A', 'D', 'T']) == Ok::<int, OffsetError>(-180),
        spec_normalize(seq!['a', 'd', 't']) == Ok::<int, OffsetError>(-180),
        spec_normalize(seq!['H', 'S', 'T']) == Ok::<int, OffsetError>(-600),
        spec_normalize(seq!['h', 's', 't']) == Ok::<int, OffsetError>(-600),
        spec_normalize(seq!['A', 'K', 'S', 'T']) == Ok::<int, OffsetError>(-540),
        spec_normalize(seq!['a', 'k', 's', 't']) == Ok::<int, OffsetError>(-540),
        spec_normalize(seq!['A', 'K', 'D', 'T']) == Ok::<int, OffsetError>(-480),
        spec_normalize(seq!['a', 'k', 'd', 't']) == Ok::<int, OffsetError>(-480),
        spec_normalize(seq!['S', 'G', 'T']) == Ok::<int, OffsetError>(480),
        spec_normalize(seq!['s', 'g', 't']) == Ok::<int, OffsetError>(480),
        spec_normalize(seq!['H', 'K', 'T']) == Ok::<int, OffsetError>(480),
        spec_normalize(seq!['h', 'k', 't']) == Ok::<int, OffsetError>(480),
        spec_normalize(seq!['K', 'S', 'T']) == Ok::<int, OffsetError>(540),
        spec_normalize(seq!['k', 's', 't']) == Ok::<int, OffsetError>(540),
        spec_normalize(seq!['A', 'E', 'S', 'T']) == Ok::<int, OffsetError>(600),
        spec_normalize(seq!['a', 'e', 's', 't']) == Ok::<int, OffsetError>(600),
        spec_normalize(seq!['A', 'E', 'D', 'T']) == Ok::<int, OffsetError>(660),
        spec_normalize(seq!['a', 'e', 'd', 't']) == Ok::<int, OffsetError>(660),
        spec_normalize(seq!['A', 'C', 'S', 'T']) == Ok::<int, OffsetError>(570),
        spec_normalize(seq!['a', 'c', 's', 't']) == Ok::<int, OffsetError>(570),
        spec_normalize(seq!['A', 'C', 'D', 'T']) == Ok::<int, OffsetError>(630),
        spec_normalize(seq!['a', 'c', 'd', 't']) == Ok::<int, OffsetError>(630),
        spec_normalize(seq!['A', 'W', 'S', 'T']) == Ok::<int, OffsetError>(480),
        spec_normalize(seq!['a', 'w', 's', 't']) == Ok::<int, OffsetError>(480),
        spec_normalize(seq!['N', 'Z', 'S', 'T']) == Ok::<int, OffsetError>(720),
        spec_normalize(seq!['n', 'z', 's', 't']) == Ok::<int, OffsetError>(720),
        spec_normalize(seq!['N', 'Z', 'D', 'T']) == Ok::<int, OffsetError>(780),
        spec_normalize(seq!['n', 'z', 'd', 't']) == Ok::<int, OffsetError>(780),
{
    lemma_zone_rows_1();
    lemma_zone_rows_2();
    lemma_zone_rows_3();
    lemma_zone_rows_4();
    lemma_zone_rows_5();
    lemma_zone_rows_6();
    lemma_zone_rows_7();
    lemma_zone_rows_8();
    lemma_zone_rows_9();
    lemma_zone_rows_10();
    lemma_zone_rows_11();
    lemma_zone_rows_12();
    lemma_zone_rows_13();
    lemma_zone_rows_14();
    lemma_zone_rows_15();
    lemma_zone_rows_16();
    lemma_zone_rows_17();
    lemma_zone_rows_18();
}

/// The table holds no other names than those of `lemma_zone_table`.
pub proof fn lemma_zone_table_is_complete(u: Seq<char>)
    ensures
        named_zone(u) is Some ==> {
            ||| u == seq!['U', 'T', 'C']
            ||| u == seq!['G', 'M', 'T']
            ||| u == seq!['Z']
            ||| u == seq!['E', 'S', 'T']
            ||| u == seq!['E', 'D', 'T']
            ||| u == seq!['C', 'S', 'T']
            ||| u == seq!['C', 'D', 'T']
            ||| u == seq!['M', 'S', 'T']
            ||| u == seq!['M', 'D', 'T']
            ||| u == seq!['P', 'S', 'T']
            ||| u == seq!['P', 'D', 'T']
            ||| u == seq!['I', 'S', 'T']
            ||| u == seq!['J', 'S', 'T']
            ||| u == seq!['C', 'E', 'T']
            ||| u == seq!['C', 'E', 'S', 'T']
            ||| u == seq!['W', 'E', 'T']
            ||| u == seq!['W', 'E', 'S', 'T']
            ||| u == seq!['E', 'E', 'T']
            ||| u == seq!['E', 'E', 'S', 'T']
            ||| u == seq!['M', 'S', 'K']
            ||| u == seq!['B', 'S', 'T']
            ||| u == seq!['A', 'S', 'T']
            ||| u == seq!['A', 'D', 'T']
            ||| u == seq!['H', 'S', 'T']
            ||| u == seq!['A', 'K', 'S', 'T']
            ||| u == seq!['A', 'K', 'D', 'T']
            ||| u == seq!['S', 'G', 'T']
            ||| u == seq!['H', 'K', 'T']
            ||| u == seq!['K', 'S', 'T']
            ||| u == seq!['A', 'E', 'S', 'T']
            ||| u == seq!['A', 'E', 'D', 'T']
            ||| u == seq!['A', 'C', 'S', 'T']
            ||| u == seq!['A', 'C', 'D', 'T']
            ||| u == seq!['A', 'W', 'S', 'T']
            ||| u == seq!['N', 'Z', 'S', 'T']
            ||| u == seq!['N', 'Z', 'D', 'T']
        },
{
}

proof fn lemma_trim_start_keeps_last(s: Seq<char>)
    requires
        s.len() > 0,
        !is_whitespace(s.last()),
    ensures
        trim_start(s).len() > 0,
        trim_start(s).last() == s.last(),
    decreases s.len(),
{
    if is_whitespace(s[0]) {
        assert(s.len() > 1);
        assert(s.drop_first().last() == s.last());
        lemma_trim_start_keeps_last(s.drop_first());
    }
}

/// A `Z` or `z` right after a digit at the end of a text marks UTC,
/// whatever comes before the digit (seconds, fractions of a second, or
/// anything else).
pub proof fn lemma_zulu_after_digit(d: Seq<char>, z: char)
    requires
        d.len() > 0,
        is_ascii_digit(d.last()),
        z == 'Z' || z == 'z',
    ensures
        spec_extract_offset(d + seq![z]) == Ok::<int, OffsetError>(0),
{
    let x = d + seq![z];
    lemma_trim_start_concat(d, seq![z]);
    lemma_trim_start_keeps_last(d);
    let q = trim_start(d);
    let t = q + seq![z];
    assert(trim_start(x) == t);
    assert(t.last() == z);
    assert(trim_end(t) == t);
    assert(trim(x) == t);
    assert(t[t.len() - 2] == q.last());
    lemma_trim_start_no_leading(d);
    assert(t[0] == q[0]);
    assert(trim_start(t) == t);
    assert(trim(t) == t);
    if spec_normalize(t) is Ok {
        lemma_normalized_text_is_offset_shaped(t);
        let u = ascii_upper(t);
        lemma_upper_keeps_whitespace(z);
        assert(u.last() == upper_char(z));
        assert(u[u.len() - 2] == upper_char(t[t.len() - 2]));
        lemma_upper_keeps_whitespace(t[t.len() - 2]);
        assert(is_upper_letter(u[u.len() - 2]));
        assert(false);
    }
    assert(ends_in_zulu(t));
}


/// The ASCII digits are `0..=9` in order: `digit_char` writes them and
/// `digit_value` reads them back, and no other character is a digit.
pub proof fn lemma_ascii_digits(c: char)
    ensures
        digit_char(0) == '0' && digit_value('0') == 0,
        digit_char(1) == '1' && digit_value('1') == 1,
        digit_char(2) == '2' && digit_value('2') == 2,
        digit_char(3) == '3' && digit_value('3') == 3,
        digit_char(4) == '4' && digit_value('4') == 4,
        digit_char(5) == '5' && digit_value('5') == 5,
        digit_char(6) == '6' && digit_value('6') == 6,
        digit_char(7) == '7' && digit_value('7') == 7,
        digit_char(8) == '8' && digit_value('8') == 8,
        digit_char(9) == '9' && digit_value('9') == 9,
        is_ascii_digit(c) <==> (c == '0' || c == '1' || c == '2' || c == '3' || c == '4' || c == '5' || c == '6' || c == '7' || c == '8' || c == '9'),
{
}

/// Decimal notation: a digit string with one more digit at the end spells
/// ten times the number plus that digit; the empty string spells zero.
pub proof fn lemma_decimal_notation(s: Seq<char>, c: char)
    ensures
        decimal_value(Seq::<char>::empty()) == 0,
        decimal_value(s.push(c)) == 10 * decimal_value(s) + digit_value(c),
{
    assert(s.push(c).drop_last() =~= s);
}

/// Real-world offsets are those from -720 minutes (-12:00) to 840 minutes
/// (+14:00), both included.
pub proof fn lemma_range_is_minus_12_to_plus_14(m: int)
    ensures
        in_range(m) <==> -720 <= m && m <= 840,
        offset_from_minutes(m) == if -720 <= m && m <= 840 {
            Ok::<int, OffsetError>(m)
        } else {
            Err(OffsetError::OutOfRange)
        },
{
}


/// The canonical text agrees with the parts of the offset: six characters,
/// a `-` exactly for offsets west of UTC (what `is_negative` reports) and a
/// `+` otherwise, then two digits of hours (what `hours` returns), a colon,
/// and two digits of minutes (what `minutes` returns).
pub proof fn lemma_canonical_text_parts(m: int)
    requires
        in_range(m),
    ensures
        canonical_text(m).len() == 6,
        canonical_text(m)[0] == (if m < 0 {
            '-'
        } else {
            '+'
        }),
        canonical_text(m)[3] == ':',
        all_digits(canonical_text(m).subrange(1, 3)),
        all_digits(canonical_text(m).subrange(4, 6)),
        decimal_value(canonical_text(m).subrange(1, 3)) == abs(m) / 60,
        decimal_value(canonical_text(m).subrange(4, 6)) == abs(m) % 60,
{
    let s = canonical_text(m);
    let h = abs(m) / 60;
    let mm = abs(m) % 60;
    assert(s.subrange(1, 3) =~= seq![digit_char(h / 10), digit_char(h % 10)]);
    assert(s.subrange(4, 6) =~= seq![digit_char(mm / 10), digit_char(mm % 10)]);
    lemma_two_digits(h / 10, h % 10);
    lemma_two_digits(mm / 10, mm % 10);
}


/// The magnitude of an offset is its distance from UTC in minutes.
pub proof fn lemma_magnitude(m: int)
    ensures
        abs(m) >= 0,
        abs(m) == m || abs(m) == -m,
{
}

} // verus!
