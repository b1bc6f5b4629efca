//! Timestamps written as `YYYY-MM-DDThh:mm[:ss[.fff]][Z|±hh[:mm]]`, read as
//! seconds since the Unix epoch.

use vstd::prelude::*;
use crate::civil::{days_from_civil, march_day_number, lemma_march_day_number_bounds};
use crate::text::{
    all_whitespace, chars_of, find_char, find_from, lemma_find_from_bounds,
    lemma_trim_ignores_added_whitespace, lemma_trim_identity, lemma_find_from_first,
    lemma_split_field_first, lemma_split_field_whole, is_whitespace, all_digits, is_digit, parse_i32, parse_i32_chars, parse_i64, parse_i64_chars,
    parse_u32, parse_u32_chars, split_field, split_field_chars, sub_chars, trim, trim_chars,
};

verus! {

pub open spec fn is_sign(c: char) -> bool {
    c == '+' || c == '-'
}

/// Index of the last `+` or `-` among the first `i` characters of `s`, or -1.
pub open spec fn last_sign_before(s: Seq<char>, i: int) -> int
    decreases i,
{
    if i <= 0 || i > s.len() {
        -1
    } else if is_sign(s[i - 1]) {
        i - 1
    } else {
        last_sign_before(s, i - 1)
    }
}

pub open spec fn fits_i64(x: int) -> bool {
    i64::MIN <= x <= i64::MAX
}

/// The trimmed input.
pub open spec fn iso_text(s: Seq<char>) -> Seq<char> {
    trim(s)
}

/// Position of the first `T` of the trimmed input (its length when there is none).
pub open spec fn iso_t_index(s: Seq<char>) -> int {
    find_from(iso_text(s), 'T', 0)
}

pub open spec fn iso_has_t(s: Seq<char>) -> bool {
    iso_t_index(s) < iso_text(s).len()
}

/// What comes before the first `T`: the date.
pub open spec fn iso_date_text(s: Seq<char>) -> Seq<char> {
    iso_text(s).take(iso_t_index(s))
}

/// What comes after the first `T`: the clock time and the zone.
pub open spec fn iso_tail_text(s: Seq<char>) -> Seq<char> {
    iso_text(s).skip(iso_t_index(s) + 1)
}

pub open spec fn ends_in_z(tz: Seq<char>) -> bool {
    tz.len() > 0 && tz.last() == 'Z'
}

pub open spec fn offset_sign_index(tz: Seq<char>) -> int {
    last_sign_before(tz, tz.len() as int)
}

/// The tail ends in a numeric offset: no final `Z`, and its last sign is not its first character.
pub open spec fn has_numeric_offset(tz: Seq<char>) -> bool {
    !ends_in_z(tz) && offset_sign_index(tz) > 0
}

/// The clock time: the tail without its zone designator.
pub open spec fn clock_text(tz: Seq<char>) -> Seq<char> {
    if ends_in_z(tz) {
        tz.drop_last()
    } else if has_numeric_offset(tz) {
        tz.take(offset_sign_index(tz))
    } else {
        tz
    }
}

/// The text of a numeric offset, after its sign.
pub open spec fn offset_text(tz: Seq<char>) -> Seq<char> {
    tz.skip(offset_sign_index(tz) + 1)
}

pub open spec fn offset_direction(tz: Seq<char>) -> int {
    if tz[offset_sign_index(tz)] == '+' {
        1
    } else {
        -1
    }
}

pub open spec fn offset_hours(tz: Seq<char>) -> Option<int> {
    parse_i64(split_field(offset_text(tz), ':', 0).unwrap())
}

/// Minutes of a numeric offset: 0 when the offset has no `:`.
pub open spec fn offset_minutes(tz: Seq<char>) -> Option<int> {
    match split_field(offset_text(tz), ':', 1) {
        Some(p) => parse_i64(p),
        None => Some(0),
    }
}

/// The offset arithmetic `sign * (hours * 3600 + minutes * 60)` leaves the range of `i64`.
pub open spec fn offset_overflows(tz: Seq<char>) -> bool {
    has_numeric_offset(tz) && match (offset_hours(tz), offset_minutes(tz)) {
        (Some(oh), Some(om)) => !(fits_i64(oh * 3600) && fits_i64(om * 60) && fits_i64(
            oh * 3600 + om * 60,
        ) && fits_i64(offset_direction(tz) * (oh * 3600 + om * 60))),
        _ => false,
    }
}

/// Seconds east of UTC that the zone designator gives; 0 for `Z` or no designator.
pub open spec fn iso_offset(s: Seq<char>) -> Option<int> {
    let tz = iso_tail_text(s);
    if has_numeric_offset(tz) {
        match (offset_hours(tz), offset_minutes(tz)) {
            (Some(oh), Some(om)) => Some(offset_direction(tz) * (oh * 3600 + om * 60)),
            _ => None,
        }
    } else {
        Some(0)
    }
}

pub open spec fn iso_year(s: Seq<char>) -> Option<int> {
    parse_i32(split_field(iso_date_text(s), '-', 0).unwrap())
}

pub open spec fn iso_month(s: Seq<char>) -> Option<int> {
    match split_field(iso_date_text(s), '-', 1) {
        Some(p) => parse_u32(p),
        None => None,
    }
}

pub open spec fn iso_day(s: Seq<char>) -> Option<int> {
    match split_field(iso_date_text(s), '-', 2) {
        Some(p) => parse_u32(p),
        None => None,
    }
}

pub open spec fn iso_hour(s: Seq<char>) -> Option<int> {
    parse_u32(split_field(clock_text(iso_tail_text(s)), ':', 0).unwrap())
}

pub open spec fn iso_minute(s: Seq<char>) -> Option<int> {
    match split_field(clock_text(iso_tail_text(s)), ':', 1) {
        Some(p) => parse_u32(p),
        None => None,
    }
}

/// Whole seconds: the part before any `.`; 0 when the clock has no seconds.
pub open spec fn iso_second(s: Seq<char>) -> Option<int> {
    match split_field(clock_text(iso_tail_text(s)), ':', 2) {
        Some(p) => parse_u32(split_field(p, '.', 0).unwrap()),
        None => Some(0),
    }
}

/// Seconds since 1970-01-01T00:00:00Z of the timestamp `s`, when every part of it reads.
pub open spec fn iso8601_seconds(s: Seq<char>) -> Option<int> {
    if !iso_has_t(s) {
        None
    } else {
        match (
            iso_offset(s),
            iso_year(s),
            iso_month(s),
            iso_day(s),
            iso_hour(s),
            iso_minute(s),
            iso_second(s),
        ) {
            (Some(off), Some(y), Some(mo), Some(d), Some(h), Some(mi), Some(se)) => Some(
                march_day_number(y, mo, d) * 86400 + h * 3600 + mi * 60 + se - off,
            ),
            _ => None,
        }
    }
}

/// The computation of `s` leaves the range of `i64`: in the offset, or in the final sum.
pub open spec fn iso8601_overflows(s: Seq<char>) -> bool {
    iso_has_t(s) && (offset_overflows(iso_tail_text(s)) || match iso8601_seconds(s) {
        Some(v) => !fits_i64(v),
        None => false,
    })
}

/// White space around a timestamp changes neither its value nor whether reading it overflows.
pub proof fn lemma_iso8601_ignores_surrounding_whitespace(
    before: Seq<char>,
    s: Seq<char>,
    after: Seq<char>,
)
    requires
        all_whitespace(before),
        all_whitespace(after),
    ensures
        iso8601_seconds(before + s + after) == iso8601_seconds(s),
        iso8601_overflows(before + s + after) == iso8601_overflows(s),
{
    lemma_trim_ignores_added_whitespace(before, s, after);
}

proof fn lemma_last_sign_none(s: Seq<char>, n: int)
    requires
        0 <= n <= s.len(),
        forall|j: int| 0 <= j < n ==> !is_sign(s[j]),
    ensures
        last_sign_before(s, n) == -1,
    decreases n,
{
    if n > 0 {
        lemma_last_sign_none(s, n - 1);
    }
}

proof fn lemma_last_sign_at(s: Seq<char>, p: int, n: int)
    requires
        0 <= p < n <= s.len(),
        is_sign(s[p]),
        forall|j: int| p < j < n ==> !is_sign(s[j]),
    ensures
        last_sign_before(s, n) == p,
    decreases n,
{
    if n > p + 1 {
        lemma_last_sign_at(s, p, n - 1);
    }
}

/// A zone designator as it may follow the clock time: none, `Z`, or a sign
/// followed by an offset text without further signs or `Z`.
pub open spec fn is_zone_designator(zone: Seq<char>) -> bool {
    ||| zone.len() == 0
    ||| zone == seq!['Z']
    ||| (is_sign(zone[0]) && forall|j: int|
        1 <= j < zone.len() ==> !is_sign(#[trigger] zone[j]) && zone[j] != 'Z')
}

/// A clock field (hours, minutes or seconds) as the fraction law takes it:
/// no `:`, `.`, sign or `Z` in it.
pub open spec fn is_plain_clock_field(p: Seq<char>) -> bool {
    forall|j: int|
        0 <= j < p.len() ==> #[trigger] p[j] != ':' && p[j] != '.' && !is_sign(p[j]) && p[j]
            != 'Z'
}

/// How a tail `body + zone` splits into clock and zone, when the body holds
/// no sign and does not end in `Z`: the clock is the body, and the offset
/// depends on the zone alone.
proof fn lemma_tail_split(body: Seq<char>, zone: Seq<char>)
    requires
        body.len() > 0,
        forall|j: int| 0 <= j < body.len() ==> !is_sign(body[j]),
        body.last() != 'Z',
        is_zone_designator(zone),
    ensures
        clock_text(body + zone) == body,
        has_numeric_offset(body + zone) <==> (zone.len() > 0 && zone != seq!['Z']),
        has_numeric_offset(body + zone) ==> offset_text(body + zone) == zone.drop_first()
            && offset_direction(body + zone) == (if zone[0] == '+' { 1int } else { -1int }),
{
    let t = body + zone;
    if zone.len() == 0 {
        assert(t =~= body);
        lemma_last_sign_none(t, t.len() as int);
    } else if zone == seq!['Z'] {
        assert(t.drop_last() =~= body);
    } else {
        assert(t[body.len() as int] == zone[0]);
        assert(t.last() == zone[zone.len() - 1]);
        if zone.len() > 1 {
            assert(zone[zone.len() - 1] != 'Z');
        }
        assert forall|j: int| body.len() < j < t.len() implies !is_sign(t[j]) by {
            assert(t[j] == zone[j - body.len()]);
        }
        lemma_last_sign_at(t, body.len() as int, t.len() as int);
        assert(t.take(body.len() as int) =~= body);
        assert(t.skip(body.len() + 1int) =~= zone.drop_first());
    }
}

/// The timestamp `date T hour:minute:second` followed by a zone designator.
pub open spec fn iso_timestamp(
    date: Seq<char>,
    hour: Seq<char>,
    minute: Seq<char>,
    second: Seq<char>,
    zone: Seq<char>,
) -> Seq<char> {
    date + seq!['T'] + hour + seq![':'] + minute + seq![':'] + second + zone
}

/// Two timestamps whose parts read alike read alike.
proof fn lemma_same_parts(s1: Seq<char>, s2: Seq<char>)
    requires
        iso_has_t(s1) == iso_has_t(s2),
        offset_overflows(iso_tail_text(s1)) == offset_overflows(iso_tail_text(s2)),
        iso_offset(s1) == iso_offset(s2),
        iso_year(s1) == iso_year(s2),
        iso_month(s1) == iso_month(s2),
        iso_day(s1) == iso_day(s2),
        iso_hour(s1) == iso_hour(s2),
        iso_minute(s1) == iso_minute(s2),
        iso_second(s1) == iso_second(s2),
    ensures
        iso8601_seconds(s1) == iso8601_seconds(s2),
        iso8601_overflows(s1) == iso8601_overflows(s2),
{
}

/// The layout `date T tail` of an already trimmed timestamp whose date has no `T`.
proof fn lemma_date_and_tail(date: Seq<char>, tail: Seq<char>)
    requires
        forall|j: int| 0 <= j < date.len() ==> date[j] != 'T',
        date.len() > 0 ==> !is_whitespace(date[0]),
        tail.len() > 0,
        !is_whitespace(tail.last()),
    ensures
        iso_has_t(date + seq!['T'] + tail),
        iso_date_text(date + seq!['T'] + tail) == date,
        iso_tail_text(date + seq!['T'] + tail) == tail,
{
    let s = date + seq!['T'] + tail;
    assert(s[0] == (if date.len() > 0 { date[0] } else { 'T' }));
    assert(s.last() == tail.last());
    lemma_trim_identity(s);
    assert forall|j: int| 0 <= j < date.len() implies s[j] != 'T' by {
        assert(s[j] == date[j]);
    }
    lemma_find_from_first(s, 'T', 0, date.len() as int);
    assert(s.take(date.len() as int) =~= date);
    assert(s.skip(date.len() + 1int) =~= tail);
}

/// The pieces of the clock text `hour:minute:second` when `second` has no `:`.
proof fn lemma_clock_pieces(hour: Seq<char>, minute: Seq<char>, second: Seq<char>)
    requires
        forall|j: int| 0 <= j < hour.len() ==> hour[j] != ':',
        forall|j: int| 0 <= j < minute.len() ==> minute[j] != ':',
        forall|j: int| 0 <= j < second.len() ==> second[j] != ':',
    ensures
        split_field(hour + seq![':'] + minute + seq![':'] + second, ':', 0) == Some(hour),
        split_field(hour + seq![':'] + minute + seq![':'] + second, ':', 1) == Some(minute),
        split_field(hour + seq![':'] + minute + seq![':'] + second, ':', 2) == Some(second),
{
    let rest = minute + seq![':'] + second;
    assert(hour + seq![':'] + minute + seq![':'] + second =~= hour + seq![':'] + rest);
    lemma_split_field_first(hour, ':', rest, 0);
    lemma_split_field_first(hour, ':', rest, 1);
    lemma_split_field_first(minute, ':', second, 0);
    lemma_split_field_whole(second, ':');
}

/// The clock text `hour:minute:second` holds no sign when its fields hold none.
proof fn lemma_clock_no_sign(hour: Seq<char>, minute: Seq<char>, second: Seq<char>)
    requires
        forall|j: int| 0 <= j < hour.len() ==> !is_sign(hour[j]),
        forall|j: int| 0 <= j < minute.len() ==> !is_sign(minute[j]),
        forall|j: int| 0 <= j < second.len() ==> !is_sign(second[j]),
    ensures
        ({
            let c = hour + seq![':'] + minute + seq![':'] + second;
            forall|j: int| 0 <= j < c.len() ==> !is_sign(c[j])
        }),
{
    let c = hour + seq![':'] + minute + seq![':'] + second;
    assert forall|j: int| 0 <= j < c.len() implies !is_sign(c[j]) by {
        if j < hour.len() {
            assert(c[j] == hour[j]);
        } else if hour.len() < j < hour.len() + 1 + minute.len() {
            assert(c[j] == minute[j - hour.len() - 1]);
        } else if j > hour.len() + 1 + minute.len() {
            assert(c[j] == second[j - hour.len() - 2 - minute.len()]);
        }
    }
}

/// Two timestamps with the same date, the same zone and clock texts whose
/// fields read alike read alike.
proof fn lemma_same_tails(s1: Seq<char>, s2: Seq<char>, c1: Seq<char>, c2: Seq<char>, zone: Seq<char>)
    requires
        iso_has_t(s1),
        iso_has_t(s2),
        iso_date_text(s1) == iso_date_text(s2),
        iso_tail_text(s1) == c1 + zone,
        iso_tail_text(s2) == c2 + zone,
        clock_text(c1 + zone) == c1,
        clock_text(c2 + zone) == c2,
        has_numeric_offset(c1 + zone) == has_numeric_offset(c2 + zone),
        has_numeric_offset(c1 + zone) ==> offset_text(c1 + zone) == offset_text(c2 + zone)
            && offset_direction(c1 + zone) == offset_direction(c2 + zone),
        split_field(c1, ':', 0) == split_field(c2, ':', 0),
        split_field(c1, ':', 1) == split_field(c2, ':', 1),
        split_field(c1, ':', 2) matches Some(p1) && split_field(c2, ':', 2) matches Some(p2)
            && split_field(p1, '.', 0) == split_field(p2, '.', 0),
    ensures
        iso8601_seconds(s1) == iso8601_seconds(s2),
        iso8601_overflows(s1) == iso8601_overflows(s2),
{
    let t1 = iso_tail_text(s1);
    let t2 = iso_tail_text(s2);
    assert(iso_hour(s1) == iso_hour(s2));
    assert(iso_minute(s1) == iso_minute(s2));
    assert(iso_second(s1) == iso_second(s2));
    assert(offset_hours(t1) == offset_hours(t2) || !has_numeric_offset(t1));
    assert(offset_minutes(t1) == offset_minutes(t2) || !has_numeric_offset(t1));
    assert(iso_offset(s1) == iso_offset(s2));
    assert(offset_overflows(t1) == offset_overflows(t2));
    lemma_same_parts(s1, s2);
}

/// Seconds followed by `.` and a digit string: no separator, sign or `Z`
/// among them, and the text ends in neither white space nor `Z`.
proof fn lemma_seconds_with_fraction(second: Seq<char>, fraction: Seq<char>)
    requires
        is_plain_clock_field(second),
        all_digits(fraction),
    ensures
        ({
            let t = second + seq!['.'] + fraction;
            &&& t.len() > 0
            &&& forall|j: int| 0 <= j < t.len() ==> t[j] != ':' && t[j] != 'Z' && !is_sign(t[j])
            &&& !is_whitespace(t.last())
            &&& t.last() != 'Z'
        }),
{
    let t = second + seq!['.'] + fraction;
    assert forall|j: int| 0 <= j < t.len() implies t[j] != ':' && t[j] != 'Z' && !is_sign(t[j]) by {
        if j < second.len() {
            assert(t[j] == second[j]);
        } else if j > second.len() {
            assert(t[j] == fraction[j - second.len() - 1]);
            assert(is_digit(fraction[j - second.len() - 1]));
        }
    }
    if fraction.len() > 0 {
        assert(t.last() == fraction[fraction.len() - 1]);
        assert(is_digit(fraction[fraction.len() - 1]));
    }
}

/// A fraction of a second changes nothing, whatever zone designator follows:
/// `date T hh:mm:ss.fff` + zone reads exactly as `date T hh:mm:ss` + zone, for
/// every date without `T`, clock fields without separators, digit string
/// `fff` and zone (none, `Z`, or `±` offset), both in value and in whether the
/// computation overflows.
#[verifier::rlimit(30)]
pub proof fn lemma_iso8601_fraction_ignored(
    date: Seq<char>,
    hour: Seq<char>,
    minute: Seq<char>,
    second: Seq<char>,
    fraction: Seq<char>,
    zone: Seq<char>,
)
    requires
        forall|j: int| 0 <= j < date.len() ==> date[j] != 'T',
        date.len() > 0 ==> !is_whitespace(date[0]),
        is_plain_clock_field(hour),
        is_plain_clock_field(minute),
        is_plain_clock_field(second),
        second.len() > 0 ==> !is_whitespace(second.last()),
        all_digits(fraction),
        is_zone_designator(zone),
        zone.len() > 0 ==> !is_whitespace(zone.last()),
    ensures
        iso8601_seconds(iso_timestamp(date, hour, minute, second + seq!['.'] + fraction, zone))
            == iso8601_seconds(iso_timestamp(date, hour, minute, second, zone)),
        iso8601_overflows(iso_timestamp(date, hour, minute, second + seq!['.'] + fraction, zone))
            == iso8601_overflows(iso_timestamp(date, hour, minute, second, zone)),
{
    let sec1 = second + seq!['.'] + fraction;
    let s1 = iso_timestamp(date, hour, minute, sec1, zone);
    let s2 = iso_timestamp(date, hour, minute, second, zone);
    let c1 = hour + seq![':'] + minute + seq![':'] + sec1;
    let c2 = hour + seq![':'] + minute + seq![':'] + second;
    assert(s1 =~= date + seq!['T'] + (c1 + zone));
    assert(s2 =~= date + seq!['T'] + (c2 + zone));
    lemma_seconds_with_fraction(second, fraction);
    assert(c1.last() == sec1.last());
    assert(c2.last() == (if second.len() > 0 { second.last() } else { ':' }));
    assert((c1 + zone).last() == (if zone.len() > 0 { zone.last() } else { c1.last() }));
    assert((c2 + zone).last() == (if zone.len() > 0 { zone.last() } else { c2.last() }));
    lemma_date_and_tail(date, c1 + zone);
    lemma_date_and_tail(date, c2 + zone);
    lemma_clock_no_sign(hour, minute, sec1);
    lemma_clock_no_sign(hour, minute, second);
    if second.len() > 0 {
        assert(second[second.len() - 1] != 'Z');
    }
    lemma_tail_split(c1, zone);
    lemma_tail_split(c2, zone);
    lemma_clock_pieces(hour, minute, sec1);
    lemma_clock_pieces(hour, minute, second);
    lemma_split_field_first(second, '.', fraction, 0);
    lemma_split_field_whole(second, '.');
    lemma_same_tails(s1, s2, c1, c2, zone);
}

/// Two timestamps with the same date and the same clock text, whatever their
/// zones, read the same date and clock fields.
proof fn lemma_same_clock(date: Seq<char>, c: Seq<char>, z1: Seq<char>, z2: Seq<char>)
    requires
        forall|j: int| 0 <= j < date.len() ==> date[j] != 'T',
        date.len() > 0 ==> !is_whitespace(date[0]),
        c.len() > 0,
        !is_whitespace(c.last()),
        forall|j: int| 0 <= j < c.len() ==> !is_sign(c[j]),
        c.last() != 'Z',
        is_zone_designator(z1),
        is_zone_designator(z2),
        z1.len() > 0 ==> !is_whitespace(z1.last()),
        z2.len() > 0 ==> !is_whitespace(z2.last()),
    ensures
        ({
            let s1 = date + seq!['T'] + c + z1;
            let s2 = date + seq!['T'] + c + z2;
            &&& iso_has_t(s1) && iso_has_t(s2)
            &&& iso_year(s1) == iso_year(s2)
            &&& iso_month(s1) == iso_month(s2)
            &&& iso_day(s1) == iso_day(s2)
            &&& iso_hour(s1) == iso_hour(s2)
            &&& iso_minute(s1) == iso_minute(s2)
            &&& iso_second(s1) == iso_second(s2)
            &&& iso_tail_text(s1) == c + z1
            &&& iso_tail_text(s2) == c + z2
        }),
{
    let s1 = date + seq!['T'] + c + z1;
    let s2 = date + seq!['T'] + c + z2;
    assert(s1 =~= date + seq!['T'] + (c + z1));
    assert(s2 =~= date + seq!['T'] + (c + z2));
    assert((c + z1).last() == (if z1.len() > 0 { z1.last() } else { c.last() }));
    assert((c + z2).last() == (if z2.len() > 0 { z2.last() } else { c.last() }));
    lemma_date_and_tail(date, c + z1);
    lemma_date_and_tail(date, c + z2);
    lemma_tail_split(c, z1);
    lemma_tail_split(c, z2);
}

/// How the zone designator moves the instant: no designator and `Z` both read
/// as UTC, and for an offset text `o` of `h` hours and `m` minutes, `+o` gives
/// the UTC reading minus `h·3600 + m·60` seconds and `-o` the UTC reading plus
/// as much.
pub proof fn lemma_iso8601_zone_shift(
    date: Seq<char>,
    clock: Seq<char>,
    offset: Seq<char>,
    h: int,
    m: int,
)
    requires
        forall|j: int| 0 <= j < date.len() ==> date[j] != 'T',
        date.len() > 0 ==> !is_whitespace(date[0]),
        clock.len() > 0,
        !is_whitespace(clock.last()),
        forall|j: int| 0 <= j < clock.len() ==> !is_sign(clock[j]),
        clock.last() != 'Z',
        forall|j: int| 0 <= j < offset.len() ==> !is_sign(offset[j]) && offset[j] != 'Z',
        offset.len() > 0 ==> !is_whitespace(offset.last()),
        parse_i64(split_field(offset, ':', 0).unwrap()) == Some(h),
        match split_field(offset, ':', 1) {
            Some(p) => parse_i64(p) == Some(m),
            None => m == 0,
        },
    ensures
        iso8601_seconds(date + seq!['T'] + clock) == iso8601_seconds(
            date + seq!['T'] + clock + seq!['Z'],
        ),
        iso8601_seconds(date + seq!['T'] + clock + seq!['Z']) matches Some(u) ==> {
            &&& iso8601_seconds(date + seq!['T'] + clock + (seq!['+'] + offset)) == Some(
                u - (h * 3600 + m * 60),
            )
            &&& iso8601_seconds(date + seq!['T'] + clock + (seq!['-'] + offset)) == Some(
                u + (h * 3600 + m * 60),
            )
        },
{
    let none = Seq::<char>::empty();
    let zz = seq!['Z'];
    let plus = seq!['+'] + offset;
    let minus = seq!['-'] + offset;
    assert(date + seq!['T'] + clock =~= date + seq!['T'] + clock + none);
    assert(plus.drop_first() =~= offset);
    assert(minus.drop_first() =~= offset);
    assert forall|j: int| 1 <= j < plus.len() implies !is_sign(#[trigger] plus[j]) && plus[j] != 'Z' by {
        assert(plus[j] == offset[j - 1]);
    }
    assert forall|j: int| 1 <= j < minus.len() implies !is_sign(#[trigger] minus[j]) && minus[j] != 'Z' by {
        assert(minus[j] == offset[j - 1]);
    }
    assert(plus.last() == (if offset.len() > 0 { offset.last() } else { '+' }));
    assert(minus.last() == (if offset.len() > 0 { offset.last() } else { '-' }));
    lemma_same_clock(date, clock, none, zz);
    lemma_same_clock(date, clock, zz, plus);
    lemma_same_clock(date, clock, zz, minus);
    lemma_tail_split(clock, none);
    lemma_tail_split(clock, zz);
    lemma_tail_split(clock, plus);
    lemma_tail_split(clock, minus);
    let sz = date + seq!['T'] + clock + zz;
    let sp = date + seq!['T'] + clock + plus;
    let sm = date + seq!['T'] + clock + minus;
    assert(iso_offset(sz) == Some(0int));
    assert(iso_offset(sp) == Some(h * 3600 + m * 60));
    assert(iso_offset(sm) == Some(-1 * (h * 3600 + m * 60)));
    lemma_offset_moves_seconds(sz, sp, h * 3600 + m * 60);
    lemma_offset_moves_seconds(sz, sm, -1 * (h * 3600 + m * 60));
}

/// Timestamps with the same fields differ by their offsets.
proof fn lemma_offset_moves_seconds(s1: Seq<char>, s2: Seq<char>, d: int)
    requires
        iso_has_t(s1),
        iso_has_t(s2),
        iso_offset(s1) == Some(0int),
        iso_offset(s2) == Some(d),
        iso_year(s1) == iso_year(s2),
        iso_month(s1) == iso_month(s2),
        iso_day(s1) == iso_day(s2),
        iso_hour(s1) == iso_hour(s2),
        iso_minute(s1) == iso_minute(s2),
        iso_second(s1) == iso_second(s2),
    ensures
        iso8601_seconds(s1) matches Some(u) ==> iso8601_seconds(s2) == Some(u - d),
{
}

/// Index of the last `+` or `-` of `v`.
fn last_sign(v: &Vec<char>) -> (r: Option<usize>)
    ensures
        match r {
            Some(i) => i == last_sign_before(v@, v@.len() as int) && i < v@.len() && is_sign(v@[i as int]),
            None => last_sign_before(v@, v@.len() as int) == -1,
        },
{
    let mut i: usize = v.len();
    while i > 0 && !(v[i - 1] == '+' || v[i - 1] == '-')
        invariant
            i <= v@.len(),
            last_sign_before(v@, v@.len() as int) == last_sign_before(v@, i as int),
        decreases i,
    {
        i = i - 1;
    }
    if i == 0 {
        None
    } else {
        Some(i - 1)
    }
}

/// Reads the timestamp `s` as [`iso8601_to_epoch`] does, and tells where that
/// computation would leave the range of `i64`: `None` exactly then, else the result.
#[verifier::rlimit(60)]
pub fn iso8601_evaluate(s: &str) -> (r: Option<Result<i64, ()>>)
    ensures
        r is None <==> iso8601_overflows(s@),
        r matches Some(Ok(v)) ==> iso8601_seconds(s@) == Some(v as int),
        r matches Some(Err(_)) ==> iso8601_seconds(s@) is None,
{
    let chars = chars_of(s);
    let t = trim_chars(&chars);
    let k = find_char(&t, 'T');
    if k >= t.len() {
        return Some(Err(()));
    }
    proof {
        lemma_find_from_bounds(t@, 'T', 0);
    }
    let date = sub_chars(&t, 0, k);
    let tz = sub_chars(&t, k + 1, t.len());
    assert(date@ =~= iso_date_text(s@));
    assert(tz@ =~= iso_tail_text(s@));
    let mut offset_secs: i64 = 0;
    let clock: Vec<char>;
    if tz.len() > 0 && tz[tz.len() - 1] == 'Z' {
        clock = sub_chars(&tz, 0, tz.len() - 1);
        assert(clock@ =~= clock_text(tz@));
    } else {
        match last_sign(&tz) {
            Some(idx) => {
                if idx > 0 {
                    let sign: i64 = if tz[idx] == '+' { 1 } else { -1 };
                    let off = sub_chars(&tz, idx + 1, tz.len());
                    assert(off@ =~= offset_text(tz@));
                    let oh = match split_field_chars(&off, ':', 0) {
                        Some(p) => match parse_i64_chars(&p) {
                            Some(x) => x,
                            None => return Some(Err(())),
                        },
                        None => return Some(Err(())),
                    };
                    let om = match split_field_chars(&off, ':', 1) {
                        Some(p) => match parse_i64_chars(&p) {
                            Some(x) => x,
                            None => return Some(Err(())),
                        },
                        None => 0,
                    };
                    let hs = match oh.checked_mul(3600) {
                        Some(x) => x,
                        None => return None,
                    };
                    let ms = match om.checked_mul(60) {
                        Some(x) => x,
                        None => return None,
                    };
                    let total = match hs.checked_add(ms) {
                        Some(x) => x,
                        None => return None,
                    };
                    offset_secs = match sign.checked_mul(total) {
                        Some(x) => x,
                        None => return None,
                    };
                    clock = sub_chars(&tz, 0, idx);
                    assert(clock@ =~= clock_text(tz@));
                } else {
                    clock = sub_chars(&tz, 0, tz.len());
                    assert(clock@ =~= clock_text(tz@));
                }
            },
            None => {
                clock = sub_chars(&tz, 0, tz.len());
                assert(clock@ =~= clock_text(tz@));
            },
        }
    }
    assert(iso_offset(s@) == Some(offset_secs as int));
    let y: i32 = match split_field_chars(&date, '-', 0) {
        Some(p) => match parse_i32_chars(&p) {
            Some(x) => x,
            None => return Some(Err(())),
        },
        None => return Some(Err(())),
    };
    let mo: u32 = match split_field_chars(&date, '-', 1) {
        Some(p) => match parse_u32_chars(&p) {
            Some(x) => x,
            None => return Some(Err(())),
        },
        None => return Some(Err(())),
    };
    let d: u32 = match split_field_chars(&date, '-', 2) {
        Some(p) => match parse_u32_chars(&p) {
            Some(x) => x,
            None => return Some(Err(())),
        },
        None => return Some(Err(())),
    };
    let h: u32 = match split_field_chars(&clock, ':', 0) {
        Some(p) => match parse_u32_chars(&p) {
            Some(x) => x,
            None => return Some(Err(())),
        },
        None => return Some(Err(())),
    };
    let mi: u32 = match split_field_chars(&clock, ':', 1) {
        Some(p) => match parse_u32_chars(&p) {
            Some(x) => x,
            None => return Some(Err(())),
        },
        None => return Some(Err(())),
    };
    let se: u32 = match split_field_chars(&clock, ':', 2) {
        Some(p) => match split_field_chars(&p, '.', 0) {
            Some(q) => match parse_u32_chars(&q) {
                Some(x) => x,
                None => return Some(Err(())),
            },
            None => return Some(Err(())),
        },
        None => 0,
    };
    let days = days_from_civil(y, mo, d);
    proof {
        lemma_march_day_number_bounds(y as int, mo as int, d as int);
    }
    let base: i64 = days * 86400 + (h as i64) * 3600 + (mi as i64) * 60 + se as i64;
    match base.checked_sub(offset_secs) {
        Some(v) => Some(Ok(v)),
        None => None,
    }
}

/// Seconds since the Unix epoch of an ISO 8601 timestamp such as
/// `2025-01-02T03:04:05Z`, `2025-01-02T03:04:05.123+05:30` or `2025-01-02T03:04`.
///
/// White space around the text is ignored. Date and clock fields are read as
/// decimal integers without range checks (a month of 13 counts on into the next
/// year); a missing seconds field reads as 0 and a fraction is dropped. An
/// offset `+hh:mm` is subtracted, `-hh:mm` added.
pub fn iso8601_to_epoch(s: &str) -> (r: Result<i64, ()>)
    requires
        !iso8601_overflows(s@),
    ensures
        match r {
            Ok(v) => iso8601_seconds(s@) == Some(v as int),
            Err(_) => iso8601_seconds(s@) is None,
        },
{
    match iso8601_evaluate(s) {
        Some(r) => r,
        None => Err(()),
    }
}

} // verus!
