use vstd::prelude::*;
use vstd::utf8::encode_utf8;
use crate::argparser::{str_eq, ArgValue, ParsedArgs};
use crate::config::Config;
use crate::debug::{debug_list_spec, debug_opt_list_spec, debug_opt_str_spec, debug_opt_string, debug_opt_string_list, debug_opt_usize, debug_opt_usize_spec, debug_string_list};
use crate::errors::{fails_invalid, invalid_input, ErrorView, ReeknoteError};
use crate::storage::{get_in, Storage, StorageView, StoredVal, StoredValue};
use crate::VERSION;
use crate::models::{copy_notes, note_views, opt_str, LinkedNotebook, Note, Notebook, NoteView, SearchResult, Tag, UserInfo, UserInfoView};
use crate::editor::{text_to_enml_spec, TextFormat};
use crate::strmap::{lemma_lookup_at, lemma_lookup_found, lemma_lt_irreflexive, seq_lt, sorted_keys, StrMap};
use crate::text::{chars_of, hex_spec, md5_digest, md5_hex, dec_int, join_spec, repeat_spec, chars_eq, contains, contains_spec, parse_i64_spec, push_all, push_str, slice_to_vec, split_spec, split_once_spec, string_of, string_views, trim_class, zero_padded, views, CharClass};
use crate::tools::strip_spec;

verus! {

// ---------------------------------------------------------------------------
// Dates
// ---------------------------------------------------------------------------

/// The days from 1970-01-01 to the given day of the proleptic Gregorian
/// calendar (month 1 to 12), by eras of 400 years starting in March.
#[verifier::opaque]
pub open spec fn days_from_civil_spec(year: int, month: int, day: int) -> int {
    let y = if month <= 2 { year - 1 } else { year };
    let era = y / 400;
    let yoe = y - era * 400;
    let mp = if month > 2 { month - 3 } else { month + 9 };
    let doy = (153 * mp + 2) / 5 + day - 1;
    let doe = yoe * 365 + yoe / 4 - yoe / 100 + doy;
    era * 146097 + doe - 719468
}

/// The date `days` after 1970-01-01: year, month (1 to 12) and day.
#[verifier::opaque]
pub open spec fn civil_from_days_spec(days: int) -> (int, int, int) {
    let z = days + 719468;
    let era = z / 146097;
    let doe = z - era * 146097;
    let yoe = (doe - doe / 1460 + doe / 36524 - doe / 146096) / 365;
    let y = yoe + era * 400;
    let doy = doe - (365 * yoe + yoe / 4 - yoe / 100);
    let mp = (5 * doy + 2) / 153;
    let d = doy - (153 * mp + 2) / 5 + 1;
    let m = if mp < 10 { mp + 3 } else { mp - 9 };
    (if m <= 2 { y + 1 } else { y }, m, d)
}

/// The day count of a date, in wide integers.
pub fn days_from_civil(year: i64, month: i64, day: i64) -> (res: i128)
    requires
        1 <= month <= 12,
        1 <= day <= 31,
    ensures
        res == days_from_civil_spec(year as int, month as int, day as int),
{
    reveal(days_from_civil_spec);
    let y: i128 = if month <= 2 { year as i128 - 1 } else { year as i128 };
    let era = y.checked_div_euclid(400).unwrap();
    let yoe = y - era * 400;
    let mp: i128 = if month > 2 { month as i128 - 3 } else { month as i128 + 9 };
    let doy = (153 * mp + 2) / 5 + day as i128 - 1;
    assert(0 <= yoe < 400) by {
        assert(era == y / 400);
    }
    let doe = yoe * 365 + yoe / 4 - yoe / 100 + doy;
    era * 146097 + doe - 719468
}

/// The date of a day count.
pub fn civil_from_days(days: i64) -> (res: (i64, i64, i64))
    ensures
        (res.0 as int, res.1 as int, res.2 as int) == civil_from_days_spec(days as int),
{
    reveal(civil_from_days_spec);
    let z: i128 = days as i128 + 719468;
    let era = z.checked_div_euclid(146097).unwrap();
    let doe = z - era * 146097;
    assert(0 <= doe < 146097);
    let yoe = (doe - doe / 1460 + doe / 36524 - doe / 146096) / 365;
    assert(0 <= yoe <= 400);
    let y = yoe + era * 400;
    let doy = doe - (365 * yoe + yoe / 4 - yoe / 100);
    assert(0 <= yoe / 4 <= 100);
    assert(0 <= yoe / 100 <= 4);
    assert(-146100 <= doy <= 146097);
    let mp = (5 * doy + 2) / 153;
    let d = doy - (153 * mp + 2) / 5 + 1;
    let m = if mp < 10 { mp + 3 } else { mp - 9 };
    let year = if m <= 2 { y + 1 } else { y };
    assert(i64::MIN <= year <= i64::MAX) by (nonlinear_arith)
        requires
            era == z / 146097,
            z == days + 719468,
            i64::MIN <= days <= i64::MAX,
            0 <= yoe <= 400,
            y == yoe + era * 400,
            year == y || year == y + 1,
    ;
    (year as i64, m as i64, d as i64)
}

pub open spec fn invalid(m: Seq<char>) -> ErrorView {
    ErrorView::InvalidInput(m)
}

/// A date `YYYY-MM-DD`: year, month (1 to 12) and day (1 to 31).
pub open spec fn parse_date_spec(date: Seq<char>) -> Result<(int, int, int), ErrorView> {
    let p = split_spec(date, "-"@);
    let err = invalid("incorrect date format: "@ + date);
    if p.len() != 3 {
        Err(err)
    } else {
        match (parse_i64_spec(p[0]), parse_i64_spec(p[1]), parse_i64_spec(p[2])) {
            (Some(y), Some(m), Some(d)) => if 1 <= m <= 12 && 1 <= d <= 31 {
                Ok((y as int, m as int, d as int))
            } else {
                Err(err)
            },
            _ => Err(err),
        }
    }
}

/// A time `HH:MM`: hour (0 to 23) and minute (0 to 59).
pub open spec fn parse_time_spec(time: Seq<char>) -> Result<(int, int), ErrorView> {
    let p = split_spec(time, ":"@);
    let err = invalid("incorrect time format: "@ + time);
    if p.len() != 2 {
        Err(err)
    } else {
        match (parse_i64_spec(p[0]), parse_i64_spec(p[1])) {
            (Some(h), Some(m)) => if 0 <= h <= 23 && 0 <= m <= 59 {
                Ok((h as int, m as int))
            } else {
                Err(err)
            },
            _ => Err(err),
        }
    }
}

fn invalid_with(prefix: &str, value: &[char]) -> (e: ReeknoteError)
    ensures
        e@ == invalid(prefix@ + value@),
{
    let mut m = chars_of(prefix);
    push_all(&mut m, value);
    ReeknoteError::InvalidInput(string_of(m.as_slice()))
}

fn parse_date(date: &[char]) -> (res: Result<(i64, i64, i64), ReeknoteError>)
    ensures
        match parse_date_spec(date@) {
            Ok((y, m, d)) => res matches Ok(r) && r.0 == y && r.1 == m && r.2 == d,
            Err(e) => res matches Err(x) && x@ == e,
        },
{
    let dash = chars_of("-");
    proof {
        reveal_strlit("-");
    }
    let parts = crate::text::split(date, dash.as_slice());
    assert(views(parts@) == split_spec(date@, "-"@));
    if parts.len() != 3 {
        return Err(invalid_with("incorrect date format: ", date));
    }
    assert(views(parts@)[0] == parts@[0]@ && views(parts@)[1] == parts@[1]@ && views(parts@)[2] == parts@[2]@);
    match (crate::text::parse_i64(parts[0].as_slice()), crate::text::parse_i64(parts[1].as_slice()), crate::text::parse_i64(parts[2].as_slice())) {
        (Some(y), Some(m), Some(d)) => {
            if 1 <= m && m <= 12 && 1 <= d && d <= 31 {
                Ok((y, m, d))
            } else {
                Err(invalid_with("incorrect date format: ", date))
            }
        },
        _ => Err(invalid_with("incorrect date format: ", date)),
    }
}

fn parse_time(time: &[char]) -> (res: Result<(i64, i64), ReeknoteError>)
    ensures
        match parse_time_spec(time@) {
            Ok((h, m)) => res matches Ok(r) && r.0 == h && r.1 == m,
            Err(e) => res matches Err(x) && x@ == e,
        },
{
    let colon = chars_of(":");
    proof {
        reveal_strlit(":");
    }
    let parts = crate::text::split(time, colon.as_slice());
    if parts.len() != 2 {
        return Err(invalid_with("incorrect time format: ", time));
    }
    assert(views(parts@)[0] == parts@[0]@ && views(parts@)[1] == parts@[1]@);
    match (crate::text::parse_i64(parts[0].as_slice()), crate::text::parse_i64(parts[1].as_slice())) {
        (Some(h), Some(m)) => {
            if 0 <= h && h <= 23 && 0 <= m && m <= 59 {
                Ok((h, m))
            } else {
                Err(invalid_with("incorrect time format: ", time))
            }
        },
        _ => Err(invalid_with("incorrect time format: ", time)),
    }
}

/// The time in milliseconds of a date `YYYY-MM-DD` or `YYYY-MM-DD HH:MM`, one
/// second into the minute.
#[verifier::opaque]
pub open spec fn time_from_date_spec(date: Seq<char>) -> Result<int, ErrorView> {
    match split_once_spec(date, " "@) {
        Some((dp, tp)) => match parse_date_spec(dp) {
            Err(e) => Err(e),
            Ok((y, m, d)) => match parse_time_spec(tp) {
                Err(e) => Err(e),
                Ok((h, mi)) => Ok((days_from_civil_spec(y, m, d) * 86400 + h * 3600 + mi * 60 + 1) * 1000),
            },
        },
        None => match parse_date_spec(date) {
            Err(e) => Err(e),
            Ok((y, m, d)) => Ok((days_from_civil_spec(y, m, d) * 86400 + 1) * 1000),
        },
    }
}

/// The time of `date` fits in an `i64`, plus `extra` milliseconds.
pub open spec fn time_fits(date: Seq<char>, extra: int) -> bool {
    time_from_date_spec(date) matches Ok(t) ==> i64::MIN <= t + extra <= i64::MAX
}

proof fn lemma_days_bound(year: int, month: int, day: int)
    requires
        i64::MIN <= year <= i64::MAX,
        1 <= month <= 12,
        1 <= day <= 31,
    ensures
        -0x1_0000_0000_0000_0000_0000 <= days_from_civil_spec(year, month, day) <= 0x1_0000_0000_0000_0000_0000,
{
    reveal(days_from_civil_spec);
    let y = if month <= 2 { year - 1 } else { year };
    let era = y / 400;
    assert(-0x1_0000_0000_0000_0000 <= era <= 0x1_0000_0000_0000_0000);
}

/// The time in milliseconds of a date, with an optional time of day, in a
/// type wide enough for any date.
fn time_from_date_wide(date: &str) -> (res: Result<i128, ReeknoteError>)
    ensures
        match time_from_date_spec(date@) {
            Ok(t) => res == Ok::<i128, ReeknoteError>(t as i128) && -0x1_0000_0000_0000_0000_0000_0000_0000 <= t
                <= 0x1_0000_0000_0000_0000_0000_0000_0000,
            Err(e) => res matches Err(x) && x@ == e,
        },
{
    reveal(time_from_date_spec);
    let c = chars_of(date);
    let sp = chars_of(" ");
    match crate::text::split_once(c.as_slice(), sp.as_slice()) {
        Some((dp, tp)) => {
            let (y, m, d) = match parse_date(dp.as_slice()) {
                Ok(v) => v,
                Err(e) => return Err(e),
            };
            let (h, mi) = match parse_time(tp.as_slice()) {
                Ok(v) => v,
                Err(e) => return Err(e),
            };
            let days = days_from_civil(y, m, d);
            proof {
                lemma_days_bound(y as int, m as int, d as int);
            }
            let t: i128 = (days * 86400 + h as i128 * 3600 + mi as i128 * 60 + 1) * 1000;
            Ok(t)
        },
        None => {
            let (y, m, d) = match parse_date(c.as_slice()) {
                Ok(v) => v,
                Err(e) => return Err(e),
            };
            let days = days_from_civil(y, m, d);
            proof {
                lemma_days_bound(y as int, m as int, d as int);
            }
            let t: i128 = (days * 86400 + 1) * 1000;
            Ok(t)
        },
    }
}

/// The time in milliseconds of a date, with an optional time of day.
pub fn get_time_from_date(date: &str) -> (res: Result<i64, ReeknoteError>)
    requires
        time_fits(date@, 0),
    ensures
        match time_from_date_spec(date@) {
            Ok(t) => res == Ok::<i64, ReeknoteError>(t as i64),
            Err(e) => res matches Err(x) && x@ == e,
        },
{
    match time_from_date_wide(date) {
        Ok(t) => Ok(t as i64),
        Err(e) => Err(e),
    }
}

/// Whether the time of `date`, `extra` milliseconds later, fits in an `i64`
/// (as it does, vacuously, for a date that is refused).
pub fn time_in_range(date: &str, extra: i64) -> (b: bool)
    ensures
        b == time_fits(date@, extra as int),
{
    match time_from_date_wide(date) {
        Ok(t) => {
            let u: i128 = t + extra as i128;
            -9_223_372_036_854_775_808i128 <= u && u <= 9_223_372_036_854_775_807i128
        },
        Err(_) => true,
    }
}

/// A text without spaces is split at the space put after it.
proof fn lemma_split_at_added_space(date: Seq<char>, time: Seq<char>)
    requires
        !date.contains(' '),
    ensures
        split_once_spec(date + " "@ + time, " "@) == Some((date, time)),
        split_once_spec(date, " "@) is None,
{
    reveal_strlit(" ");
    let s = date + " "@ + time;
    crate::text::lemma_find_from(s, " "@, 0);
    crate::text::lemma_find_from(date, " "@, 0);
    assert(crate::text::matches_at(s, date.len() as int, " "@)) by {
        assert(s.subrange(date.len() as int, date.len() + 1int) =~= " "@);
    }
    assert forall|k: int| 0 <= k < date.len() implies !crate::text::matches_at(s, k, " "@) by {
        if crate::text::matches_at(s, k, " "@) {
            assert(s.subrange(k, k + 1)[0] == ' ');
            assert(date[k] == ' ');
        }
    }
    if let Some(j) = crate::text::find_from(date, " "@, 0) {
        assert(date.subrange(j, j + 1)[0] == ' ');
        assert(date[j] == ' ');
    }
    assert(s.take(date.len() as int) =~= date);
    assert(s.skip(date.len() + 1int) =~= time);
}

/// A time of day adds its hours and minutes to its date (the times being
/// those `get_time_from_date` gives): where `date` holds no space and `time`
/// reads as hour `h` and minute `mi`, the time of `date + " " + time` is that
/// of `date` plus `h` hours and `mi` minutes, and where `date` is refused,
/// both are refused alike.
pub proof fn lemma_time_of_day_adds(date: Seq<char>, time: Seq<char>, h: int, mi: int)
    requires
        !date.contains(' '),
        parse_time_spec(time) == Ok::<(int, int), ErrorView>((h, mi)),
    ensures
        match (time_from_date_spec(date + " "@ + time), time_from_date_spec(date)) {
            (Ok(t), Ok(t0)) => t == t0 + (h * 3600 + mi * 60) * 1000,
            (Err(e), Err(e0)) => e == e0,
            _ => false,
        },
{
    reveal(time_from_date_spec);
    lemma_split_at_added_space(date, time);
}

/// A character is first found just after a text that does not hold it.
proof fn lemma_find_char_after(a: Seq<char>, c: char, b: Seq<char>)
    requires
        forall|i: int| 0 <= i < a.len() ==> a[i] != c,
    ensures
        crate::text::find_spec(a + seq![c] + b, seq![c]) == Some(a.len() as int),
        crate::text::find_spec(a, seq![c]) is None,
{
    let s = a + seq![c] + b;
    crate::text::lemma_find_from(s, seq![c], 0);
    crate::text::lemma_find_from(a, seq![c], 0);
    assert(crate::text::matches_at(s, a.len() as int, seq![c])) by {
        assert(s.subrange(a.len() as int, a.len() + 1int) =~= seq![c]);
    }
    assert forall|k: int| 0 <= k < a.len() implies !crate::text::matches_at(s, k, seq![c]) by {
        if crate::text::matches_at(s, k, seq![c]) {
            assert(s.subrange(k, k + 1)[0] == s[k]);
        }
    }
    if let Some(j) = crate::text::find_from(a, seq![c], 0) {
        assert(a.subrange(j, j + 1)[0] == a[j]);
    }
}

/// The date `1970-01-01` is one second after the epoch, in milliseconds.
pub proof fn lemma_epoch_date()
    ensures
        time_from_date_spec("1970-01-01"@) == Ok::<int, ErrorView>(1000),
{
    reveal(time_from_date_spec);
    reveal(days_from_civil_spec);
    reveal_strlit("1970-01-01");
    reveal_strlit("-");
    reveal_strlit(" ");
    let s = "1970-01-01"@;
    let y = seq!['1', '9', '7', '0'];
    let m = seq!['0', '1'];
    let rest = m + seq!['-'] + m;
    assert(s =~= y + seq!['-'] + rest);
    assert("-"@ =~= seq!['-']);
    assert(" "@ =~= seq![' ']);
    lemma_find_char_after(s, ' ', Seq::empty());
    assert(split_once_spec(s, " "@) is None);
    lemma_find_char_after(y, '-', rest);
    lemma_find_char_after(m, '-', m);
    assert(split_spec(m, "-"@) == seq![m]);
    assert((y + seq!['-'] + rest).take(4) =~= y);
    assert((y + seq!['-'] + rest).skip(5) =~= rest);
    assert((m + seq!['-'] + m).take(2) =~= m);
    assert((m + seq!['-'] + m).skip(3) =~= m);
    assert(split_spec(rest, "-"@) =~= seq![m, m]);
    assert(split_spec(s, "-"@) =~= seq![y, m, m]);
    assert(crate::text::digits_value(seq!['1']) == 1) by {
        assert(seq!['1'].drop_last() =~= Seq::<char>::empty());
        assert(crate::text::digits_value(Seq::<char>::empty()) == 0);
        assert(seq!['1'].last() == '1');
    }
    assert(crate::text::digits_value(seq!['1', '9']) == 19) by {
        assert(seq!['1', '9'].drop_last() =~= seq!['1']);
    }
    assert(crate::text::digits_value(seq!['1', '9', '7']) == 197) by {
        assert(seq!['1', '9', '7'].drop_last() =~= seq!['1', '9']);
    }
    assert(crate::text::digits_value(y) == 1970) by {
        assert(y.drop_last() =~= seq!['1', '9', '7']);
    }
    assert(crate::text::digits_value(seq!['0']) == 0) by {
        assert(seq!['0'].drop_last() =~= Seq::<char>::empty());
        assert(crate::text::digits_value(Seq::<char>::empty()) == 0);
        assert(seq!['0'].last() == '0');
    }
    assert(crate::text::digits_value(m) == 1) by {
        assert(m.drop_last() =~= seq!['0']);
    }
    assert(parse_i64_spec(y) == Some(1970i64));
    assert(parse_i64_spec(m) == Some(1i64));
    assert(parse_date_spec(s) == Ok::<(int, int, int), ErrorView>((1970, 1, 1)));
    assert(days_from_civil_spec(1970, 1, 1) == 0);
}

/// A time in Evernote's search syntax: `YYYYMMDDTHHMM00Z`.
#[verifier::opaque]
pub open spec fn evernote_time_spec(ts: int) -> Seq<char> {
    let seconds = ts / 1000;
    let days = seconds / 86400;
    let sod = seconds % 86400;
    let (y, m, d) = civil_from_days_spec(days);
    zero_padded(y, 4) + zero_padded(m, 2) + zero_padded(d, 2) + "T"@ + zero_padded(sod / 3600, 2) + zero_padded(
        (sod % 3600) / 60,
        2,
    ) + "00Z"@
}

pub fn format_evernote_time(timestamp_ms: i64) -> (res: String)
    ensures
        res@ == evernote_time_spec(timestamp_ms as int),
{
    reveal(evernote_time_spec);
    let seconds = timestamp_ms.checked_div_euclid(1000).unwrap();
    let days = seconds.checked_div_euclid(86400).unwrap();
    let sod = seconds.checked_rem_euclid(86400).unwrap();
    let hour = sod / 3600;
    let minute = (sod % 3600) / 60;
    let (y, m, d) = civil_from_days(days);
    let mut out: Vec<char> = Vec::new();
    crate::text::push_zero_padded(&mut out, y, 4);
    crate::text::push_zero_padded(&mut out, m, 2);
    crate::text::push_zero_padded(&mut out, d, 2);
    out.push('T');
    crate::text::push_zero_padded(&mut out, hour, 2);
    crate::text::push_zero_padded(&mut out, minute, 2);
    push_str(&mut out, "00Z");
    proof {
        reveal_strlit("T");
    }
    assert(out@ =~= evernote_time_spec(timestamp_ms as int));
    string_of(out.as_slice())
}


// ---------------------------------------------------------------------------
// Search requests
// ---------------------------------------------------------------------------

/// The view of an optional string slice.
pub open spec fn opt_seq(o: Option<&str>) -> Option<Seq<char>> {
    match o {
        Some(s) => Some(s@),
        None => None,
    }
}

/// `label:value ` in Evernote's search grammar: a leading `-` on the value
/// negates the whole expression, the rest is stripped, and a value with a
/// space in it is quoted.
pub open spec fn format_expression_spec(label: Seq<char>, value: Seq<char>) -> Seq<char> {
    let neg = value.len() > 0 && value[0] == '-';
    let v = strip_spec(if neg { value.skip(1) } else { value });
    let q = if contains_spec(v, " "@) { "\""@ + v + "\""@ } else { v };
    (if neg { "-"@ } else { Seq::empty() }) + label + ":"@ + q + " "@
}

fn format_expression(label: &str, value: &str) -> (res: String)
    ensures
        res@ == format_expression_spec(label@, value@),
{
    let v = chars_of(value);
    let mut out: Vec<char> = Vec::new();
    let neg = v.len() > 0 && v[0] == '-';
    let rest = if neg {
        out.push('-');
        slice_to_vec(v.as_slice(), 1, v.len())
    } else {
        slice_to_vec(v.as_slice(), 0, v.len())
    };
    assert(v@.subrange(0, v@.len() as int) =~= v@);
    assert(v@.subrange(1, v@.len() as int) =~= v@.skip(1));
    let stripped = trim_class(rest.as_slice(), CharClass::Wrapping);
    push_str(&mut out, label);
    out.push(':');
    let sp = chars_of(" ");
    if contains(stripped.as_slice(), sp.as_slice()) {
        out.push('"');
        push_all(&mut out, stripped.as_slice());
        out.push('"');
    } else {
        push_all(&mut out, stripped.as_slice());
    }
    out.push(' ');
    proof {
        reveal_strlit("-");
        reveal_strlit(":");
        reveal_strlit(" ");
        reveal_strlit("\"");
    }
    assert(out@ =~= format_expression_spec(label@, value@));
    string_of(out.as_slice())
}

/// `tag:name ` for each tag, in order.
pub open spec fn tag_expressions(tags: Seq<Seq<char>>) -> Seq<char>
    decreases tags.len(),
{
    if tags.len() == 0 {
        Seq::empty()
    } else {
        tag_expressions(tags.drop_last()) + format_expression_spec("tag"@, tags.last())
    }
}

/// The parts of a `--date` value: split at `/`, each stripped.
pub open spec fn date_parts(date: Seq<char>) -> Seq<Seq<char>> {
    split_spec(date, "/"@).map_values(|p: Seq<char>| strip_spec(p))
}

/// The `created:` clauses of a date or a date range `from/to`; the range
/// ends after the whole of its last day.
#[verifier::opaque]
pub open spec fn date_clause_spec(date: Seq<char>) -> Result<Seq<char>, ErrorView> {
    let parts = date_parts(date);
    if parts.len() == 0 || parts.len() > 2 {
        Err(invalid("incorrect date format ("@ + date + ") in --date attribute"@))
    } else {
        match time_from_date_spec(parts[0]) {
            Err(e) => Err(e),
            Ok(t0) => {
                let first = "created:"@ + evernote_time_spec(t0) + " "@;
                if parts.len() == 2 {
                    match time_from_date_spec(parts[1]) {
                        Err(e) => Err(e),
                        Ok(t1) => Ok(first + "-created:"@ + evernote_time_spec(t1 + 86_400_000) + " "@),
                    }
                } else {
                    Ok(first)
                }
            },
        }
    }
}

/// The times of a `--date` value fit in an `i64`, the end of a range with
/// its extra day.
pub open spec fn date_fits(date: Seq<char>) -> bool {
    let parts = date_parts(date);
    &&& (parts.len() > 0 ==> time_fits(parts[0], 0))
    &&& (parts.len() == 2 ==> time_fits(parts[1], 0) && time_fits(parts[1], 86_400_000))
}

/// The search text of a request: stripped, quoted for an exact entry, and
/// looked for in titles unless the content is searched.
pub open spec fn search_text_spec(search: Seq<char>, exact_entry: bool, content_search: bool) -> Seq<char> {
    let s = strip_spec(search);
    let q = if exact_entry { "\""@ + s + "\""@ } else { s };
    if content_search { q } else { "intitle:"@ + q }
}

/// An Evernote search request: notebook, tags, date range, text, then the
/// reminder filters.
pub open spec fn search_request_spec(
    search: Option<Seq<char>>,
    tags: Seq<Seq<char>>,
    notebook: Option<Seq<char>>,
    date: Option<Seq<char>>,
    exact_entry: bool,
    content_search: bool,
    ignore_completed: bool,
    reminders_only: bool,
) -> Result<Seq<char>, ErrorView> {
    let head = match notebook {
        Some(n) => format_expression_spec("notebook"@, n),
        None => Seq::empty(),
    } + tag_expressions(tags);
    let dc = match date {
        Some(d) => date_clause_spec(d),
        None => Ok(Seq::empty()),
    };
    match dc {
        Err(e) => Err(e),
        Ok(dc) => {
            let text = match search {
                Some(s) => search_text_spec(s, exact_entry, content_search),
                None => Seq::empty(),
            };
            Ok(head + dc + text + (if reminders_only { " reminderOrder:* "@ } else { Seq::empty() }) + (
            if ignore_completed {
                " -reminderDoneTime:* "@
            } else {
                Seq::empty()
            }))
        },
    }
}

/// A text holds a space exactly where the search for one finds it.
proof fn lemma_contains_space(v: Seq<char>)
    ensures
        contains_spec(v, " "@) <==> v.contains(' '),
{
    reveal_strlit(" ");
    crate::text::lemma_find_from(v, " "@, 0);
    if v.contains(' ') {
        let i = choose|i: int| 0 <= i < v.len() && v[i] == ' ';
        assert(crate::text::matches_at(v, i, " "@)) by {
            assert(v.subrange(i, i + 1) =~= " "@);
        }
    }
    if let Some(j) = crate::text::find_spec(v, " "@) {
        assert(v.subrange(j, j + 1)[0] == v[j]);
    }
}

/// The clause that a `label` filter with `value` adds to a search request:
/// an optional `-` (when the value starts with one), the label, `:`, then the
/// stripped value, between double quotes exactly when it holds a space, and
/// a space.
pub proof fn lemma_filter_clause(label: Seq<char>, value: Seq<char>)
    ensures
        ({
            let neg = value.len() > 0 && value[0] == '-';
            let v = strip_spec(if neg { value.skip(1) } else { value });
            let sign = if neg { seq!['-'] } else { Seq::<char>::empty() };
            &&& v.contains(' ') ==> format_expression_spec(label, value) == sign + label + seq![':', '"'] + v + seq!['"', ' ']
            &&& !v.contains(' ') ==> format_expression_spec(label, value) == sign + label + seq![':'] + v + seq![' ']
        }),
{
    reveal_strlit(":");
    reveal_strlit("\"");
    reveal_strlit(" ");
    reveal_strlit("-");
    let neg = value.len() > 0 && value[0] == '-';
    let v = strip_spec(if neg { value.skip(1) } else { value });
    lemma_contains_space(v);
    assert(seq![':', '"'] =~= ":"@ + "\""@);
    assert(seq!['"', ' '] =~= "\""@ + " "@);
    if v.contains(' ') {
        assert(format_expression_spec(label, value) =~= (if neg { seq!['-'] } else { Seq::<char>::empty() }) + label
            + seq![':', '"'] + v + seq!['"', ' ']);
    } else {
        assert(format_expression_spec(label, value) =~= (if neg { seq!['-'] } else { Seq::<char>::empty() }) + label
            + seq![':'] + v + seq![' ']);
    }
}

/// A search request starts with its notebook clause: for a notebook whose
/// stripped name holds a space, `notebook:` and the name between double
/// quotes (after a `-` for an excluded notebook).
pub proof fn lemma_request_quotes_notebook(
    search: Option<Seq<char>>,
    tags: Seq<Seq<char>>,
    notebook: Seq<char>,
    date: Option<Seq<char>>,
    exact_entry: bool,
    content_search: bool,
    ignore_completed: bool,
    reminders_only: bool,
)
    requires
        notebook.len() == 0 || notebook[0] != '-',
        strip_spec(notebook).contains(' '),
    ensures
        search_request_spec(search, tags, Some(notebook), date, exact_entry, content_search, ignore_completed, reminders_only)
            matches Ok(r) ==> ({
            let clause = "notebook:\""@ + strip_spec(notebook) + "\" "@;
            r.len() >= clause.len() && r.take(clause.len() as int) == clause
        }),
{
    reveal_strlit("notebook:\"");
    reveal_strlit("\" ");
    reveal_strlit("notebook");
    lemma_filter_clause("notebook"@, notebook);
    let clause = "notebook:\""@ + strip_spec(notebook) + "\" "@;
    assert(clause =~= "notebook"@ + seq![':', '"'] + strip_spec(notebook) + seq!['"', ' ']);
    if let Ok(r) = search_request_spec(search, tags, Some(notebook), date, exact_entry, content_search, ignore_completed, reminders_only) {
        let f = format_expression_spec("notebook"@, notebook);
        assert(f == Seq::<char>::empty() + "notebook"@ + seq![':', '"'] + strip_spec(notebook) + seq!['"', ' ']);
        assert(f =~= clause);
        let rest = r.skip(f.len() as int);
        assert(r =~= f + rest);
        assert(r.take(clause.len() as int) =~= clause);
    }
}

/// Every tag filter whose stripped value holds a space (and that does not
/// start with `-`) appears in the tag clauses as `tag:` and the value between
/// double quotes.
pub proof fn lemma_tag_clauses_quote(tags: Seq<Seq<char>>, i: int)
    requires
        0 <= i < tags.len(),
        tags[i].len() == 0 || tags[i][0] != '-',
        strip_spec(tags[i]).contains(' '),
    ensures
        ({
            let clause = "tag:\""@ + strip_spec(tags[i]) + "\" "@;
            exists|p: int|
                0 <= p && p + clause.len() <= tag_expressions(tags).len() && #[trigger] tag_expressions(tags).subrange(
                    p,
                    p + clause.len(),
                ) == clause
        }),
    decreases tags.len(),
{
    reveal_strlit("tag:\"");
    reveal_strlit("\" ");
    reveal_strlit("tag");
    let clause = "tag:\""@ + strip_spec(tags[i]) + "\" "@;
    let all = tag_expressions(tags);
    let init = tags.drop_last();
    if i < tags.len() - 1 {
        assert(init[i] == tags[i]);
        lemma_tag_clauses_quote(init, i);
        let prev = tag_expressions(init);
        let p = choose|p: int|
            0 <= p && p + clause.len() <= prev.len() && #[trigger] prev.subrange(p, p + clause.len()) == clause;
        assert(all == prev + format_expression_spec("tag"@, tags.last()));
        assert(all.subrange(p, p + clause.len()) =~= prev.subrange(p, p + clause.len()));
    } else {
        lemma_filter_clause("tag"@, tags[i]);
        let prev = tag_expressions(init);
        let f = format_expression_spec("tag"@, tags[i]);
        assert(f == Seq::<char>::empty() + "tag"@ + seq![':', '"'] + strip_spec(tags[i]) + seq!['"', ' ']);
        assert(f =~= clause);
        assert(all == prev + f);
        let p = prev.len() as int;
        assert(all.subrange(p, p + clause.len()) =~= clause);
    }
}

/// The parts of a `--date` value: split at `/`, each stripped.
fn date_parts_exec(date: &str) -> (parts: Vec<String>)
    ensures
        parts@.len() == date_parts(date@).len(),
        forall|j: int| 0 <= j < parts@.len() ==> #[trigger] parts@[j]@ == date_parts(date@)[j],
{
    let d = chars_of(date);
    let slash = chars_of("/");
    proof {
        reveal_strlit("/");
    }
    let raw = crate::text::split(d.as_slice(), slash.as_slice());
    let mut parts: Vec<String> = Vec::new();
    let mut i: usize = 0;
    while i < raw.len()
        invariant
            i <= raw.len(),
            views(raw@) == split_spec(date@, "/"@),
            parts@.len() == i,
            forall|j: int| 0 <= j < i ==> #[trigger] parts@[j]@ == date_parts(date@)[j],
        decreases raw.len() - i,
    {
        assert(views(raw@)[i as int] == raw@[i as int]@);
        let t = trim_class(raw[i].as_slice(), CharClass::Wrapping);
        parts.push(string_of(t.as_slice()));
        i += 1;
    }
    parts
}

/// Whether the times of a `--date` value fit in an `i64`, the end of a range
/// with its extra day.
pub fn date_in_range(date: &str) -> (b: bool)
    ensures
        b == date_fits(date@),
{
    let parts = date_parts_exec(date);
    if parts.len() > 0 && !time_in_range(parts[0].as_str(), 0) {
        return false;
    }
    if parts.len() == 2 {
        time_in_range(parts[1].as_str(), 0) && time_in_range(parts[1].as_str(), 86_400_000)
    } else {
        true
    }
}

fn date_clause(date: &str) -> (res: Result<Vec<char>, ReeknoteError>)
    requires
        date_fits(date@),
    ensures
        match date_clause_spec(date@) {
            Ok(c) => res matches Ok(r) && r@ == c,
            Err(e) => res matches Err(x) && x@ == e,
        },
{
    reveal(date_clause_spec);
    let parts = date_parts_exec(date);
    if parts.len() == 0 || parts.len() > 2 {
        let mut m = chars_of("incorrect date format (");
        push_str(&mut m, date);
        push_str(&mut m, ") in --date attribute");
        return Err(ReeknoteError::InvalidInput(string_of(m.as_slice())));
    }
    let t0 = match get_time_from_date(parts[0].as_str()) {
        Ok(t) => t,
        Err(e) => return Err(e),
    };
    let mut out = chars_of("created:");
    push_str(&mut out, format_evernote_time(t0).as_str());
    out.push(' ');
    if parts.len() == 2 {
        let t1 = match get_time_from_date(parts[1].as_str()) {
            Ok(t) => t,
            Err(e) => return Err(e),
        };
        push_str(&mut out, "-created:");
        push_str(&mut out, format_evernote_time(t1 + 86_400_000).as_str());
        out.push(' ');
    }
    proof {
        reveal_strlit(" ");
    }
    Ok(out)
}

/// The text of `tag:` expressions for `tags`.
fn push_tag_expressions(out: &mut Vec<char>, tags: &[String])
    ensures
        final(out)@ == old(out)@ + tag_expressions(string_views(tags@)),
{
    let mut i: usize = 0;
    while i < tags.len()
        invariant
            i <= tags.len(),
            out@ == old(out)@ + tag_expressions(string_views(tags@).take(i as int)),
        decreases tags.len() - i,
    {
        let e = format_expression("tag", tags[i].as_str());
        push_str(out, e.as_str());
        assert(string_views(tags@).take(i + 1).drop_last() =~= string_views(tags@).take(i as int));
        i += 1;
    }
    assert(string_views(tags@).take(tags.len() as int) =~= string_views(tags@));
}

fn push_search_text(out: &mut Vec<char>, search: &str, exact_entry: bool, content_search: bool)
    ensures
        final(out)@ == old(out)@ + search_text_spec(search@, exact_entry, content_search),
{
    let sv = chars_of(search);
    let st = trim_class(sv.as_slice(), CharClass::Wrapping);
    if !content_search {
        push_str(out, "intitle:");
    }
    if exact_entry {
        out.push('"');
        push_all(out, st.as_slice());
        out.push('"');
    } else {
        push_all(out, st.as_slice());
    }
    proof {
        reveal_strlit("\"");
    }
    assert(out@ =~= old(out)@ + search_text_spec(search@, exact_entry, content_search));
}

pub struct NotesService;

impl NotesService {
    /// The Evernote search request for the given filters; an error for a
    /// malformed date or date range.
    pub fn create_search_request(
        search: Option<&str>,
        tags: &[String],
        notebook: Option<&str>,
        date: Option<&str>,
        exact_entry: bool,
        content_search: bool,
        ignore_completed: bool,
        reminders_only: bool,
    ) -> (res: Result<String, ReeknoteError>)
        requires
            date matches Some(d) ==> date_fits(d@),
        ensures
            match search_request_spec(
                opt_seq(search),
                string_views(tags@),
                opt_seq(notebook),
                opt_seq(date),
                exact_entry,
                content_search,
                ignore_completed,
                reminders_only,
            ) {
                Ok(r) => res matches Ok(x) && x@ == r,
                Err(e) => res matches Err(x) && x@ == e,
            },
    {
        let ghost head = match opt_seq(notebook) {
            Some(n) => format_expression_spec("notebook"@, n),
            None => Seq::empty(),
        } + tag_expressions(string_views(tags@));
        let mut out: Vec<char> = Vec::new();
        if let Some(n) = notebook {
            push_str(&mut out, format_expression("notebook", n).as_str());
        }
        push_tag_expressions(&mut out, tags);
        assert(out@ == head);
        let ghost mut dc: Seq<char> = Seq::empty();
        if let Some(d) = date {
            match date_clause(d) {
                Ok(c) => {
                    push_all(&mut out, c.as_slice());
                    proof {
                        dc = c@;
                    }
                },
                Err(e) => return Err(e),
            }
        }
        assert(out@ == head + dc);
        let ghost text = match opt_seq(search) {
            Some(s) => search_text_spec(s, exact_entry, content_search),
            None => Seq::<char>::empty(),
        };
        if let Some(s) = search {
            push_search_text(&mut out, s, exact_entry, content_search);
        }
        assert(out@ == head + dc + text);
        if reminders_only {
            push_str(&mut out, " reminderOrder:* ");
        }
        if ignore_completed {
            push_str(&mut out, " -reminderDoneTime:* ");
        }
        assert(out@ =~= head + dc + text + (if reminders_only { " reminderOrder:* "@ } else { Seq::empty() }) + (
        if ignore_completed {
            " -reminderDoneTime:* "@
        } else {
            Seq::empty()
        }));
        Ok(string_of(out.as_slice()))
    }
}


// ---------------------------------------------------------------------------
// Reminders and note input
// ---------------------------------------------------------------------------

/// A reminder as the user gave it: at a time in milliseconds, without a
/// time (`NONE`), done, or deleted.
#[derive(Clone, Copy, Debug, PartialEq, Eq, Structural)]
pub enum ReminderValue {
    Timestamp(i64),
    NoTime,
    Done,
    Delete,
}

/// A reminder word or date: `TOMORROW` and `WEEK` count from `now_ms`,
/// `NONE`, `DONE` and `DELETE` stand for themselves, anything else is a date.
pub open spec fn parse_reminder_spec(reminder: Seq<char>, now_ms: int) -> Result<ReminderValue, ErrorView> {
    if reminder == "TOMORROW"@ {
        Ok(ReminderValue::Timestamp((now_ms + 86_400_000) as i64))
    } else if reminder == "WEEK"@ {
        Ok(ReminderValue::Timestamp((now_ms + 604_800_000) as i64))
    } else if reminder == "NONE"@ {
        Ok(ReminderValue::NoTime)
    } else if reminder == "DONE"@ {
        Ok(ReminderValue::Done)
    } else if reminder == "DELETE"@ {
        Ok(ReminderValue::Delete)
    } else {
        match time_from_date_spec(reminder) {
            Ok(t) => Ok(ReminderValue::Timestamp(t as i64)),
            Err(e) => Err(e),
        }
    }
}

/// The time that a reminder stands for fits in an `i64`.
pub open spec fn reminder_fits(reminder: Seq<char>, now_ms: int) -> bool {
    &&& (reminder == "TOMORROW"@ ==> now_ms + 86_400_000 <= i64::MAX)
    &&& (reminder == "WEEK"@ ==> now_ms + 604_800_000 <= i64::MAX)
    &&& time_fits(reminder, 0)
}

/// Whether the time that a reminder stands for fits in an `i64`.
pub fn reminder_in_range(reminder: &str, now_ms: i64) -> (b: bool)
    ensures
        b == reminder_fits(reminder@, now_ms as int),
{
    proof {
        reveal_strlit("TOMORROW");
        reveal_strlit("WEEK");
    }
    if str_eq(reminder, "TOMORROW") && now_ms > i64::MAX - 86_400_000 {
        return false;
    }
    if str_eq(reminder, "WEEK") && now_ms > i64::MAX - 604_800_000 {
        return false;
    }
    time_in_range(reminder, 0)
}

/// The reminder that `reminder` stands for, `now_ms` being the time now.
pub fn parse_reminder(reminder: &str, now_ms: i64) -> (res: Result<ReminderValue, ReeknoteError>)
    requires
        reminder_fits(reminder@, now_ms as int),
    ensures
        match parse_reminder_spec(reminder@, now_ms as int) {
            Ok(v) => res == Ok::<ReminderValue, ReeknoteError>(v),
            Err(e) => res matches Err(x) && x@ == e,
        },
{
    let r = chars_of(reminder);
    if let Some(offset) = crate::config::reminder_shortcut(reminder) {
        return Ok(ReminderValue::Timestamp(now_ms + offset));
    }
    if chars_eq(r.as_slice(), chars_of("NONE").as_slice()) {
        Ok(ReminderValue::NoTime)
    } else if chars_eq(r.as_slice(), chars_of("DONE").as_slice()) {
        Ok(ReminderValue::Done)
    } else if chars_eq(r.as_slice(), chars_of("DELETE").as_slice()) {
        Ok(ReminderValue::Delete)
    } else {
        match get_time_from_date(reminder) {
            Ok(t) => Ok(ReminderValue::Timestamp(t)),
            Err(e) => Err(e),
        }
    }
}

/// A note to create or update, as the command line gave it.
#[derive(Clone, Debug, Default, PartialEq, Eq)]
pub struct ParsedNoteInput {
    pub title: Option<String>,
    pub content: Option<String>,
    pub tags: Vec<String>,
    pub created: Option<i64>,
    pub notebook: Option<String>,
    pub resources: Vec<String>,
    pub reminder: Option<ReminderValue>,
    pub url: Option<String>,
}

pub ghost struct ParsedNoteInputView {
    pub title: Option<Seq<char>>,
    pub content: Option<Seq<char>>,
    pub tags: Seq<Seq<char>>,
    pub created: Option<i64>,
    pub notebook: Option<Seq<char>>,
    pub resources: Seq<Seq<char>>,
    pub reminder: Option<ReminderValue>,
    pub url: Option<Seq<char>>,
}

impl View for ParsedNoteInput {
    type V = ParsedNoteInputView;

    open spec fn view(&self) -> ParsedNoteInputView {
        ParsedNoteInputView {
            title: opt_str(self.title),
            content: opt_str(self.content),
            tags: string_views(self.tags@),
            created: self.created,
            notebook: opt_str(self.notebook),
            resources: string_views(self.resources@),
            reminder: self.reminder,
            url: opt_str(self.url),
        }
    }
}

pub open spec fn opt_strip(o: Option<Seq<char>>) -> Option<Seq<char>> {
    match o {
        Some(v) => Some(strip_spec(v)),
        None => None,
    }
}

/// The input of `note create` and `note edit`.  Titles, tags, notebook and
/// resources are stripped; the title and URL default to those of `note`; with
/// nothing at all to change, the content becomes `WRITE` (open the editor);
/// any other content is converted from Markdown to ENML, read from the file it
/// names where it names one (`loaded` is that file's text).  A bad creation
/// date or reminder is an error, the date first.
pub open spec fn parse_input_spec(
    title: Option<Seq<char>>,
    content: Option<Seq<char>>,
    tags: Seq<Seq<char>>,
    created: Option<Seq<char>>,
    notebook: Option<Seq<char>>,
    resources: Seq<Seq<char>>,
    note: Option<NoteView>,
    reminder: Option<Seq<char>>,
    url: Option<Seq<char>>,
    rawmd: bool,
    loaded: Option<Seq<char>>,
    now_ms: int,
) -> Result<ParsedNoteInputView, ErrorView> {
    let title1 = match title {
        Some(t) => Some(strip_spec(t)),
        None => match note {
            Some(n) => Some(n.title),
            None => None,
        },
    };
    let notebook1 = opt_strip(notebook);
    let content0 = if content is None && note is Some && tags.len() == 0 && created is None
        && notebook1 is None && resources.len() == 0 && reminder is None && url is None {
        Some("WRITE"@)
    } else {
        content
    };
    let content1 = match content0 {
        Some(c) => if c == "WRITE"@ {
            Some(c)
        } else {
            Some(text_to_enml_spec(
                match loaded {
                    Some(l) => l,
                    None => c,
                },
                TextFormat::Markdown,
                rawmd,
            ))
        },
        None => None,
    };
    let url1 = match url {
        Some(u) => Some(u),
        None => match note {
            Some(n) => n.attributes.source_url,
            None => None,
        },
    };
    let created1: Result<Option<i64>, ErrorView> = match created {
        Some(c) => match time_from_date_spec(c) {
            Ok(t) => Ok(Some(t as i64)),
            Err(e) => Err(e),
        },
        None => Ok(None),
    };
    let reminder1: Result<Option<ReminderValue>, ErrorView> = match reminder {
        Some(r) => match parse_reminder_spec(r, now_ms) {
            Ok(v) => Ok(Some(v)),
            Err(e) => Err(e),
        },
        None => Ok(None),
    };
    match created1 {
        Err(e) => Err(e),
        Ok(cr) => match reminder1 {
            Err(e) => Err(e),
            Ok(rm) => Ok(ParsedNoteInputView {
                title: title1,
                content: content1,
                tags: tags.map_values(|t: Seq<char>| strip_spec(t)),
                created: cr,
                notebook: notebook1,
                resources: resources.map_values(|r: Seq<char>| strip_spec(r)),
                reminder: rm,
                url: url1,
            }),
        },
    }
}

pub open spec fn opt_note(note: Option<&Note>) -> Option<NoteView> {
    match note {
        Some(n) => Some(n@),
        None => None,
    }
}

impl NotesService {
    /// The input of a note from the command line's values; `loaded` is the
    /// text of the file that `content` names, where it names a file, and
    /// `now_ms` the time now, for the reminders `TOMORROW` and `WEEK`.
    pub fn parse_input(
        title: Option<String>,
        content: Option<String>,
        tags: Vec<String>,
        created: Option<String>,
        notebook: Option<String>,
        resources: Vec<String>,
        note: Option<&Note>,
        reminder: Option<String>,
        url: Option<String>,
        rawmd: bool,
        loaded: Option<String>,
        now_ms: i64,
    ) -> (res: Result<ParsedNoteInput, ReeknoteError>)
        requires
            created matches Some(c) ==> time_fits(c@, 0),
            reminder matches Some(r) ==> reminder_fits(r@, now_ms as int),
        ensures
            match parse_input_spec(
                opt_str(title),
                opt_str(content),
                string_views(tags@),
                opt_str(created),
                opt_str(notebook),
                string_views(resources@),
                opt_note(note),
                opt_str(reminder),
                opt_str(url),
                rawmd,
                opt_str(loaded),
                now_ms as int,
            ) {
                Ok(v) => res matches Ok(x) && x@ == v,
                Err(e) => res matches Err(x) && x@ == e,
            },
    {
        let stripped_tags = crate::tools::strip_vec(tags.as_slice());
        let stripped_resources = crate::tools::strip_vec(resources.as_slice());
        assert(string_views(stripped_tags@) =~= string_views(tags@).map_values(|t: Seq<char>| strip_spec(t)));
        assert(string_views(stripped_resources@) =~= string_views(resources@).map_values(
            |r: Seq<char>| strip_spec(r),
        ));
        let title1 = match title {
            Some(t) => Some(crate::tools::strip_string(t.as_str())),
            None => match note {
                Some(n) => Some(n.title.clone()),
                None => None,
            },
        };
        let notebook1 = crate::tools::strip_option(notebook);
        let content0 = if content.is_none() && note.is_some() && tags.len() == 0 && created.is_none()
            && notebook1.is_none() && resources.len() == 0 && reminder.is_none() && url.is_none() {
            Some(crate::config::EDITOR_OPEN.to_string())
        } else {
            content
        };
        let write = chars_of(crate::config::EDITOR_OPEN);
        let content1 = match content0 {
            Some(c) => {
                if chars_eq(chars_of(c.as_str()).as_slice(), write.as_slice()) {
                    Some(c)
                } else {
                    let source = match loaded {
                        Some(l) => l,
                        None => c,
                    };
                    Some(crate::editor::text_to_enml_with_options(source.as_str(), TextFormat::Markdown, rawmd))
                }
            },
            None => None,
        };
        let created1 = match created {
            Some(c) => match get_time_from_date(c.as_str()) {
                Ok(t) => Some(t),
                Err(e) => return Err(e),
            },
            None => None,
        };
        let reminder1 = match reminder {
            Some(r) => match parse_reminder(r.as_str(), now_ms) {
                Ok(v) => Some(v),
                Err(e) => return Err(e),
            },
            None => None,
        };
        let url1 = match url {
            Some(u) => Some(u),
            None => match note {
                Some(n) => crate::models::copy_opt_string(&n.attributes.source_url),
                None => None,
            },
        };
        Ok(ParsedNoteInput {
            title: title1,
            content: content1,
            tags: stripped_tags,
            created: created1,
            notebook: notebook1,
            resources: stripped_resources,
            reminder: reminder1,
            url: url1,
        })
    }
}


// ---------------------------------------------------------------------------
// Settings
// ---------------------------------------------------------------------------

/// The editor to run: the `editor` user property, else the environment
/// variable `editor`, else `EDITOR` (empty values do not count), else the
/// platform's default.
pub open spec fn editor_spec(
    props: Option<Map<Seq<char>, StoredVal>>,
    editor_var: Option<Seq<char>>,
    editor_env: Option<Seq<char>>,
    windows: bool,
) -> Seq<char> {
    let stored = match props {
        Some(p) => get_in(p, "editor"@),
        None => None,
    };
    match stored {
        Some(StoredVal::Str(e)) => e,
        _ => if editor_var matches Some(e) && e.len() > 0 {
            editor_var->0
        } else if editor_env matches Some(e) && e.len() > 0 {
            editor_env->0
        } else if windows {
            "notepad.exe"@
        } else {
            "nano"@
        },
    }
}

pub open spec fn opt_props(storage: Option<&Storage>) -> Option<Map<Seq<char>, StoredVal>> {
    match storage {
        Some(s) => Some(s@.user_props),
        None => None,
    }
}

/// The editor to run, from the store, the values of the environment
/// variables `editor` and `EDITOR`, and whether this is Windows.
pub fn get_editor(
    storage: Option<&Storage>,
    editor_var: Option<&str>,
    editor_env: Option<&str>,
    windows: bool,
) -> (res: String)
    requires
        storage matches Some(s) ==> s.wf(),
    ensures
        res@ == editor_spec(opt_props(storage), opt_seq(editor_var), opt_seq(editor_env), windows),
{
    if let Some(st) = storage {
        if let Some(StoredValue::String(e)) = st.get_userprop("editor") {
            return e.clone();
        }
    }
    if let Some(e) = editor_var {
        if !e.is_empty() {
            return e.to_string();
        }
    }
    if let Some(e) = editor_env {
        if !e.is_empty() {
            return e.to_string();
        }
    }
    if windows {
        crate::config::DEF_WIN_EDITOR.to_string()
    } else {
        crate::config::DEF_UNIX_EDITOR.to_string()
    }
}

/// The Markdown extras kept in the store, if they are a list.
pub open spec fn extras_spec(props: Option<Map<Seq<char>, StoredVal>>) -> Option<Seq<Seq<char>>> {
    match props {
        Some(p) => match get_in(p, "markdown2_extras"@) {
            Some(StoredVal::List(l)) => Some(l),
            _ => None,
        },
        None => None,
    }
}

pub fn get_extras(storage: Option<&Storage>) -> (res: Option<Vec<String>>)
    requires
        storage matches Some(s) ==> s.wf(),
    ensures
        match extras_spec(opt_props(storage)) {
            Some(l) => res matches Some(v) && string_views(v@) == l,
            None => res is None,
        },
{
    if let Some(st) = storage {
        if let Some(StoredValue::StringList(l)) = st.get_userprop("markdown2_extras") {
            return Some(crate::models::copy_strings(l));
        }
    }
    None
}

/// The default note extensions: Markdown, then raw ENML.
pub open spec fn default_note_ext() -> Seq<Seq<char>> {
    seq![".markdown"@, ".org"@]
}

/// The note extensions kept in the store when they are a list of two.
pub open spec fn note_ext_spec(props: Map<Seq<char>, StoredVal>) -> Seq<Seq<char>> {
    match get_in(props, "note_ext"@) {
        Some(StoredVal::List(l)) => if l.len() == 2 {
            l
        } else {
            default_note_ext()
        },
        _ => default_note_ext(),
    }
}

/// The store keeps a list under `note_ext` that is not of two extensions.
pub open spec fn bad_note_ext(props: Map<Seq<char>, StoredVal>) -> bool {
    get_in(props, "note_ext"@) matches Some(StoredVal::List(l)) && l.len() != 2
}

/// The extensions of note files, Markdown first; a stored list of another
/// length than two is removed from the store.
pub fn get_note_ext(storage: &mut Storage) -> (res: [String; 2])
    requires
        old(storage).wf(),
    ensures
        final(storage).wf(),
        final(storage).path_spec() == old(storage).path_spec(),
        string_views(res@) == note_ext_spec(old(storage)@.user_props),
        final(storage)@ == (if bad_note_ext(old(storage)@.user_props) {
            StorageView { user_props: old(storage)@.user_props.remove("note_ext"@), ..old(storage)@ }
        } else {
            old(storage)@
        }),
{
    let mut bad = false;
    if let Some(StoredValue::StringList(l)) = storage.get_userprop("note_ext") {
        if l.len() == 2 {
            let r = [l[0].clone(), l[1].clone()];
            assert(string_views(r@) =~= string_views(l@));
            return r;
        }
        bad = true;
    }
    if bad {
        let _ = storage.del_userprop("note_ext");
    }
    let r = [
        crate::config::DEFAULT_NOTE_EXT_MARKDOWN.to_string(),
        crate::config::DEFAULT_NOTE_EXT_RAW.to_string(),
    ];
    assert(string_views(r@) =~= default_note_ext());
    r
}

/// Stores the editor to run.
pub fn set_editor(storage: &mut Storage, editor: &str) -> (res: Result<(), ReeknoteError>)
    requires
        old(storage).wf(),
    ensures
        final(storage).wf(),
        final(storage).path_spec() == old(storage).path_spec(),
        res is Ok,
        final(storage)@ == (StorageView {
            user_props: old(storage)@.user_props.insert("editor"@, StoredVal::Str(editor@)),
            ..old(storage)@
        }),
{
    storage.set_userprop("editor".to_string(), StoredValue::String(editor.to_string()))
}

/// The items of a comma-separated list, each stripped.
pub open spec fn comma_list(value: Seq<char>) -> Seq<Seq<char>> {
    split_spec(value, ","@).map_values(|p: Seq<char>| strip_spec(p))
}

fn comma_items(value: &str) -> (res: Vec<String>)
    ensures
        string_views(res@) == comma_list(value@),
{
    let v = chars_of(value);
    let comma = chars_of(",");
    proof {
        reveal_strlit(",");
    }
    let raw = crate::text::split(v.as_slice(), comma.as_slice());
    let mut out: Vec<String> = Vec::new();
    let mut i: usize = 0;
    while i < raw.len()
        invariant
            i <= raw.len(),
            views(raw@) == split_spec(value@, ","@),
            out@.len() == i,
            forall|j: int| 0 <= j < i ==> #[trigger] out@[j]@ == comma_list(value@)[j],
        decreases raw.len() - i,
    {
        assert(views(raw@)[i as int] == raw@[i as int]@);
        let t = trim_class(raw[i].as_slice(), CharClass::Wrapping);
        out.push(string_of(t.as_slice()));
        i += 1;
    }
    assert(string_views(out@) =~= comma_list(value@));
    out
}

/// Stores the Markdown extras, given as a comma-separated list.
pub fn set_extras(storage: &mut Storage, extras: &str) -> (res: Result<(), ReeknoteError>)
    requires
        old(storage).wf(),
    ensures
        final(storage).wf(),
        final(storage).path_spec() == old(storage).path_spec(),
        res is Ok,
        final(storage)@ == (StorageView {
            user_props: old(storage)@.user_props.insert("markdown2_extras"@, StoredVal::List(comma_list(extras@))),
            ..old(storage)@
        }),
{
    let items = comma_items(extras);
    storage.set_userprop("markdown2_extras".to_string(), StoredValue::StringList(items))
}

/// Stores the note extensions, given as `markdown, raw`; anything but two
/// items is refused and the store left as it was.
pub fn set_note_ext(storage: &mut Storage, note_ext: &str) -> (res: Result<(), ReeknoteError>)
    requires
        old(storage).wf(),
    ensures
        final(storage).wf(),
        final(storage).path_spec() == old(storage).path_spec(),
        comma_list(note_ext@).len() == 2 ==> res is Ok && final(storage)@ == (StorageView {
            user_props: old(storage)@.user_props.insert("note_ext"@, StoredVal::List(comma_list(note_ext@))),
            ..old(storage)@
        }),
        comma_list(note_ext@).len() != 2 ==> fails_invalid(
            res,
            "note extension format is '.markdown_extension, .raw_extension'"@,
        ) && final(storage)@ == old(storage)@,
{
    let items = comma_items(note_ext);
    if items.len() == 2 {
        storage.set_userprop("note_ext".to_string(), StoredValue::StringList(items))
    } else {
        Err(invalid_input("note extension format is '.markdown_extension, .raw_extension'"))
    }
}

/// The lines of `settings`: the program, its directories, the editor, the
/// Markdown extras and the note extensions (in `Debug` form), then the user,
/// if one is logged in.
pub open spec fn settings_lines(
    app_dir: Seq<char>,
    error_log: Seq<char>,
    editor: Seq<char>,
    extras: Option<Seq<Seq<char>>>,
    note_ext: Seq<Seq<char>>,
    user: Option<UserInfoView>,
) -> Seq<Seq<char>> {
    let stars = repeat_spec('*', 30);
    let head = seq![
        "Reeknote"@,
        stars,
        "Version: "@ + VERSION@,
        "App dir: "@ + app_dir,
        "Error log: "@ + error_log,
        "Editor: "@ + editor,
        "Markdown2 Extras: "@ + debug_opt_list_spec(extras),
        "Note extension: "@ + debug_list_spec(note_ext),
    ];
    match user {
        Some(u) => head + seq![
            stars,
            "Username: "@ + u.username,
            "Id: "@ + dec_int(u.id as int),
            "Email: "@ + u.email,
        ],
        None => head,
    }
}

pub open spec fn user_in(props: Map<Seq<char>, StoredVal>) -> Option<UserInfoView> {
    match get_in(props, "info"@) {
        Some(StoredVal::Info(u)) => Some(u),
        _ => None,
    }
}

fn line_of(prefix: &str, value: &[char]) -> (res: Vec<char>)
    ensures
        res@ == prefix@ + value@,
{
    let mut l = chars_of(prefix);
    push_all(&mut l, value);
    l
}

/// The text of `settings`; reading the note extensions may remove a bad
/// stored list, as `get_note_ext` does.
pub fn settings_output(
    storage: &mut Storage,
    config: &Config,
    editor_var: Option<&str>,
    editor_env: Option<&str>,
    windows: bool,
) -> (res: String)
    requires
        old(storage).wf(),
    ensures
        final(storage).wf(),
        final(storage).path_spec() == old(storage).path_spec(),
        final(storage)@ == (if bad_note_ext(old(storage)@.user_props) {
            StorageView { user_props: old(storage)@.user_props.remove("note_ext"@), ..old(storage)@ }
        } else {
            old(storage)@
        }),
        res@ == join_spec(
            settings_lines(
                config.app_dir@,
                config.error_log@,
                editor_spec(Some(old(storage)@.user_props), opt_seq(editor_var), opt_seq(editor_env), windows),
                extras_spec(Some(old(storage)@.user_props)),
                note_ext_spec(old(storage)@.user_props),
                user_in(old(storage)@.user_props),
            ),
            "\n"@,
        ),
{
    let editor = get_editor(Some(&*storage), editor_var, editor_env, windows);
    let extras = get_extras(Some(&*storage));
    let note_ext = get_note_ext(storage);
    let mut stars: Vec<char> = Vec::new();
    crate::text::push_repeat(&mut stars, '*', 30);
    let mut lines: Vec<Vec<char>> = Vec::new();
    lines.push(chars_of("Reeknote"));
    lines.push(stars.clone());
    lines.push(line_of("Version: ", chars_of(crate::VERSION).as_slice()));
    lines.push(line_of("App dir: ", chars_of(config.app_dir.as_str()).as_slice()));
    lines.push(line_of("Error log: ", chars_of(config.error_log.as_str()).as_slice()));
    lines.push(line_of("Editor: ", chars_of(editor.as_str()).as_slice()));
    lines.push(line_of("Markdown2 Extras: ", chars_of(debug_opt_string_list(&extras).as_str()).as_slice()));
    lines.push(line_of("Note extension: ", chars_of(debug_string_list(&note_ext).as_str()).as_slice()));
    let ghost head = views(lines@);
    let user = storage.get_user_info();
    if let Some(u) = user {
        lines.push(stars.clone());
        lines.push(line_of("Username: ", chars_of(u.username.as_str()).as_slice()));
        lines.push(line_of("Id: ", crate::text::i64_dec(u.id).as_slice()));
        lines.push(line_of("Email: ", chars_of(u.email.as_str()).as_slice()));
    }
    assert(extras_spec(Some(old(storage)@.user_props)) == (match extras {
        Some(v) => Some(string_views(v@)),
        None => None::<Seq<Seq<char>>>,
    }));
    assert(string_views(note_ext@) == note_ext_spec(old(storage)@.user_props));
    assert(views(lines@) =~= settings_lines(
        config.app_dir@,
        config.error_log@,
        editor_spec(Some(old(storage)@.user_props), opt_seq(editor_var), opt_seq(editor_env), windows),
        extras_spec(Some(old(storage)@.user_props)),
        note_ext_spec(old(storage)@.user_props),
        user_in(storage@.user_props),
    ));
    let nl = chars_of("\n");
    string_of(crate::text::join(&lines, nl.as_slice()).as_slice())
}


/// What an option of `settings` asks: `Some(None)` to show the current
/// value (`#GET#`), `Some(Some(v))` to store `v`, `None` when not given.
pub open spec fn setting_option(values: ParsedArgs, key: Seq<char>) -> Option<Option<Seq<char>>> {
    match values.lookup(key) {
        Some(ArgValue::String(s)) => if s@ == "#GET#"@ {
            Some(None)
        } else {
            Some(Some(s@))
        },
        _ => None,
    }
}

/// The store after reading the note extensions: a stored list of another
/// length than two removed.
pub open spec fn without_bad_note_ext(st: StorageView) -> StorageView {
    if bad_note_ext(st.user_props) {
        StorageView { user_props: st.user_props.remove("note_ext"@), ..st }
    } else {
        st
    }
}

/// What `settings` prints (or the invalid input it fails with) and the
/// store it leaves: each of `editor`, `extras` and `note_ext` in turn shows
/// its value and stops, or stores a new one; "Changes saved." after a
/// change, else the whole settings.
pub open spec fn settings_command_spec(
    st: StorageView,
    editor: Option<Option<Seq<char>>>,
    extras: Option<Option<Seq<char>>>,
    note_ext: Option<Option<Seq<char>>>,
    app_dir: Seq<char>,
    error_log: Seq<char>,
    editor_var: Option<Seq<char>>,
    editor_env: Option<Seq<char>>,
    windows: bool,
) -> (Result<Seq<char>, Seq<char>>, StorageView) {
    if editor == Some(None::<Seq<char>>) {
        (
            Ok("Current editor is: "@ + editor_spec(Some(st.user_props), editor_var, editor_env, windows) + "\n"@),
            st,
        )
    } else {
        let st1 = match editor {
            Some(Some(v)) => StorageView { user_props: st.user_props.insert("editor"@, StoredVal::Str(v)), ..st },
            _ => st,
        };
        if extras == Some(None::<Seq<char>>) {
            (
                Ok("Current markdown2 extras is : "@ + debug_opt_list_spec(extras_spec(Some(st1.user_props))) + "\n"@),
                st1,
            )
        } else {
            let st2 = match extras {
                Some(Some(v)) => StorageView {
                    user_props: st1.user_props.insert("markdown2_extras"@, StoredVal::List(comma_list(v))),
                    ..st1
                },
                _ => st1,
            };
            match note_ext {
                Some(None) => (
                    Ok("Current note extension is: "@ + debug_list_spec(note_ext_spec(st2.user_props)) + "\n"@),
                    without_bad_note_ext(st2),
                ),
                Some(Some(v)) => if comma_list(v).len() == 2 {
                    (
                        Ok("Changes saved.\n"@),
                        StorageView { user_props: st2.user_props.insert("note_ext"@, StoredVal::List(comma_list(v))), ..st2 },
                    )
                } else {
                    (Err("note extension format is '.markdown_extension, .raw_extension'"@), st2)
                },
                None => if editor is Some || extras is Some {
                    (Ok("Changes saved.\n"@), st2)
                } else {
                    (
                        Ok(
                            join_spec(
                                settings_lines(
                                    app_dir,
                                    error_log,
                                    editor_spec(Some(st2.user_props), editor_var, editor_env, windows),
                                    extras_spec(Some(st2.user_props)),
                                    note_ext_spec(st2.user_props),
                                    user_in(st2.user_props),
                                ),
                                "\n"@,
                            ) + "\n"@,
                        ),
                        without_bad_note_ext(st2),
                    )
                },
            }
        }
    }
}

/// The option `key` of `settings`, as `setting_option` reads it.
fn setting_value(values: &ParsedArgs, key: &str) -> (res: Option<Option<String>>)
    requires
        values.wf(),
    ensures
        match setting_option(*values, key@) {
            None => res is None,
            Some(None) => res == Some(None::<String>),
            Some(Some(v)) => res matches Some(Some(r)) && r@ == v,
        },
{
    match values.get(key) {
        Some(ArgValue::String(s)) => {
            if str_eq(s.as_str(), "#GET#") {
                Some(None)
            } else {
                Some(Some(s.clone()))
            }
        },
        _ => None,
    }
}

fn with_newline(text: &str) -> (res: String)
    ensures
        res@ == text@ + "\n"@,
{
    let mut out = chars_of(text);
    out.push('\n');
    proof {
        reveal_strlit("\n");
    }
    assert(out@ =~= text@ + "\n"@);
    string_of(out.as_slice())
}

fn text_line(prefix: &str, value: &str) -> (res: String)
    ensures
        res@ == prefix@ + value@ + "\n"@,
{
    let mut out = chars_of(prefix);
    push_str(&mut out, value);
    out.push('\n');
    proof {
        reveal_strlit("\n");
    }
    assert(out@ =~= prefix@ + value@ + "\n"@);
    string_of(out.as_slice())
}

/// `settings`: shows or stores the editor, the Markdown extras and the note
/// extensions, or shows all settings; the text to print, or the failure.
#[verifier::rlimit(40)]
pub fn handle_settings(
    storage: &mut Storage,
    config: &Config,
    values: &ParsedArgs,
    editor_var: Option<&str>,
    editor_env: Option<&str>,
    windows: bool,
) -> (res: Result<String, ReeknoteError>)
    requires
        old(storage).wf(),
        values.wf(),
    ensures
        final(storage).wf(),
        final(storage).path_spec() == old(storage).path_spec(),
        ({
            let (r, after) = settings_command_spec(
                old(storage)@,
                setting_option(*values, "editor"@),
                setting_option(*values, "extras"@),
                setting_option(*values, "note_ext"@),
                config.app_dir@,
                config.error_log@,
                opt_seq(editor_var),
                opt_seq(editor_env),
                windows,
            );
            &&& final(storage)@ == after
            &&& match r {
                Ok(t) => res matches Ok(s) && s@ == t,
                Err(m) => fails_invalid(res, m),
            }
        }),
{
    let editor = setting_value(values, "editor");
    let extras = setting_value(values, "extras");
    let note_ext = setting_value(values, "note_ext");
    let changed_before = editor.is_some() || extras.is_some();
    match editor {
        Some(None) => {
            let e = get_editor(Some(&*storage), editor_var, editor_env, windows);
            return Ok(text_line("Current editor is: ", e.as_str()));
        },
        Some(Some(v)) => {
            let _ = set_editor(storage, v.as_str());
        },
        None => {},
    }
    match extras {
        Some(None) => {
            let x = get_extras(Some(&*storage));
            return Ok(text_line("Current markdown2 extras is : ", debug_opt_string_list(&x).as_str()));
        },
        Some(Some(v)) => {
            let _ = set_extras(storage, v.as_str());
        },
        None => {},
    }
    match note_ext {
        Some(None) => {
            let n = get_note_ext(storage);
            Ok(text_line("Current note extension is: ", debug_string_list(&n).as_str()))
        },
        Some(Some(v)) => match set_note_ext(storage, v.as_str()) {
            Ok(()) => Ok("Changes saved.\n".to_string()),
            Err(e) => Err(e),
        },
        None => {
            if changed_before {
                Ok("Changes saved.\n".to_string())
            } else {
                let out = settings_output(storage, config, editor_var, editor_env, windows);
                Ok(with_newline(out.as_str()))
            }
        },
    }
}

// ---------------------------------------------------------------------------
// The Evernote service
// ---------------------------------------------------------------------------

/// What reeknote asks of the Evernote service.
pub trait EvernoteClient {
    fn get_user_info(&mut self) -> Result<UserInfo, ReeknoteError>;

    fn get_note(&mut self, guid: &str) -> Result<Note, ReeknoteError>;

    fn get_note_with_resources(&mut self, guid: &str) -> Result<Note, ReeknoteError>;

    fn get_note_content(&mut self, guid: &str) -> Result<String, ReeknoteError>;

    fn find_notes(&mut self, query: &str, count: usize, deleted_only: bool) -> Result<SearchResult, ReeknoteError>;

    fn create_note(&mut self, input: ParsedNoteInput) -> Result<Note, ReeknoteError>;

    fn update_note(&mut self, guid: &str, input: ParsedNoteInput) -> Result<(), ReeknoteError>;

    fn remove_note(&mut self, guid: &str) -> Result<(), ReeknoteError>;

    fn find_notebooks(&mut self) -> Result<Vec<Notebook>, ReeknoteError>;

    fn find_linked_notebooks(&mut self) -> Result<Vec<LinkedNotebook>, ReeknoteError>;

    fn create_notebook(&mut self, name: &str, stack: Option<&str>) -> Result<Notebook, ReeknoteError>;

    fn update_notebook(&mut self, guid: &str, name: &str) -> Result<(), ReeknoteError>;

    fn remove_notebook(&mut self, guid: &str) -> Result<(), ReeknoteError>;

    fn find_tags(&mut self) -> Result<Vec<Tag>, ReeknoteError>;

    fn create_tag(&mut self, name: &str) -> Result<Tag, ReeknoteError>;

    fn update_tag(&mut self, guid: &str, name: &str) -> Result<(), ReeknoteError>;

    fn remove_tag(&mut self, guid: &str) -> Result<(), ReeknoteError>;
}

/// A client that refuses every request.
#[derive(Clone, Debug, Default)]
pub struct UnsupportedEvernoteClient;

/// The answer of `UnsupportedEvernoteClient` to every request.
pub open spec fn unsupported_message() -> Seq<char> {
    "Evernote Thrift transport is not implemented in this Rust build yet"@
}

/// `res` is the refusal of an unsupported request.
pub open spec fn refused<T>(res: Result<T, ReeknoteError>) -> bool {
    res matches Err(ReeknoteError::Unsupported(m)) && m@ == unsupported_message()
}

impl UnsupportedEvernoteClient {
    fn unsupported<T>(&self) -> (res: Result<T, ReeknoteError>)
        ensures
            refused(res),
    {
        Err(ReeknoteError::Unsupported(
            "Evernote Thrift transport is not implemented in this Rust build yet".to_string(),
        ))
    }
}

impl EvernoteClient for UnsupportedEvernoteClient {
    fn get_user_info(&mut self) -> (res: Result<UserInfo, ReeknoteError>)
        ensures
            refused(res),
    {
        self.unsupported()
    }

    fn get_note(&mut self, guid: &str) -> (res: Result<Note, ReeknoteError>)
        ensures
            refused(res),
    {
        self.unsupported()
    }

    fn get_note_with_resources(&mut self, guid: &str) -> (res: Result<Note, ReeknoteError>)
        ensures
            refused(res),
    {
        self.unsupported()
    }

    fn get_note_content(&mut self, guid: &str) -> (res: Result<String, ReeknoteError>)
        ensures
            refused(res),
    {
        self.unsupported()
    }

    fn find_notes(&mut self, query: &str, count: usize, deleted_only: bool) -> (res: Result<
        SearchResult,
        ReeknoteError,
    >)
        ensures
            refused(res),
    {
        self.unsupported()
    }

    fn create_note(&mut self, input: ParsedNoteInput) -> (res: Result<Note, ReeknoteError>)
        ensures
            refused(res),
    {
        self.unsupported()
    }

    fn update_note(&mut self, guid: &str, input: ParsedNoteInput) -> (res: Result<(), ReeknoteError>)
        ensures
            refused(res),
    {
        self.unsupported()
    }

    fn remove_note(&mut self, guid: &str) -> (res: Result<(), ReeknoteError>)
        ensures
            refused(res),
    {
        self.unsupported()
    }

    fn find_notebooks(&mut self) -> (res: Result<Vec<Notebook>, ReeknoteError>)
        ensures
            refused(res),
    {
        self.unsupported()
    }

    fn find_linked_notebooks(&mut self) -> (res: Result<Vec<LinkedNotebook>, ReeknoteError>)
        ensures
            refused(res),
    {
        self.unsupported()
    }

    fn create_notebook(&mut self, name: &str, stack: Option<&str>) -> (res: Result<Notebook, ReeknoteError>)
        ensures
            refused(res),
    {
        self.unsupported()
    }

    fn update_notebook(&mut self, guid: &str, name: &str) -> (res: Result<(), ReeknoteError>)
        ensures
            refused(res),
    {
        self.unsupported()
    }

    fn remove_notebook(&mut self, guid: &str) -> (res: Result<(), ReeknoteError>)
        ensures
            refused(res),
    {
        self.unsupported()
    }

    fn find_tags(&mut self) -> (res: Result<Vec<Tag>, ReeknoteError>)
        ensures
            refused(res),
    {
        self.unsupported()
    }

    fn create_tag(&mut self, name: &str) -> (res: Result<Tag, ReeknoteError>)
        ensures
            refused(res),
    {
        self.unsupported()
    }

    fn update_tag(&mut self, guid: &str, name: &str) -> (res: Result<(), ReeknoteError>)
        ensures
            refused(res),
    {
        self.unsupported()
    }

    fn remove_tag(&mut self, guid: &str) -> (res: Result<(), ReeknoteError>)
        ensures
            refused(res),
    {
        self.unsupported()
    }
}


// ---------------------------------------------------------------------------
// Duplicates
// ---------------------------------------------------------------------------

/// A group of notes that share a key.
#[derive(Clone, Debug, PartialEq, Eq)]
pub struct DuplicateGroup {
    pub key: String,
    pub notes: Vec<Note>,
}

/// The notes of `keyed` whose key is `k`, in their order.
pub open spec fn select(keyed: Seq<(Seq<char>, NoteView)>, k: Seq<char>) -> Seq<NoteView>
    decreases keyed.len(),
{
    if keyed.len() == 0 {
        Seq::empty()
    } else if keyed.last().0 == k {
        select(keyed.drop_last(), k).push(keyed.last().1)
    } else {
        select(keyed.drop_last(), k)
    }
}

/// `keys` and `groups` are the groups of more than one note with the same
/// key in `keyed`: one group per such key, in key order, each holding the
/// notes with that key in their order.
pub open spec fn is_duplicate_grouping(
    keyed: Seq<(Seq<char>, NoteView)>,
    keys: Seq<Seq<char>>,
    groups: Seq<Seq<NoteView>>,
) -> bool {
    &&& keys.len() == groups.len()
    &&& sorted_keys(keys)
    &&& forall|i: int| 0 <= i < keys.len() ==> #[trigger] groups[i] == select(keyed, keys[i]) && groups[i].len() > 1
    &&& forall|j: int| 0 <= j < keyed.len() && #[trigger] select(keyed, keyed[j].0).len() > 1 ==> keys.contains(keyed[j].0)
}

pub open spec fn keyed_views(keyed: Seq<(String, Note)>) -> Seq<(Seq<char>, NoteView)> {
    keyed.map_values(|e: (String, Note)| (e.0@, e.1@))
}

pub open spec fn group_keys(groups: Seq<(String, Vec<Note>)>) -> Seq<Seq<char>> {
    groups.map_values(|g: (String, Vec<Note>)| g.0@)
}

pub open spec fn nested_views(groups: Seq<Vec<Note>>) -> Seq<Seq<NoteView>> {
    groups.map_values(|g: Vec<Note>| note_views(g@))
}

pub open spec fn group_notes(groups: Seq<(String, Vec<Note>)>) -> Seq<Seq<NoteView>> {
    groups.map_values(|g: (String, Vec<Note>)| note_views(g.1@))
}

/// The groups so far: every key with notes maps to them, any other key has none.
pub open spec fn grouped_so_far(map: StrMap<Vec<Note>>, keyed: Seq<(Seq<char>, NoteView)>) -> bool {
    forall|k: Seq<char>| match #[trigger] map.lookup(k) {
        Some(v) => note_views(v@) == select(keyed, k) && v@.len() > 0,
        None => select(keyed, k).len() == 0,
    }
}

proof fn lemma_select_len(keyed: Seq<(Seq<char>, NoteView)>, k: Seq<char>)
    ensures
        select(keyed, k).len() <= keyed.len(),
        (exists|j: int| 0 <= j < keyed.len() && keyed[j].0 == k) ==> select(keyed, k).len() > 0,
    decreases keyed.len(),
{
    if keyed.len() > 0 {
        lemma_select_len(keyed.drop_last(), k);
        if keyed.last().0 != k {
            if exists|j: int| 0 <= j < keyed.len() && keyed[j].0 == k {
                let j = choose|j: int| 0 <= j < keyed.len() && keyed[j].0 == k;
                assert(keyed.drop_last()[j] == keyed[j]);
            }
        }
    }
}

/// The groups of more than one note with the same key, in key order.
fn group_duplicates(keyed: &Vec<(String, Note)>) -> (res: Vec<(String, Vec<Note>)>)
    ensures
        is_duplicate_grouping(keyed_views(keyed@), group_keys(res@), group_notes(res@)),
{
    let ghost kv = keyed_views(keyed@);
    let mut map: StrMap<Vec<Note>> = StrMap::new();
    let mut i: usize = 0;
    assert(kv.take(0) =~= Seq::<(Seq<char>, NoteView)>::empty());
    while i < keyed.len()
        invariant
            i <= keyed.len(),
            kv == keyed_views(keyed@),
            map.wf(),
            grouped_so_far(map, kv.take(i as int)),
        decreases keyed.len() - i,
    {
        let key = keyed[i].0.clone();
        let note = keyed[i].1.duplicate();
        let ghost before = map;
        let mut group = match map.remove(key.as_str()) {
            Some(g) => g,
            None => Vec::new(),
        };
        group.push(note);
        let ghost gv = group@;
        map.insert(key, group);
        proof {
            let prev = kv.take(i as int);
            let next = kv.take(i + 1);
            assert(next.drop_last() =~= prev);
            assert(next.last() == kv[i as int]);
            assert(kv[i as int] == (keyed@[i as int].0@, keyed@[i as int].1@));
            assert forall|k: Seq<char>| match #[trigger] map.lookup(k) {
                Some(v) => note_views(v@) == select(next, k) && v@.len() > 0,
                None => select(next, k).len() == 0,
            } by {
                if k == keyed@[i as int].0@ {
                    assert(map.lookup(k) == Some(group));
                    let old_notes = match before.lookup(k) {
                        Some(g) => g@,
                        None => Seq::<Note>::empty(),
                    };
                    assert(gv =~= old_notes.push(note));
                    assert(note_views(gv) =~= note_views(old_notes).push(note@));
                    assert(before.lookup(k) is None ==> note_views(old_notes) =~= select(prev, k));
                } else {
                    assert(map.lookup(k) == before.lookup(k));
                }
            }
        }
        i += 1;
    }
    assert(kv.take(keyed.len() as int) =~= kv);
    let mut out: Vec<(String, Vec<Note>)> = Vec::new();
    let mut j: usize = 0;
    let ghost es = map.entry_seq();
    let ghost ks = map.key_seq();
    while j < map.len()
        invariant
            j <= map.len_spec(),
            map.wf(),
            es == map.entry_seq(),
            ks == map.key_seq(),
            grouped_so_far(map, kv),
            forall|a: int, b: int| 0 <= a < b < out@.len() ==> seq_lt(#[trigger] group_keys(out@)[a], #[trigger] group_keys(out@)[b]),
            forall|a: int| 0 <= a < out@.len() ==> exists|p: int| 0 <= p < j && #[trigger] group_keys(out@)[a] == ks[p],
            forall|a: int| 0 <= a < out@.len() ==> #[trigger] group_notes(out@)[a] == select(kv, group_keys(out@)[a]) && group_notes(out@)[a].len() > 1,
            forall|p: int| 0 <= p < j && (#[trigger] es[p]).1@.len() > 1 ==> group_keys(out@).contains(ks[p]),
        decreases map.len_spec() - j,
    {
        let key = map.key_at(j);
        let notes = map.value_at(j);
        proof {
            assert(ks[j as int] == key@);
            assert forall|q: int| 0 <= q < j implies es[q].0@ != key@ by {
                assert(seq_lt(ks[q], ks[j as int]));
                lemma_lt_irreflexive(ks[q]);
            }
            lemma_lookup_at(es, j as int, key@);
            assert(map.lookup(key@) == Some(*notes));
        }
        if notes.len() > 1 {
            let ghost old_out = out@;
            out.push((key.clone(), copy_notes(notes)));
            proof {
                assert(group_keys(out@) =~= group_keys(old_out).push(key@));
                assert(group_notes(out@) =~= group_notes(old_out).push(note_views(notes@)));
                assert forall|a: int| 0 <= a < old_out.len() implies seq_lt(group_keys(out@)[a], key@) by {
                    let p = choose|p: int| 0 <= p < j && #[trigger] group_keys(old_out)[a] == ks[p];
                    assert(group_keys(out@)[a] == ks[p]);
                }
                assert forall|a: int| 0 <= a < out@.len() implies exists|p: int| 0 <= p < j + 1 && #[trigger] group_keys(out@)[a] == ks[p] by {
                    if a < old_out.len() {
                        let p = choose|p: int| 0 <= p < j && #[trigger] group_keys(old_out)[a] == ks[p];
                        assert(group_keys(out@)[a] == ks[p]);
                    } else {
                        assert(group_keys(out@)[a] == ks[j as int]);
                    }
                }
                assert forall|p: int| 0 <= p < j + 1 && (#[trigger] es[p]).1@.len() > 1 implies group_keys(out@).contains(ks[p]) by {
                    if p < j {
                        let a = choose|a: int| 0 <= a < old_out.len() && group_keys(old_out)[a] == ks[p];
                        assert(group_keys(out@)[a] == ks[p]);
                    } else {
                        assert(group_keys(out@)[old_out.len() as int] == ks[p]);
                    }
                }
            }
        } else {
            proof {
                assert forall|a: int| 0 <= a < out@.len() implies exists|p: int| 0 <= p < j + 1 && #[trigger] group_keys(out@)[a] == ks[p] by {
                    let p = choose|p: int| 0 <= p < j && #[trigger] group_keys(out@)[a] == ks[p];
                }
            }
        }
        j += 1;
    }
    proof {
        let keys = group_keys(out@);
        assert forall|jj: int| 0 <= jj < kv.len() && #[trigger] select(kv, kv[jj].0).len() > 1 implies keys.contains(kv[jj].0) by {
            let k = kv[jj].0;
            lemma_select_len(kv, k);
            lemma_lookup_found(es, k);
            let p = choose|p: int| 0 <= p < es.len() && es[p].0@ == k && es[p].1 == map.lookup(k)->0;
            assert(ks[p] == k);
        }
    }
    out
}

/// The key that notes share when they look alike: title, content length,
/// and the type and size of the largest resource.
pub open spec fn metadata_key_spec(n: NoteView) -> Seq<char> {
    n.title + " ("@ + debug_opt_usize_spec(n.content_length) + ") with "@ + debug_opt_str_spec(
        n.largest_resource_mime,
    ) + " ("@ + debug_opt_usize_spec(n.largest_resource_size) + ")"@
}

/// The key that notes share when they hold the same text: the MD5 digest
/// of the content, in hex, and the title.
pub open spec fn content_key_spec(n: NoteView) -> Seq<char> {
    hex_spec(md5_digest(encode_utf8(n.content))) + " "@ + n.title
}

pub open spec fn metadata_keyed(notes: Seq<NoteView>) -> Seq<(Seq<char>, NoteView)> {
    notes.map_values(|n: NoteView| (metadata_key_spec(n), n))
}

pub open spec fn content_keyed(notes: Seq<NoteView>) -> Seq<(Seq<char>, NoteView)> {
    notes.map_values(|n: NoteView| (content_key_spec(n), n))
}

fn metadata_key(note: &Note) -> (res: String)
    ensures
        res@ == metadata_key_spec(note@),
{
    let mut k = chars_of(note.title.as_str());
    push_str(&mut k, " (");
    push_str(&mut k, debug_opt_usize(note.content_length).as_str());
    push_str(&mut k, ") with ");
    push_str(&mut k, debug_opt_string(&note.largest_resource_mime).as_str());
    push_str(&mut k, " (");
    push_str(&mut k, debug_opt_usize(note.largest_resource_size).as_str());
    push_str(&mut k, ")");
    string_of(k.as_slice())
}

fn content_key(note: &Note) -> (res: String)
    ensures
        res@ == content_key_spec(note@),
{
    let mut k = chars_of(md5_hex(note.content.as_str().as_bytes()).as_str());
    k.push(' ');
    push_str(&mut k, note.title.as_str());
    proof {
        reveal_strlit(" ");
    }
    assert(k@ =~= content_key_spec(note@));
    string_of(k.as_slice())
}

/// The groups of notes that look alike by title, content length and
/// largest resource: more than one note each, in key order.
pub fn duplicate_metadata_groups(notes: &[Note]) -> (res: Vec<Vec<Note>>)
    ensures
        exists|keys: Seq<Seq<char>>| #[trigger] is_duplicate_grouping(
            metadata_keyed(note_views(notes@)),
            keys,
            nested_views(res@),
        ),
{
    let mut keyed: Vec<(String, Note)> = Vec::new();
    let mut i: usize = 0;
    while i < notes.len()
        invariant
            i <= notes.len(),
            keyed_views(keyed@) == metadata_keyed(note_views(notes@)).take(i as int),
            keyed@.len() == i,
        decreases notes.len() - i,
    {
        let k = metadata_key(&notes[i]);
        let n = notes[i].duplicate();
        let ghost prev = keyed@;
        keyed.push((k, n));
        assert(note_views(notes@)[i as int] == notes@[i as int]@);
        assert(keyed@[i as int] == (k, n));
        assert(keyed_views(keyed@) =~= metadata_keyed(note_views(notes@)).take(i + 1)) by {
            assert(keyed@.take(i as int) =~= prev);
            assert forall|q: int| 0 <= q < i implies keyed_views(keyed@)[q] == keyed_views(prev)[q] by {
                assert(keyed@[q] == prev[q]);
            }
        }
        i += 1;
    }
    assert(metadata_keyed(note_views(notes@)).take(notes.len() as int) =~= metadata_keyed(note_views(notes@)));
    let groups = group_duplicates(&keyed);
    let mut out: Vec<Vec<Note>> = Vec::new();
    let mut j: usize = 0;
    while j < groups.len()
        invariant
            j <= groups.len(),
            nested_views(out@) == group_notes(groups@).take(j as int),
            out@.len() == j,
        decreases groups.len() - j,
    {
        let c = copy_notes(&groups[j].1);
        let ghost prev = out@;
        out.push(c);
        assert(group_notes(groups@)[j as int] == note_views(groups@[j as int].1@));
        assert(nested_views(out@) =~= group_notes(groups@).take(j + 1)) by {
            assert forall|q: int| 0 <= q < j implies nested_views(out@)[q] == nested_views(prev)[q] by {
                assert(out@[q] == prev[q]);
            }
        }
        j += 1;
    }
    assert(group_notes(groups@).take(groups.len() as int) =~= group_notes(groups@));
    assert(is_duplicate_grouping(
        metadata_keyed(note_views(notes@)),
        group_keys(groups@),
        nested_views(out@),
    ));
    out
}

/// The groups of notes with the same content and title: more than one note
/// each, in key order, each with its key.
pub fn duplicate_content_groups(notes: Vec<Note>) -> (res: Vec<DuplicateGroup>)
    ensures
        is_duplicate_grouping(
            content_keyed(note_views(notes@)),
            res@.map_values(|g: DuplicateGroup| g.key@),
            res@.map_values(|g: DuplicateGroup| note_views(g.notes@)),
        ),
{
    let mut keyed: Vec<(String, Note)> = Vec::new();
    let mut i: usize = 0;
    while i < notes.len()
        invariant
            i <= notes.len(),
            keyed_views(keyed@) == content_keyed(note_views(notes@)).take(i as int),
            keyed@.len() == i,
        decreases notes.len() - i,
    {
        let k = content_key(&notes[i]);
        let n = notes[i].duplicate();
        let ghost prev = keyed@;
        keyed.push((k, n));
        assert(note_views(notes@)[i as int] == notes@[i as int]@);
        assert(keyed@[i as int] == (k, n));
        assert(keyed_views(keyed@) =~= content_keyed(note_views(notes@)).take(i + 1)) by {
            assert(keyed@.take(i as int) =~= prev);
            assert forall|q: int| 0 <= q < i implies keyed_views(keyed@)[q] == keyed_views(prev)[q] by {
                assert(keyed@[q] == prev[q]);
            }
        }
        i += 1;
    }
    assert(content_keyed(note_views(notes@)).take(notes.len() as int) =~= content_keyed(note_views(notes@)));
    let groups = group_duplicates(&keyed);
    let mut out: Vec<DuplicateGroup> = Vec::new();
    let mut j: usize = 0;
    while j < groups.len()
        invariant
            j <= groups.len(),
            out@.map_values(|g: DuplicateGroup| g.key@) == group_keys(groups@).take(j as int),
            out@.len() == j,
            out@.map_values(|g: DuplicateGroup| note_views(g.notes@)) == group_notes(groups@).take(j as int),
        decreases groups.len() - j,
    {
        let g = DuplicateGroup { key: groups[j].0.clone(), notes: copy_notes(&groups[j].1) };
        let ghost prev = out@;
        out.push(g);
        assert(group_notes(groups@)[j as int] == note_views(groups@[j as int].1@));
        assert(group_keys(groups@)[j as int] == groups@[j as int].0@);
        assert(out@.map_values(|g: DuplicateGroup| g.key@) =~= group_keys(groups@).take(j + 1)) by {
            assert forall|q: int| 0 <= q < j implies out@[q] == prev[q] by {}
        }
        assert(out@.map_values(|g: DuplicateGroup| note_views(g.notes@)) =~= group_notes(groups@).take(j + 1)) by {
            assert forall|q: int| 0 <= q < j implies out@[q] == prev[q] by {}
        }
        j += 1;
    }
    assert(group_keys(groups@).take(groups.len() as int) =~= group_keys(groups@));
    assert(group_notes(groups@).take(groups.len() as int) =~= group_notes(groups@));
    out
}

} // verus!
