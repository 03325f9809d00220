//! The logic of the small HTTP apps that run as WASM components: reading a timestamp in
//! any of the usual formats and writing it out again, finding the boundary of a
//! multipart upload, and telling which places a coffee search leaves out.
use vstd::prelude::*;
use crate::task::opt_view;
use crate::text::{
    chars_of, contains_string, find_from, first_occurrence_from, has_prefix, i64_text_value, lemma_first_occurrence,
    parse_i64, starts_with, string_from_range, views,
};

verus! {

/// Names what `chrono::DateTime::parse_from_str` reads from `text` in the format `fmt`,
/// as the instant in whole Unix seconds and nanoseconds.
pub uninterp spec fn zoned_parse(text: Seq<char>, fmt: Seq<char>) -> Option<(i64, u32)>;

/// Names what `chrono::NaiveDateTime::parse_from_str` reads from `text` in the format
/// `fmt`, taken as UTC, as the instant in whole Unix seconds and nanoseconds.
pub uninterp spec fn naive_parse(text: Seq<char>, fmt: Seq<char>) -> Option<(i64, u32)>;

/// Names the whole Unix seconds that `chrono::DateTime::from_timestamp` accepts.
pub uninterp spec fn unix_seconds_in_range(secs: i64) -> bool;

/// `chrono::DateTime::parse_from_str(text, fmt)`, converted to UTC and given as Unix
/// seconds and nanoseconds. Claims only that the result is the named `zoned_parse`.
#[verifier::external_body]
fn parse_zoned(text: &str, fmt: &str) -> (r: Option<(i64, u32)>)
    ensures
        r == zoned_parse(text@, fmt@),
{
    chrono::DateTime::parse_from_str(text, fmt).ok().map(|d| (d.timestamp(), d.timestamp_subsec_nanos()))
}

/// `chrono::NaiveDateTime::parse_from_str(text, fmt)`, taken as UTC and given as Unix
/// seconds and nanoseconds. Claims only that the result is the named `naive_parse`.
#[verifier::external_body]
fn parse_naive(text: &str, fmt: &str) -> (r: Option<(i64, u32)>)
    ensures
        r == naive_parse(text@, fmt@),
{
    chrono::NaiveDateTime::parse_from_str(text, fmt).ok().map(|d| (d.and_utc().timestamp(), d.and_utc().timestamp_subsec_nanos()))
}

/// Whether `chrono::DateTime::from_timestamp(secs, 0)` gives an instant. Claims only
/// that the answer is the named `unix_seconds_in_range`.
#[verifier::external_body]
fn seconds_in_range(secs: i64) -> (ok: bool)
    ensures
        ok == unix_seconds_in_range(secs),
{
    chrono::DateTime::from_timestamp(secs, 0).is_some()
}

/// The timestamp formats tried, in order.
pub open spec fn time_formats() -> Seq<Seq<char>> {
    seq![
        "%a, %d %b %Y %H:%M:%S %z"@,
        "%A, %d %b %Y %H:%M:%S %z"@,
        "%a, %d %b %Y %H:%M:%S"@,
        "%Y-%m-%dT%H:%M:%S%:z"@,
        "%Y-%m-%dT%H:%M:%S"@,
        "%Y-%m-%d %H:%M:%S"@,
        "%Y-%m-%d %I:%M:%S %p"@,
        "%Y/%m/%d %H:%M:%S"@,
        "%Y/%m/%d %I:%M:%S %p"@,
        "%m/%d/%Y %H:%M:%S"@,
        "%d/%m/%Y %H:%M:%S"@,
        "%d.%m.%Y %H:%M:%S"@,
        "%d-%m-%Y %H:%M:%S"@,
        "%d %b %Y %H:%M:%S"@,
        "%b %d %Y %H:%M:%S"@,
        "%a %b %d %H:%M:%S %Y"@,
    ]
}

/// The timestamp formats tried, in order.
pub fn time_format_list() -> (v: Vec<String>)
    ensures
        views(v@) == time_formats(),
{
    let mut v: Vec<String> = Vec::new();
    v.push(String::from_str("%a, %d %b %Y %H:%M:%S %z"));
    v.push(String::from_str("%A, %d %b %Y %H:%M:%S %z"));
    v.push(String::from_str("%a, %d %b %Y %H:%M:%S"));
    v.push(String::from_str("%Y-%m-%dT%H:%M:%S%:z"));
    v.push(String::from_str("%Y-%m-%dT%H:%M:%S"));
    v.push(String::from_str("%Y-%m-%d %H:%M:%S"));
    v.push(String::from_str("%Y-%m-%d %I:%M:%S %p"));
    v.push(String::from_str("%Y/%m/%d %H:%M:%S"));
    v.push(String::from_str("%Y/%m/%d %I:%M:%S %p"));
    v.push(String::from_str("%m/%d/%Y %H:%M:%S"));
    v.push(String::from_str("%d/%m/%Y %H:%M:%S"));
    v.push(String::from_str("%d.%m.%Y %H:%M:%S"));
    v.push(String::from_str("%d-%m-%Y %H:%M:%S"));
    v.push(String::from_str("%d %b %Y %H:%M:%S"));
    v.push(String::from_str("%b %d %Y %H:%M:%S"));
    v.push(String::from_str("%a %b %d %H:%M:%S %Y"));
    assert(views(v@) =~= time_formats());
    v
}

/// A timestamp read by the first format, of `fmts`, that reads it: each format is tried
/// with an offset first and then without one (taken as UTC).
pub open spec fn parse_attempts(text: Seq<char>, fmts: Seq<Seq<char>>) -> Option<(i64, u32, Seq<char>)>
    decreases fmts.len(),
{
    if fmts.len() == 0 {
        None
    } else {
        match zoned_parse(text, fmts[0]) {
            Some((s, n)) => Some((s, n, fmts[0])),
            None => match naive_parse(text, fmts[0]) {
                Some((s, n)) => Some((s, n, fmts[0])),
                None => parse_attempts(text, fmts.drop_first()),
            },
        }
    }
}

/// A timestamp read by the first format that reads it, else as whole Unix seconds
/// ("UNIX TIME"), else none.
pub open spec fn parsed_timestamp(text: Seq<char>) -> Option<(i64, u32, Seq<char>)> {
    match parse_attempts(text, time_formats()) {
        Some(r) => Some(r),
        None => match i64_text_value(text) {
            Some(secs) => if unix_seconds_in_range(secs) {
                Some((secs, 0u32, "UNIX TIME"@))
            } else {
                None
            },
            None => None,
        },
    }
}

/// Whether the format `fmt` reads `text`, with an offset or without one.
pub open spec fn format_reads(text: Seq<char>, fmt: Seq<char>) -> bool {
    zoned_parse(text, fmt) is Some || naive_parse(text, fmt) is Some
}

/// In any list of formats, a format that reads the text and comes before every copy of
/// `other` keeps `other` from being the one reported.
proof fn lemma_earlier_format_wins(text: Seq<char>, fmts: Seq<Seq<char>>, a: int, other: Seq<char>)
    requires
        0 <= a < fmts.len(),
        format_reads(text, fmts[a]),
        forall|j: int| 0 <= j <= a ==> fmts[j] != other,
    ensures
        parse_attempts(text, fmts) is Some,
        parse_attempts(text, fmts) matches Some((s, n, f)) ==> f != other,
    decreases fmts.len(),
{
    if a > 0 && zoned_parse(text, fmts[0]) is None && naive_parse(text, fmts[0]) is None {
        let rest = fmts.drop_first();
        assert forall|j: int| 0 <= j <= a - 1 implies rest[j] != other by {
            assert(rest[j] == fmts[j + 1]);
        }
        assert(rest[a - 1] == fmts[a]);
        lemma_earlier_format_wins(text, rest, a - 1, other);
    }
}

/// US dates come before European ones: the formats list `%m/%d/%Y %H:%M:%S` (tenth) before
/// `%d/%m/%Y %H:%M:%S` (eleventh), so a text that the US form reads is never reported as
/// read by the European form, whatever earlier form reads it.
pub proof fn lemma_us_dates_before_european(text: Seq<char>)
    requires
        format_reads(text, "%m/%d/%Y %H:%M:%S"@),
    ensures
        time_formats()[9] == "%m/%d/%Y %H:%M:%S"@,
        time_formats()[10] == "%d/%m/%Y %H:%M:%S"@,
        parsed_timestamp(text) is Some,
        parsed_timestamp(text) matches Some((s, n, f)) ==> f != "%d/%m/%Y %H:%M:%S"@,
{
    reveal_strlit("%a, %d %b %Y %H:%M:%S %z");
    reveal_strlit("%A, %d %b %Y %H:%M:%S %z");
    reveal_strlit("%a, %d %b %Y %H:%M:%S");
    reveal_strlit("%Y-%m-%dT%H:%M:%S%:z");
    reveal_strlit("%Y-%m-%dT%H:%M:%S");
    reveal_strlit("%Y-%m-%d %H:%M:%S");
    reveal_strlit("%Y-%m-%d %I:%M:%S %p");
    reveal_strlit("%Y/%m/%d %H:%M:%S");
    reveal_strlit("%Y/%m/%d %I:%M:%S %p");
    reveal_strlit("%m/%d/%Y %H:%M:%S");
    reveal_strlit("%d/%m/%Y %H:%M:%S");
    let fs = time_formats();
    let us = "%m/%d/%Y %H:%M:%S"@;
    let eu = "%d/%m/%Y %H:%M:%S"@;
    assert(fs[9] == us);
    assert(fs[10] == eu);
    assert forall|j: int| 0 <= j <= 9 implies fs[j] != eu by {
        assert(fs[j][1] != eu[1] || fs[j][0] != eu[0] || fs[j].len() != eu.len() || fs[j][4] != eu[4]);
    }
    lemma_earlier_format_wins(text, fs, 9, eu);
}

/// A timestamp read as `parsed_timestamp` says: the instant (Unix seconds, nanoseconds)
/// and the name of the format that read it.
pub fn parse_with_formats(text: &str) -> (r: Option<(i64, u32, String)>)
    ensures
        match r {
            Some((s, n, f)) => parsed_timestamp(text@) == Some((s, n, f@)),
            None => parsed_timestamp(text@) is None,
        },
        format_reads(text@, "%m/%d/%Y %H:%M:%S"@) ==> (r matches Some((s, n, f)) && f@ != "%d/%m/%Y %H:%M:%S"@),
{
    proof {
        if format_reads(text@, "%m/%d/%Y %H:%M:%S"@) {
            lemma_us_dates_before_european(text@);
        }
    }
    let formats = time_format_list();
    let mut i: usize = 0;
    assert(views(formats@).subrange(0, 16) =~= time_formats());
    while i < formats.len()
        invariant
            i <= formats@.len(),
            views(formats@) == time_formats(),
            parse_attempts(text@, time_formats()) == parse_attempts(text@, views(formats@).subrange(i as int, formats@.len() as int)),
            format_reads(text@, "%m/%d/%Y %H:%M:%S"@) ==> (parsed_timestamp(text@) matches Some((s, n, f)) && f != "%d/%m/%Y %H:%M:%S"@),
        decreases formats@.len() - i,
    {
        let f = formats[i].as_str();
        let ghost rest = views(formats@).subrange(i as int, formats@.len() as int);
        assert(rest[0] == f@);
        assert(rest.drop_first() =~= views(formats@).subrange(i + 1, formats@.len() as int));
        match parse_zoned(text, f) {
            Some((s, n)) => {
                return Some((s, n, String::from_str(f)));
            },
            None => {},
        }
        match parse_naive(text, f) {
            Some((s, n)) => {
                return Some((s, n, String::from_str(f)));
            },
            None => {},
        }
        i = i + 1;
    }
    assert(views(formats@).subrange(formats@.len() as int, formats@.len() as int) =~= Seq::<Seq<char>>::empty());
    match parse_i64(text) {
        Some(secs) => if seconds_in_range(secs) {
            Some((secs, 0, String::from_str("UNIX TIME")))
        } else {
            None
        },
        None => None,
    }
}

/// Names what chrono's `to_rfc2822` writes for the instant of `secs` Unix seconds and
/// `nanos` nanoseconds in UTC, if `DateTime::from_timestamp` accepts it.
pub uninterp spec fn rfc2822_text(secs: i64, nanos: u32) -> Option<Seq<char>>;

/// Names what chrono's `to_rfc3339` writes for that instant in UTC, if it is accepted.
pub uninterp spec fn rfc3339_text(secs: i64, nanos: u32) -> Option<Seq<char>>;

/// Names what chrono's `format("%Y-%m-%d %H:%M:%S")` writes for that instant in UTC, if
/// it is accepted.
pub uninterp spec fn sql_datetime_text(secs: i64, nanos: u32) -> Option<Seq<char>>;

/// Whether the instant of `secs` Unix seconds falls in the years 0 through 9999 (UTC),
/// the only years RFC 2822 can write.
pub open spec fn rfc2822_year_range(secs: i64) -> bool {
    -62167219200 <= secs <= 253402300799
}

/// `chrono::DateTime::from_timestamp(secs, nanos)` written by `to_rfc2822`, which panics
/// outside the years 0 through 9999 (hence the `requires`). Claims only that the result
/// is the named `rfc2822_text`.
#[verifier::external_body]
fn write_rfc2822(secs: i64, nanos: u32) -> (t: Option<String>)
    requires
        rfc2822_year_range(secs),
    ensures
        opt_view(t) == rfc2822_text(secs, nanos),
{
    chrono::DateTime::from_timestamp(secs, nanos).map(|d| d.to_rfc2822())
}

/// `chrono::DateTime::from_timestamp(secs, nanos)` written by `to_rfc3339`. Claims only
/// that the result is the named `rfc3339_text`.
#[verifier::external_body]
fn write_rfc3339(secs: i64, nanos: u32) -> (t: Option<String>)
    ensures
        opt_view(t) == rfc3339_text(secs, nanos),
{
    chrono::DateTime::from_timestamp(secs, nanos).map(|d| d.to_rfc3339())
}

/// `chrono::DateTime::from_timestamp(secs, nanos)` written by
/// `format("%Y-%m-%d %H:%M:%S")`. Claims only that the result is the named
/// `sql_datetime_text`.
#[verifier::external_body]
fn write_sql_datetime(secs: i64, nanos: u32) -> (t: Option<String>)
    ensures
        opt_view(t) == sql_datetime_text(secs, nanos),
{
    chrono::DateTime::from_timestamp(secs, nanos).map(|d| d.format("%Y-%m-%d %H:%M:%S").to_string())
}

/// An instant written out in the usual ways, with the text and format it was read from
/// when it was read from one.
pub struct TimeDescription {
    pub original_timestring: Option<String>,
    pub original_timestring_format: Option<String>,
    pub unix_time: i64,
    pub rfc2822: String,
    pub rfc3339: String,
    pub sql_datetime: String,
}

/// Whether `d` describes the instant `secs`.`nanos`, read from `source` (text and
/// format) if there is one.
pub open spec fn describes(d: TimeDescription, secs: i64, nanos: u32, source: Option<(Seq<char>, Seq<char>)>) -> bool {
    &&& d.unix_time == secs
    &&& rfc2822_text(secs, nanos) == Some(d.rfc2822@)
    &&& rfc3339_text(secs, nanos) == Some(d.rfc3339@)
    &&& sql_datetime_text(secs, nanos) == Some(d.sql_datetime@)
    &&& match source {
        Some((text, fmt)) => opt_view(d.original_timestring) == Some(text) && opt_view(d.original_timestring_format) == Some(fmt),
        None => d.original_timestring is None && d.original_timestring_format is None,
    }
}

/// Whether chrono writes the instant in all three ways.
pub open spec fn writable(secs: i64, nanos: u32) -> bool {
    rfc2822_text(secs, nanos) is Some && rfc3339_text(secs, nanos) is Some && sql_datetime_text(secs, nanos) is Some
}

/// The instant `secs` Unix seconds and `nanos` nanoseconds described, with the text and
/// format it was read from, if any; `None` where chrono does not write it.
pub fn describe_time(secs: i64, nanos: u32, source: Option<(String, String)>) -> (r: Option<TimeDescription>)
    requires
        rfc2822_year_range(secs),
    ensures
        r is Some <==> writable(secs, nanos),
        r matches Some(d) ==> describes(d, secs, nanos, match source {
            Some((t, f)) => Some((t@, f@)),
            None => None,
        }),
{
    let rfc2822 = match write_rfc2822(secs, nanos) {
        Some(t) => t,
        None => return None,
    };
    let rfc3339 = match write_rfc3339(secs, nanos) {
        Some(t) => t,
        None => return None,
    };
    let sql_datetime = match write_sql_datetime(secs, nanos) {
        Some(t) => t,
        None => return None,
    };
    let (original_timestring, original_timestring_format) = match source {
        Some((t, f)) => (Some(t), Some(f)),
        None => (None, None),
    };
    Some(TimeDescription { original_timestring, original_timestring_format, unix_time: secs, rfc2822, rfc3339, sql_datetime })
}

/// Whether the timestamp read from `text`, if any, can be written in RFC 2822.
pub open spec fn parsed_in_year_range(text: Seq<char>) -> bool {
    match parsed_timestamp(text) {
        Some((s, n, f)) => rfc2822_year_range(s),
        None => true,
    }
}

/// What the parse endpoint answers for the (decoded) query `text`: the description of
/// the timestamp it reads, or "Not Valid format". The timestamp must lie in the years 0
/// through 9999: RFC 2822 cannot write others.
pub fn convert_timestamp(text: &str) -> (r: Result<TimeDescription, String>)
    requires
        parsed_in_year_range(text@),
    ensures
        match parsed_timestamp(text@) {
            Some((s, n, f)) => if writable(s, n) {
                r matches Ok(d) && describes(d, s, n, Some((text@, f)))
            } else {
                r matches Err(e) && e@ == "Not Valid format"@
            },
            None => r matches Err(e) && e@ == "Not Valid format"@,
        },
{
    match parse_with_formats(text) {
        Some((s, n, f)) => match describe_time(s, n, Some((String::from_str(text), f))) {
            Some(d) => Ok(d),
            None => Err(String::from_str("Not Valid format")),
        },
        None => Err(String::from_str("Not Valid format")),
    }
}

/// The parse endpoint's answer where there is one: `None` when `text` reads as an
/// instant outside the years 0 through 9999, which RFC 2822 cannot write; otherwise
/// what `convert_timestamp` answers.
pub fn try_convert_timestamp(text: &str) -> (r: Option<Result<TimeDescription, String>>)
    ensures
        r is None <==> !parsed_in_year_range(text@),
        r matches Some(res) ==> match parsed_timestamp(text@) {
            Some((s, n, f)) => if writable(s, n) {
                res matches Ok(d) && describes(d, s, n, Some((text@, f)))
            } else {
                res matches Err(e) && e@ == "Not Valid format"@
            },
            None => res matches Err(e) && e@ == "Not Valid format"@,
        },
{
    match parse_with_formats(text) {
        Some((s, _, _)) => if s < -62167219200 || s > 253402300799 {
            return None;
        },
        None => {},
    }
    Some(convert_timestamp(text))
}

/// The kinds of place a coffee recommendation never picks.
pub open spec fn excluded_place_types() -> Seq<Seq<char>> {
    seq![
        "hotel"@,
        "lodge"@,
        "lodging"@,
        "gas_station"@,
        "convenience_store"@,
        "grocery_or_supermarket"@,
        "night_club"@,
    ]
}

/// Whether a place with these types is left out of a nearby search: one of its types is
/// an excluded kind.
pub fn place_type_excluded(types: &Vec<String>) -> (res: bool)
    ensures
        res == (exists|i: int| 0 <= i < types@.len() && excluded_place_types().contains(#[trigger] types@[i]@)),
{
    let excluded = ["hotel", "lodge", "lodging", "gas_station", "convenience_store", "grocery_or_supermarket", "night_club"];
    proof {
        reveal_strlit("hotel");
        reveal_strlit("lodge");
        reveal_strlit("lodging");
        reveal_strlit("gas_station");
        reveal_strlit("convenience_store");
        reveal_strlit("grocery_or_supermarket");
        reveal_strlit("night_club");
        assert(excluded@.map_values(|k: &str| k@) =~= excluded_place_types());
    }
    let mut j: usize = 0;
    while j < excluded.len()
        invariant
            j <= excluded@.len(),
            excluded@.len() == 7,
            excluded@.map_values(|k: &str| k@) == excluded_place_types(),
            forall|i: int, k: int| 0 <= i < types@.len() && 0 <= k < j ==> types@[i]@ != excluded@[k]@,
        decreases excluded@.len() - j,
    {
        if contains_string(types, excluded[j]) {
            proof {
                let i = choose|i: int| 0 <= i < types@.len() && types@[i]@ == excluded@[j as int]@;
                assert(excluded_place_types()[j as int] == types@[i]@);
            }
            return true;
        }
        j = j + 1;
    }
    proof {
        assert forall|i: int| 0 <= i < types@.len() implies !excluded_place_types().contains(#[trigger] types@[i]@) by {
            if excluded_place_types().contains(types@[i]@) {
                let k = choose|k: int| 0 <= k < 7 && excluded_place_types()[k] == types@[i]@;
                assert(excluded_place_types()[k] == excluded@[k]@);
            }
        }
    }
    false
}

/// The only content type that announces a multipart boundary.
pub open spec fn multipart_prefix() -> Seq<char> {
    "multipart/form-data; boundary="@
}

/// The boundary announced by the content type `ct` (which starts with the multipart
/// prefix): the text after the prefix, up to any further `boundary=`.
pub open spec fn boundary_of(ct: Seq<char>) -> Seq<char> {
    match first_occurrence_from(ct, "boundary="@, 30) {
        Some(j) => ct.subrange(30, j),
        None => ct.subrange(30, ct.len() as int),
    }
}

/// How many bytes UTF-8 takes for `c`.
pub open spec fn utf8_width(c: char) -> nat {
    if (c as u32) < 0x80 {
        1
    } else if (c as u32) < 0x800 {
        2
    } else if (c as u32) < 0x10000 {
        3
    } else {
        4
    }
}

/// How many bytes UTF-8 takes for the first `k` characters of `s`.
pub open spec fn utf8_prefix_len(s: Seq<char>, k: int) -> nat
    decreases k,
{
    if k <= 0 {
        0
    } else {
        utf8_prefix_len(s, k - 1) + utf8_width(s[k - 1])
    }
}

/// Whether the UTF-8 text of `s` has a character boundary at byte `n`.
pub open spec fn char_boundary_at(s: Seq<char>, n: nat) -> bool {
    exists|k: int| 0 <= k <= s.len() && utf8_prefix_len(s, k) == n
}

/// The boundary of a multipart upload, from its `content-type` header: the header must
/// start with `multipart/form-data; boundary=`; the boundary is what follows, up to any
/// further `boundary=`. The header's first 30 bytes are compared as a slice, so the
/// header must have a character boundary at byte 30.
pub fn get_multipart_boundary(content_type: &str) -> (r: Result<String, String>)
    requires
        char_boundary_at(content_type@, 30),
    ensures
        has_prefix(content_type@, multipart_prefix()) ==> (r matches Ok(b) && b@ == boundary_of(content_type@)),
        !has_prefix(content_type@, multipart_prefix()) ==> (r matches Err(e) && e@ == "Can't find boundary from header"@),
{
    proof {
        reveal_strlit("multipart/form-data; boundary=");
    }
    if !starts_with(content_type, "multipart/form-data; boundary=") {
        return Err(String::from_str("Can't find boundary from header"));
    }
    let v = chars_of(content_type);
    let pat = chars_of("boundary=");
    proof {
        reveal_strlit("boundary=");
        lemma_first_occurrence(v@, pat@, 30);
    }
    let end = match find_from(&v, &pat, 30) {
        Some(j) => j,
        None => v.len(),
    };
    Ok(string_from_range(&v, 30, end))
}

} // verus!
