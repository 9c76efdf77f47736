//! Turning the properties of one multi-status response element into a
//! discovered entry: sizes, HTTP dates, fingerprints and the exclusion of the
//! listed collection itself.

use vstd::prelude::*;
use crate::sync::{DiscoveredEntry, Fingerprint};
use crate::text::str_eq;

verus! {

/// The properties of one response element, as text.
#[derive(Debug)]
pub struct RawResponse {
    pub href: String,
    pub content_length: Option<String>,
    pub last_modified: Option<String>,
    pub etag: Option<String>,
    pub is_collection: bool,
}

pub open spec fn is_digit(c: char) -> bool {
    '0' <= c && c <= '9'
}

pub open spec fn digit_val(c: char) -> nat {
    (c as nat - '0' as nat) as nat
}

/// Value of a string of decimal digits.
pub open spec fn decimal_value(s: Seq<char>) -> nat
    decreases s.len(),
{
    if s.len() == 0 {
        0
    } else {
        decimal_value(s.drop_last()) * 10 + digit_val(s.last())
    }
}

pub open spec fn all_digits(s: Seq<char>) -> bool {
    forall|i: int| 0 <= i < s.len() ==> is_digit(#[trigger] s[i])
}

/// A non-empty run of digits whose value fits in `u64`.
pub open spec fn decimal_spec(s: Seq<char>) -> Option<u64> {
    if s.len() > 0 && all_digits(s) && decimal_value(s) <= u64::MAX {
        Some(decimal_value(s) as u64)
    } else {
        None
    }
}

proof fn lemma_decimal_prefix_bound(s: Seq<char>, k: int)
    requires
        all_digits(s),
        0 <= k <= s.len(),
    ensures
        decimal_value(s.take(k)) <= decimal_value(s),
    decreases s.len() - k,
{
    if k < s.len() {
        lemma_decimal_prefix_bound(s, k + 1);
        assert(s.take(k + 1).drop_last() =~= s.take(k));
    } else {
        assert(s.take(k) =~= s);
    }
}

/// Parses a decimal number.
pub fn parse_decimal(s: &str) -> (r: Option<u64>)
    ensures
        r == decimal_spec(s@),
{
    let n = s.unicode_len();
    if n == 0 {
        return None;
    }
    let mut v: u64 = 0;
    let mut i: usize = 0;
    while i < n
        invariant
            n == s@.len(),
            i <= n,
            all_digits(s@.take(i as int)),
            v == decimal_value(s@.take(i as int)),
        decreases n - i,
    {
        let c = s.get_char(i);
        assert(s@.take(i as int + 1).drop_last() =~= s@.take(i as int));
        if !('0' <= c && c <= '9') {
            assert(!all_digits(s@));
            return None;
        }
        let d = (c as u32 - '0' as u32) as u64;
        if v > (u64::MAX - d) / 10 {
            proof {
                assert(all_digits(s@.take(i as int + 1)));
                if all_digits(s@) {
                    lemma_decimal_prefix_bound(s@, i as int + 1);
                }
            }
            return None;
        }
        v = v * 10 + d;
        i = i + 1;
    }
    assert(s@.take(i as int) =~= s@);
    Some(v)
}

pub open spec fn is_leap(y: nat) -> bool {
    (y % 4 == 0 && y % 100 != 0) || y % 400 == 0
}

pub open spec fn days_in_month(y: nat, m: nat) -> nat {
    if m == 2 {
        if is_leap(y) {
            29
        } else {
            28
        }
    } else if m == 4 || m == 6 || m == 9 || m == 11 {
        30
    } else {
        31
    }
}

/// Days of year `y` before the first of month `m`.
pub open spec fn days_before_month(y: nat, m: nat) -> nat
    decreases m,
{
    if m <= 1 {
        0
    } else {
        days_before_month(y, (m - 1) as nat) + days_in_month(y, (m - 1) as nat)
    }
}

/// Days from 1970-01-01 to the first of January of year `y`.
pub open spec fn days_before_year(y: nat) -> nat
    decreases y,
{
    if y <= 1970 {
        0
    } else {
        days_before_year((y - 1) as nat) + if is_leap((y - 1) as nat) {
            366nat
        } else {
            365nat
        }
    }
}

/// Month number of an English three-letter abbreviation.
pub open spec fn month_of(m: Seq<char>) -> nat {
    if m == "Jan"@ {
        1
    } else if m == "Feb"@ {
        2
    } else if m == "Mar"@ {
        3
    } else if m == "Apr"@ {
        4
    } else if m == "May"@ {
        5
    } else if m == "Jun"@ {
        6
    } else if m == "Jul"@ {
        7
    } else if m == "Aug"@ {
        8
    } else if m == "Sep"@ {
        9
    } else if m == "Oct"@ {
        10
    } else if m == "Nov"@ {
        11
    } else if m == "Dec"@ {
        12
    } else {
        0
    }
}

/// Whether the separators of `Sun, 06 Nov 1994 08:49:37 GMT` are in place.
pub open spec fn date_layout(s: Seq<char>) -> bool {
    &&& s.len() == 29
    &&& s[3] == ',' && s[4] == ' ' && s[7] == ' ' && s[11] == ' ' && s[16] == ' '
    &&& s[19] == ':' && s[22] == ':' && s[25] == ' '
    &&& s.subrange(26, 29) == "GMT"@
}

/// Seconds since the epoch of an HTTP date from 1970 on; `None` for a
/// malformed one.
pub open spec fn http_date_spec(s: Seq<char>) -> Option<u64> {
    if !date_layout(s) {
        None
    } else {
        let d = decimal_spec(s.subrange(5, 7));
        let m = month_of(s.subrange(8, 11));
        let y = decimal_spec(s.subrange(12, 16));
        let hh = decimal_spec(s.subrange(17, 19));
        let mm = decimal_spec(s.subrange(20, 22));
        let ss = decimal_spec(s.subrange(23, 25));
        if d.is_none() || y.is_none() || hh.is_none() || mm.is_none() || ss.is_none() || m == 0 {
            None
        } else {
            let (d, y, hh, mm, ss) = (
                d.unwrap() as nat,
                y.unwrap() as nat,
                hh.unwrap() as nat,
                mm.unwrap() as nat,
                ss.unwrap() as nat,
            );
            if y < 1970 || d < 1 || d > days_in_month(y, m) || hh > 23 || mm > 59 || ss > 59 {
                None
            } else {
                Some(
                    ((days_before_year(y) + days_before_month(y, m) + d - 1) * 86400 + hh * 3600
                        + mm * 60 + ss) as u64,
                )
            }
        }
    }
}

fn leap(y: u64) -> (r: bool)
    ensures
        r == is_leap(y as nat),
{
    (y % 4 == 0 && y % 100 != 0) || y % 400 == 0
}

fn month_length(y: u64, m: u64) -> (r: u64)
    ensures
        r == days_in_month(y as nat, m as nat),
{
    if m == 2 {
        if leap(y) {
            29
        } else {
            28
        }
    } else if m == 4 || m == 6 || m == 9 || m == 11 {
        30
    } else {
        31
    }
}

fn month_number(m: &str) -> (r: u64)
    ensures
        r == month_of(m@),
{
    if str_eq(m, "Jan") {
        1
    } else if str_eq(m, "Feb") {
        2
    } else if str_eq(m, "Mar") {
        3
    } else if str_eq(m, "Apr") {
        4
    } else if str_eq(m, "May") {
        5
    } else if str_eq(m, "Jun") {
        6
    } else if str_eq(m, "Jul") {
        7
    } else if str_eq(m, "Aug") {
        8
    } else if str_eq(m, "Sep") {
        9
    } else if str_eq(m, "Oct") {
        10
    } else if str_eq(m, "Nov") {
        11
    } else if str_eq(m, "Dec") {
        12
    } else {
        0
    }
}

pub open spec fn pow10(n: nat) -> nat
    decreases n,
{
    if n == 0 {
        1
    } else {
        10 * pow10((n - 1) as nat)
    }
}

proof fn lemma_decimal_below_pow10(s: Seq<char>)
    requires
        all_digits(s),
    ensures
        decimal_value(s) < pow10(s.len()),
    decreases s.len(),
{
    if s.len() > 0 {
        assert(all_digits(s.drop_last()));
        assert(is_digit(s[s.len() - 1]));
        lemma_decimal_below_pow10(s.drop_last());
    }
}

proof fn lemma_days_before_year_bound(y: nat)
    ensures
        days_before_year(y) <= 366 * y,
    decreases y,
{
    if y > 1970 {
        lemma_days_before_year_bound((y - 1) as nat);
    }
}

proof fn lemma_days_before_month_bound(y: nat, m: nat)
    ensures
        days_before_month(y, m) <= 31 * m,
    decreases m,
{
    if m > 1 {
        lemma_days_before_month_bound(y, (m - 1) as nat);
    }
}

/// Parses an HTTP date such as `Sun, 06 Nov 1994 08:49:37 GMT`.
pub fn parse_http_date(s: &str) -> (r: Option<u64>)
    ensures
        r == http_date_spec(s@),
{
    proof {
        reveal_strlit("GMT");
    }
    let n = s.unicode_len();
    if n != 29 {
        return None;
    }
    if !(s.get_char(3) == ',' && s.get_char(4) == ' ' && s.get_char(7) == ' ' && s.get_char(11)
        == ' ' && s.get_char(16) == ' ' && s.get_char(19) == ':' && s.get_char(22) == ':'
        && s.get_char(25) == ' ') {
        return None;
    }
    if !str_eq(s.substring_char(26, 29), "GMT") {
        return None;
    }
    assert(date_layout(s@));
    let d = parse_decimal(s.substring_char(5, 7));
    let m = month_number(s.substring_char(8, 11));
    let y = parse_decimal(s.substring_char(12, 16));
    let hh = parse_decimal(s.substring_char(17, 19));
    let mm = parse_decimal(s.substring_char(20, 22));
    let ss = parse_decimal(s.substring_char(23, 25));
    match (d, y, hh, mm, ss) {
        (Some(d), Some(y), Some(hh), Some(mm), Some(ss)) => {
            if m == 0 {
                return None;
            }
            if y < 1970 || d < 1 || d > month_length(y, m) || hh > 23 || mm > 59 || ss > 59 {
                return None;
            }
            proof {
                lemma_decimal_below_pow10(s@.subrange(12, 16));
                assert(pow10(0) == 1);
                assert(pow10(1) == 10);
                assert(pow10(2) == 100);
                assert(pow10(3) == 1000);
                assert(pow10(4) == 10000);
            }
            let mut days: u64 = 0;
            let mut yy: u64 = 1970;
            while yy < y
                invariant
                    1970 <= yy <= y,
                    y < 10000,
                    days == days_before_year(yy as nat),
                decreases y - yy,
            {
                proof {
                    lemma_days_before_year_bound(yy as nat);
                }
                days = days + if leap(yy) {
                    366
                } else {
                    365
                };
                yy = yy + 1;
            }
            let mut mdays: u64 = 0;
            let mut k: u64 = 1;
            while k < m
                invariant
                    1 <= k <= m,
                    m <= 12,
                    mdays == days_before_month(y as nat, k as nat),
                decreases m - k,
            {
                proof {
                    lemma_days_before_month_bound(y as nat, k as nat);
                }
                mdays = mdays + month_length(y, k);
                k = k + 1;
            }
            proof {
                lemma_days_before_year_bound(y as nat);
                lemma_days_before_month_bound(y as nat, m as nat);
            }
            let total_days: u64 = days + mdays + d - 1;
            assert(total_days <= 366 * 10000 + 31 * 12 + 31);
            Some(total_days * 86400 + hh * 3600 + mm * 60 + ss)
        },
        _ => None,
    }
}

/// Whether `href` names the listed collection itself, with or without a
/// trailing slash on either side.
pub open spec fn is_self_ref(href: Seq<char>, root: Seq<char>) -> bool {
    href == root || href == root.push('/') || href.push('/') == root
}

/// Size of an entry: the content length where it reads as a number, else zero.
pub open spec fn size_spec(len: Option<String>) -> u64 {
    match len {
        Some(t) => match decimal_spec(t@) {
            Some(v) => v,
            None => 0,
        },
        None => 0,
    }
}

/// Modification time and whether it can be trusted: a missing value is the
/// epoch, an unreadable one the epoch flagged as unreliable.
pub open spec fn mtime_spec(lm: Option<String>) -> (u64, bool) {
    match lm {
        Some(t) => match http_date_spec(t@) {
            Some(v) => (v, true),
            None => (0, false),
        },
        None => (0, true),
    }
}

/// The entity tag where one was reported, else size and modification time.
pub open spec fn fingerprint_spec(etag: Option<String>, size: u64, mtime: u64) -> Fingerprint {
    match etag {
        Some(t) => Fingerprint::Tag(t),
        None => Fingerprint::SizeTime(size, mtime),
    }
}

/// The entry of a response element; `None` for the collection itself.
pub open spec fn entry_spec(raw: RawResponse, root: Seq<char>) -> Option<DiscoveredEntry> {
    if is_self_ref(raw.href@, root) {
        None
    } else {
        let size = size_spec(raw.content_length);
        let (mtime, reliable) = mtime_spec(raw.last_modified);
        Some(
            DiscoveredEntry {
                path: raw.href,
                size: size,
                last_modified: mtime,
                fingerprint: fingerprint_spec(raw.etag, size, mtime),
                reliable: reliable,
                is_directory: raw.is_collection,
            },
        )
    }
}

/// Whether `a` is `b` followed by one slash.
fn is_slash_extension(a: &str, b: &str) -> (r: bool)
    ensures
        r == (a@ == b@.push('/')),
{
    let na = a.unicode_len();
    let nb = b.unicode_len();
    if na == 0 || na - 1 != nb || a.get_char(nb) != '/' {
        return false;
    }
    let mut i: usize = 0;
    while i < nb
        invariant
            na == a@.len(),
            nb == b@.len(),
            na == nb + 1,
            a@[nb as int] == '/',
            i <= nb,
            forall|k: int| 0 <= k < i ==> a@[k] == b@[k],
        decreases nb - i,
    {
        if a.get_char(i) != b.get_char(i) {
            assert(b@.push('/')[i as int] == b@[i as int]);
            return false;
        }
        i = i + 1;
    }
    assert(a@ =~= b@.push('/'));
    true
}

/// Builds the discovered entry of one response element. Missing properties
/// are zero or empty, never an error; the collection itself is left out.
pub fn entry_from_response(raw: &RawResponse, root_href: &str) -> (r: Option<DiscoveredEntry>)
    ensures
        r == entry_spec(*raw, root_href@),
{
    if str_eq(raw.href.as_str(), root_href) || is_slash_extension(raw.href.as_str(), root_href)
        || is_slash_extension(root_href, raw.href.as_str()) {
        return None;
    }
    let size: u64 = match &raw.content_length {
        Some(t) => match parse_decimal(t.as_str()) {
            Some(v) => v,
            None => 0,
        },
        None => 0,
    };
    let (mtime, reliable): (u64, bool) = match &raw.last_modified {
        Some(t) => match parse_http_date(t.as_str()) {
            Some(v) => (v, true),
            None => (0, false),
        },
        None => (0, true),
    };
    let fingerprint = match &raw.etag {
        Some(t) => Fingerprint::Tag(t.clone()),
        None => Fingerprint::SizeTime(size, mtime),
    };
    Some(
        DiscoveredEntry {
            path: raw.href.clone(),
            size,
            last_modified: mtime,
            fingerprint,
            reliable,
            is_directory: raw.is_collection,
        },
    )
}

/// Entries of a listing, in order, without the collection itself.
pub open spec fn entries_spec(raws: Seq<RawResponse>, root: Seq<char>) -> Seq<DiscoveredEntry>
    decreases raws.len(),
{
    if raws.len() == 0 {
        Seq::empty()
    } else {
        let prior = entries_spec(raws.drop_last(), root);
        match entry_spec(raws.last(), root) {
            Some(e) => prior.push(e),
            None => prior,
        }
    }
}

/// Builds the entries of a listing in order, leaving out the collection itself.
pub fn entries_from_responses(raws: &Vec<RawResponse>, root_href: &str) -> (r: Vec<
    DiscoveredEntry,
>)
    ensures
        r@ == entries_spec(raws@, root_href@),
{
    let mut out: Vec<DiscoveredEntry> = Vec::new();
    let mut i: usize = 0;
    while i < raws.len()
        invariant
            i <= raws@.len(),
            out@ == entries_spec(raws@.take(i as int), root_href@),
        decreases raws@.len() - i,
    {
        assert(raws@.take(i as int + 1).drop_last() =~= raws@.take(i as int));
        assert(raws@.take(i as int + 1).last() == raws@[i as int]);
        match entry_from_response(&raws[i], root_href) {
            Some(e) => out.push(e),
            None => {},
        }
        i = i + 1;
    }
    assert(raws@.take(i as int) =~= raws@);
    out
}

/// A response element without an entity tag still gives an entry, with the
/// size and modification time as its fingerprint, and takes its place after
/// the entries before it.
pub proof fn lemma_missing_tag_falls_back(
    before: Seq<RawResponse>,
    raw: RawResponse,
    root: Seq<char>,
)
    requires
        raw.etag.is_none(),
        !is_self_ref(raw.href@, root),
    ensures
        entry_spec(raw, root) matches Some(e) && e.path == raw.href && e.fingerprint
            == Fingerprint::SizeTime(e.size, e.last_modified),
        entries_spec(before.push(raw), root) == entries_spec(before, root).push(
            entry_spec(raw, root).unwrap(),
        ),
{
    assert(before.push(raw).drop_last() =~= before);
}

} // verus!
