//! The weather question grammar and the ensemble probability lookup.
//!
//! Market questions name a city, a date and a high-temperature bucket
//! ("Will the highest temperature in Chicago be between 34-35°F on
//! February 11?"). This module extracts all three as plain values, and
//! looks a bucket's probability up in an ensemble forecast. Dates come
//! in as the caller's notion of "today" (year, month, day), since only
//! the process border knows the clock; bucket bounds are whole degrees
//! Fahrenheit and probabilities micro-units.

use vstd::prelude::*;
use vstd::string::StringSliceAdditionalSpecFns;

use crate::money::{digits_val, is_digit, SCALE};
use crate::textscan::{
    contains_bytes, contains_sub, eq_bytes, eq_lower, find_sub, lower_bytes, occurs_at, sub_at,
};

verus! {

/// The UTF-8 bytes of an owned string, for contracts over `String`
/// fields.
pub open spec fn string_bytes(s: String) -> Seq<u8> {
    vstd::utf8::encode_utf8(s@)
}

/// One temperature bucket of an ensemble forecast.
#[derive(Debug, Clone)]
pub struct BucketProbability {
    pub bucket_label: String,
    pub lower: i64,
    pub upper: i64,
    pub probability: i64,
}

/// An ensemble forecast for one city and date. Temperatures are tenths
/// of a degree Fahrenheit, probabilities micro-units.
#[derive(Debug, Clone)]
pub struct WeatherProbabilities {
    pub city: String,
    pub station_icao: String,
    pub forecast_date: String,
    pub buckets: Vec<BucketProbability>,
    pub ensemble_mean: i64,
    pub ensemble_std: i64,
    pub gefs_count: u32,
    pub ecmwf_count: u32,
    pub nws_forecast_high: Option<i64>,
    pub bias_correction: Option<i64>,
}

/// What a weather question names: city code, ISO date, and the
/// temperature bucket in whole degrees.
#[derive(Debug, Clone)]
pub struct WeatherMarketInfo {
    pub city: String,
    pub date: String,
    pub bucket_label: String,
    pub bucket_lower: i64,
    pub bucket_upper: i64,
}

// ─── Month names ───

/// The lowercase name of month `m`.
pub open spec fn month_name(m: int) -> Seq<u8> {
    if m == 1 {
        "january".spec_bytes()
    } else if m == 2 {
        "february".spec_bytes()
    } else if m == 3 {
        "march".spec_bytes()
    } else if m == 4 {
        "april".spec_bytes()
    } else if m == 5 {
        "may".spec_bytes()
    } else if m == 6 {
        "june".spec_bytes()
    } else if m == 7 {
        "july".spec_bytes()
    } else if m == 8 {
        "august".spec_bytes()
    } else if m == 9 {
        "september".spec_bytes()
    } else if m == 10 {
        "october".spec_bytes()
    } else if m == 11 {
        "november".spec_bytes()
    } else {
        "december".spec_bytes()
    }
}

/// The month a name denotes, compared case-insensitively.
pub open spec fn spec_month_of(s: Seq<u8>) -> Option<u32> {
    if lower_bytes(s) == month_name(1) {
        Some(1u32)
    } else if lower_bytes(s) == month_name(2) {
        Some(2u32)
    } else if lower_bytes(s) == month_name(3) {
        Some(3u32)
    } else if lower_bytes(s) == month_name(4) {
        Some(4u32)
    } else if lower_bytes(s) == month_name(5) {
        Some(5u32)
    } else if lower_bytes(s) == month_name(6) {
        Some(6u32)
    } else if lower_bytes(s) == month_name(7) {
        Some(7u32)
    } else if lower_bytes(s) == month_name(8) {
        Some(8u32)
    } else if lower_bytes(s) == month_name(9) {
        Some(9u32)
    } else if lower_bytes(s) == month_name(10) {
        Some(10u32)
    } else if lower_bytes(s) == month_name(11) {
        Some(11u32)
    } else {
        if lower_bytes(s) == month_name(12) {
            Some(12u32)
        } else {
            None
        }
    }
}

/// Convert a month name (any case) to its number, one to twelve.
pub fn month_name_to_number(name: &str) -> (r: Option<u32>)
    ensures
        r == spec_month_of(name.spec_bytes()),
{
    let b = name.as_bytes();
    if eq_lower(b, "january".as_bytes()) {
        Some(1)
    } else if eq_lower(b, "february".as_bytes()) {
        Some(2)
    } else if eq_lower(b, "march".as_bytes()) {
        Some(3)
    } else if eq_lower(b, "april".as_bytes()) {
        Some(4)
    } else if eq_lower(b, "may".as_bytes()) {
        Some(5)
    } else if eq_lower(b, "june".as_bytes()) {
        Some(6)
    } else if eq_lower(b, "july".as_bytes()) {
        Some(7)
    } else if eq_lower(b, "august".as_bytes()) {
        Some(8)
    } else if eq_lower(b, "september".as_bytes()) {
        Some(9)
    } else if eq_lower(b, "october".as_bytes()) {
        Some(10)
    } else if eq_lower(b, "november".as_bytes()) {
        Some(11)
    } else if eq_lower(b, "december".as_bytes()) {
        Some(12)
    } else {
        None
    }
}

// ─── City patterns ───

/// The city code a question names: the first pattern of the fixed
/// table that occurs in the text wins.
#[verifier::opaque]
pub open spec fn spec_city_of(q: Seq<u8>) -> Option<Seq<char>> {
    if contains_sub(q, "New York".spec_bytes()) || contains_sub(q, "NYC".spec_bytes()) {
        Some("NYC"@)
    } else if contains_sub(q, "Los Angeles".spec_bytes()) {
        Some("LAX"@)
    } else if contains_sub(q, "Chicago".spec_bytes()) {
        Some("CHI"@)
    } else if contains_sub(q, "Houston".spec_bytes()) {
        Some("HOU"@)
    } else if contains_sub(q, "Phoenix".spec_bytes()) {
        Some("PHX"@)
    } else if contains_sub(q, "Philadelphia".spec_bytes()) {
        Some("PHL"@)
    } else if contains_sub(q, "San Antonio".spec_bytes()) {
        Some("SAN"@)
    } else if contains_sub(q, "San Diego".spec_bytes()) {
        Some("SDG"@)
    } else if contains_sub(q, "Dallas".spec_bytes()) {
        Some("DAL"@)
    } else if contains_sub(q, "San Jose".spec_bytes()) {
        Some("SJC"@)
    } else if contains_sub(q, "Atlanta".spec_bytes()) {
        Some("ATL"@)
    } else if contains_sub(q, "Miami".spec_bytes()) {
        Some("MIA"@)
    } else if contains_sub(q, "Boston".spec_bytes()) {
        Some("BOS"@)
    } else if contains_sub(q, "Seattle".spec_bytes()) {
        Some("SEA"@)
    } else if contains_sub(q, "Denver".spec_bytes()) {
        Some("DEN"@)
    } else if contains_sub(q, "Washington".spec_bytes()) {
        Some("DCA"@)
    } else if contains_sub(q, "Minneapolis".spec_bytes()) {
        Some("MSP"@)
    } else if contains_sub(q, "Detroit".spec_bytes()) {
        Some("DTW"@)
    } else if contains_sub(q, "Tampa".spec_bytes()) {
        Some("TPA"@)
    } else {
        if contains_sub(q, "St. Louis".spec_bytes()) || contains_sub(q, "St Louis".spec_bytes()) {
            Some("STL"@)
        } else {
            None
        }
    }
}

/// Find the city code a question names.
pub fn find_city(q: &[u8]) -> (r: Option<String>)
    ensures
        match r {
            Some(c) => spec_city_of(q@) == Some(c@),
            None => spec_city_of(q@) is None,
        },
{
    proof {
        reveal(spec_city_of);
    }
    if contains_bytes(q, "New York".as_bytes()) || contains_bytes(q, "NYC".as_bytes()) {
        Some(String::from_str("NYC"))
    } else if contains_bytes(q, "Los Angeles".as_bytes()) {
        Some(String::from_str("LAX"))
    } else if contains_bytes(q, "Chicago".as_bytes()) {
        Some(String::from_str("CHI"))
    } else if contains_bytes(q, "Houston".as_bytes()) {
        Some(String::from_str("HOU"))
    } else if contains_bytes(q, "Phoenix".as_bytes()) {
        Some(String::from_str("PHX"))
    } else if contains_bytes(q, "Philadelphia".as_bytes()) {
        Some(String::from_str("PHL"))
    } else if contains_bytes(q, "San Antonio".as_bytes()) {
        Some(String::from_str("SAN"))
    } else if contains_bytes(q, "San Diego".as_bytes()) {
        Some(String::from_str("SDG"))
    } else if contains_bytes(q, "Dallas".as_bytes()) {
        Some(String::from_str("DAL"))
    } else if contains_bytes(q, "San Jose".as_bytes()) {
        Some(String::from_str("SJC"))
    } else if contains_bytes(q, "Atlanta".as_bytes()) {
        Some(String::from_str("ATL"))
    } else if contains_bytes(q, "Miami".as_bytes()) {
        Some(String::from_str("MIA"))
    } else if contains_bytes(q, "Boston".as_bytes()) {
        Some(String::from_str("BOS"))
    } else if contains_bytes(q, "Seattle".as_bytes()) {
        Some(String::from_str("SEA"))
    } else if contains_bytes(q, "Denver".as_bytes()) {
        Some(String::from_str("DEN"))
    } else if contains_bytes(q, "Washington".as_bytes()) {
        Some(String::from_str("DCA"))
    } else if contains_bytes(q, "Minneapolis".as_bytes()) {
        Some(String::from_str("MSP"))
    } else if contains_bytes(q, "Detroit".as_bytes()) {
        Some(String::from_str("DTW"))
    } else if contains_bytes(q, "Tampa".as_bytes()) {
        Some(String::from_str("TPA"))
    } else if contains_bytes(q, "St. Louis".as_bytes()) || contains_bytes(
        q,
        "St Louis".as_bytes(),
    ) {
        Some(String::from_str("STL"))
    } else {
        None
    }
}

/// The event-catalog slug for a city code.
pub open spec fn spec_city_slug(c: Seq<u8>) -> Option<Seq<u8>> {
    if c == "NYC".spec_bytes() {
        Some("nyc".spec_bytes())
    } else if c == "LAX".spec_bytes() {
        Some("los-angeles".spec_bytes())
    } else if c == "CHI".spec_bytes() {
        Some("chicago".spec_bytes())
    } else if c == "HOU".spec_bytes() {
        Some("houston".spec_bytes())
    } else if c == "PHX".spec_bytes() {
        Some("phoenix".spec_bytes())
    } else if c == "PHL".spec_bytes() {
        Some("philadelphia".spec_bytes())
    } else if c == "SAN".spec_bytes() {
        Some("san-antonio".spec_bytes())
    } else if c == "SDG".spec_bytes() {
        Some("san-diego".spec_bytes())
    } else if c == "DAL".spec_bytes() {
        Some("dallas".spec_bytes())
    } else if c == "SJC".spec_bytes() {
        Some("san-jose".spec_bytes())
    } else if c == "ATL".spec_bytes() {
        Some("atlanta".spec_bytes())
    } else if c == "MIA".spec_bytes() {
        Some("miami".spec_bytes())
    } else if c == "BOS".spec_bytes() {
        Some("boston".spec_bytes())
    } else if c == "SEA".spec_bytes() {
        Some("seattle".spec_bytes())
    } else if c == "DEN".spec_bytes() {
        Some("denver".spec_bytes())
    } else if c == "DCA".spec_bytes() {
        Some("washington".spec_bytes())
    } else if c == "MSP".spec_bytes() {
        Some("minneapolis".spec_bytes())
    } else if c == "DTW".spec_bytes() {
        Some("detroit".spec_bytes())
    } else if c == "TPA".spec_bytes() {
        Some("tampa".spec_bytes())
    } else {
        if c == "STL".spec_bytes() {
            Some("st-louis".spec_bytes())
        } else {
            None
        }
    }
}

/// Map an internal city code to its event-catalog slug.
pub fn city_slug(code: &str) -> (r: Option<&'static str>)
    ensures
        match r {
            Some(s) => spec_city_slug(code.spec_bytes()) == Some(s.spec_bytes()),
            None => spec_city_slug(code.spec_bytes()) is None,
        },
{
    let b = code.as_bytes();
    if eq_bytes(b, "NYC".as_bytes()) {
        Some("nyc")
    } else if eq_bytes(b, "LAX".as_bytes()) {
        Some("los-angeles")
    } else if eq_bytes(b, "CHI".as_bytes()) {
        Some("chicago")
    } else if eq_bytes(b, "HOU".as_bytes()) {
        Some("houston")
    } else if eq_bytes(b, "PHX".as_bytes()) {
        Some("phoenix")
    } else if eq_bytes(b, "PHL".as_bytes()) {
        Some("philadelphia")
    } else if eq_bytes(b, "SAN".as_bytes()) {
        Some("san-antonio")
    } else if eq_bytes(b, "SDG".as_bytes()) {
        Some("san-diego")
    } else if eq_bytes(b, "DAL".as_bytes()) {
        Some("dallas")
    } else if eq_bytes(b, "SJC".as_bytes()) {
        Some("san-jose")
    } else if eq_bytes(b, "ATL".as_bytes()) {
        Some("atlanta")
    } else if eq_bytes(b, "MIA".as_bytes()) {
        Some("miami")
    } else if eq_bytes(b, "BOS".as_bytes()) {
        Some("boston")
    } else if eq_bytes(b, "SEA".as_bytes()) {
        Some("seattle")
    } else if eq_bytes(b, "DEN".as_bytes()) {
        Some("denver")
    } else if eq_bytes(b, "DCA".as_bytes()) {
        Some("washington")
    } else if eq_bytes(b, "MSP".as_bytes()) {
        Some("minneapolis")
    } else if eq_bytes(b, "DTW".as_bytes()) {
        Some("detroit")
    } else if eq_bytes(b, "TPA".as_bytes()) {
        Some("tampa")
    } else if eq_bytes(b, "STL".as_bytes()) {
        Some("st-louis")
    } else {
        None
    }
}

/// The city codes weather scanning covers.
pub fn weather_city_codes() -> (r: Vec<&'static str>)
    ensures
        r@.len() == 20,
{
    let mut v: Vec<&'static str> = Vec::new();
    v.push("NYC");
    v.push("LAX");
    v.push("CHI");
    v.push("HOU");
    v.push("PHX");
    v.push("PHL");
    v.push("SAN");
    v.push("SDG");
    v.push("DAL");
    v.push("SJC");
    v.push("ATL");
    v.push("MIA");
    v.push("BOS");
    v.push("SEA");
    v.push("DEN");
    v.push("DCA");
    v.push("MSP");
    v.push("DTW");
    v.push("TPA");
    v.push("STL");
    v
}


// ─── Digit runs ───

/// The end of the digit run starting at `i`.
pub open spec fn digits_end(s: Seq<u8>, i: int) -> int
    decreases s.len() - i,
{
    if i < 0 || i >= s.len() || !is_digit(s[i]) {
        i
    } else {
        digits_end(s, i + 1)
    }
}

/// The value of the digit run starting at `i`.
pub open spec fn run_val(s: Seq<u8>, i: int) -> int {
    digits_val(s.subrange(i, digits_end(s, i)))
}

proof fn lemma_digits_end_props(s: Seq<u8>, i: int)
    requires
        0 <= i <= s.len(),
    ensures
        i <= digits_end(s, i) <= s.len(),
        forall|j: int| i <= j < digits_end(s, i) ==> is_digit(#[trigger] s[j]),
        digits_end(s, i) < s.len() ==> !is_digit(s[digits_end(s, i)]),
    decreases s.len() - i,
{
    if i < s.len() && is_digit(s[i]) {
        lemma_digits_end_props(s, i + 1);
    }
}

/// Read the digit run starting at `i`: its value and end. `None` when
/// the run is empty or longer than four digits.
fn scan_number(s: &[u8], i: usize) -> (r: Option<(i64, usize)>)
    requires
        i <= s@.len(),
    ensures
        match r {
            Some((v, e)) => {
                &&& e == digits_end(s@, i as int)
                &&& 1 <= e - i <= 4
                &&& e <= s@.len()
                &&& v == run_val(s@, i as int)
                &&& 0 <= v < 10000
            },
            None => digits_end(s@, i as int) == i || digits_end(s@, i as int) - i > 4,
        },
{
    proof {
        lemma_digits_end_props(s@, i as int);
    }
    let ghost de = digits_end(s@, i as int);
    let n = s.len();
    let mut j = i;
    let mut v: i64 = 0;
    while j < n && 48 <= s[j] && s[j] <= 57
        invariant
            i <= j <= n,
            n == s@.len(),
            de == digits_end(s@, i as int),
            j <= de,
            forall|k: int| i <= k < j ==> is_digit(#[trigger] s@[k]),
            v == digits_val(s@.subrange(i as int, j as int)),
            0 <= v < 10000,
            j - i <= 4,
        decreases n - j,
    {
        if j - i == 4 {
            proof {
                lemma_digits_end_props(s@, i as int);
                assert(de >= j + 1);
            }
            return None;
        }
        proof {
            let pre = s@.subrange(i as int, j + 1);
            assert(pre.drop_last() =~= s@.subrange(i as int, j as int));
            assert(forall|k: int| 0 <= k < pre.len() ==> is_digit(#[trigger] pre[k]));
            crate::money::lemma_digits_val_bound(pre);
            crate::money::lemma_pow10_vals();
            crate::money::lemma_pow10_mono((j + 1 - i) as nat, 4);
        }
        v = v * 10 + (s[j] - 48) as i64;
        j += 1;
        proof {
            lemma_digits_end_props(s@, i as int);
            assert(j as int <= de) by {
                if de < j {
                    assert(is_digit(s@[de]));
                }
            }
        }
    }
    proof {
        assert(j as int == de) by {
            if (j as int) < de {
                assert(is_digit(s@[j as int]));
            }
        }
        let run = s@.subrange(i as int, j as int);
        assert(forall|k: int| 0 <= k < run.len() ==> is_digit(#[trigger] run[k]));
        crate::money::lemma_digits_val_bound(run);
    }
    if j == i {
        return None;
    }
    Some((v, j))
}

// ─── Day numbers ───

/// The civil day number of a date: days since the epoch of the standard
/// civil-from-days correspondence. The usual closed form.
pub open spec fn spec_day_number(y: int, m: int, d: int) -> int
    recommends
        1 <= y <= 9999,
        1 <= m <= 12,
        1 <= d <= 31,
{
    let y2 = if m <= 2 {
        y - 1
    } else {
        y
    };
    let era = y2 / 400;
    let yoe = y2 - era * 400;
    let mp = (m + 9) % 12;
    let doy = (153 * mp + 2) / 5 + d - 1;
    let doe = yoe * 365 + yoe / 4 - yoe / 100 + doy;
    era * 146097 + doe - 719468
}

/// Compute a date's civil day number.
pub fn day_number(y: i64, m: i64, d: i64) -> (r: i64)
    requires
        1 <= y <= 9999,
        1 <= m <= 12,
        1 <= d <= 31,
    ensures
        r == spec_day_number(y as int, m as int, d as int),
{
    let y2: i64 = if m <= 2 {
        y - 1
    } else {
        y
    };
    let era: i64 = y2 / 400;
    let yoe: i64 = y2 - era * 400;
    let mp: i64 = (m + 9) % 12;
    let doy: i64 = (153 * mp + 2) / 5 + d - 1;
    let doe: i64 = yoe * 365 + yoe / 4 - yoe / 100 + doy;
    era * 146097 + doe - 719468
}

// ─── Date extraction ───

/// An ISO date `DDDD-DD-DD` sits at `i`.
pub open spec fn iso_at(s: Seq<u8>, i: int) -> bool {
    &&& 0 <= i
    &&& i + 10 <= s.len()
    &&& is_digit(s[i]) && is_digit(s[i + 1]) && is_digit(s[i + 2]) && is_digit(s[i + 3])
    &&& s[i + 4] == 45
    &&& is_digit(s[i + 5]) && is_digit(s[i + 6])
    &&& s[i + 7] == 45
    &&& is_digit(s[i + 8]) && is_digit(s[i + 9])
}

/// The first position of an ISO date, or the length.
pub open spec fn first_iso(s: Seq<u8>, from: int) -> int
    decreases s.len() - from,
{
    if from < 0 || from >= s.len() {
        s.len() as int
    } else if iso_at(s, from) {
        from
    } else {
        first_iso(s, from + 1)
    }
}

proof fn lemma_first_iso_props(s: Seq<u8>, from: int)
    requires
        0 <= from <= s.len(),
    ensures
        from <= first_iso(s, from) <= s.len(),
        first_iso(s, from) < s.len() ==> iso_at(s, first_iso(s, from)),
        forall|j: int| from <= j < first_iso(s, from) ==> !iso_at(s, j),
    decreases s.len() - from,
{
    if from < s.len() && !iso_at(s, from) {
        lemma_first_iso_props(s, from + 1);
    }
}

fn iso_at_exec(s: &[u8], i: usize) -> (r: bool)
    requires
        i <= s@.len(),
    ensures
        r == iso_at(s@, i as int),
{
    if s.len() < 10 || i > s.len() - 10 {
        return false;
    }
    let d = |b: u8| -> (r: bool)
        ensures
            r == is_digit(b),
        { 48 <= b && b <= 57 };
    d(s[i]) && d(s[i + 1]) && d(s[i + 2]) && d(s[i + 3]) && s[i + 4] == 45 && d(s[i + 5]) && d(
        s[i + 6],
    ) && s[i + 7] == 45 && d(s[i + 8]) && d(s[i + 9])
}

/// `w` occurs at `i` up to ASCII case.
pub open spec fn word_ci_at(s: Seq<u8>, i: int, w: Seq<u8>) -> bool {
    &&& 0 <= i
    &&& i + w.len() <= s.len()
    &&& lower_bytes(s.subrange(i, i + w.len())) == w
}

/// A month name sits at `i`, compared case-insensitively.
pub open spec fn month_at(s: Seq<u8>, i: int) -> Option<u32> {
    if word_ci_at(s, i, month_name(1)) {
        Some(1u32)
    } else if word_ci_at(s, i, month_name(2)) {
        Some(2u32)
    } else if word_ci_at(s, i, month_name(3)) {
        Some(3u32)
    } else if word_ci_at(s, i, month_name(4)) {
        Some(4u32)
    } else if word_ci_at(s, i, month_name(5)) {
        Some(5u32)
    } else if word_ci_at(s, i, month_name(6)) {
        Some(6u32)
    } else if word_ci_at(s, i, month_name(7)) {
        Some(7u32)
    } else if word_ci_at(s, i, month_name(8)) {
        Some(8u32)
    } else if word_ci_at(s, i, month_name(9)) {
        Some(9u32)
    } else if word_ci_at(s, i, month_name(10)) {
        Some(10u32)
    } else if word_ci_at(s, i, month_name(11)) {
        Some(11u32)
    } else {
        if word_ci_at(s, i, month_name(12)) {
            Some(12u32)
        } else {
            None
        }
    }
}

/// The first position where a month name occurs, or the length.
pub open spec fn first_month(s: Seq<u8>, from: int) -> int
    decreases s.len() - from,
{
    if from < 0 || from >= s.len() {
        s.len() as int
    } else if month_at(s, from) is Some {
        from
    } else {
        first_month(s, from + 1)
    }
}

proof fn lemma_first_month_props(s: Seq<u8>, from: int)
    requires
        0 <= from <= s.len(),
    ensures
        from <= first_month(s, from) <= s.len(),
        first_month(s, from) < s.len() ==> month_at(s, first_month(s, from)) is Some,
        forall|j: int| from <= j < first_month(s, from) ==> month_at(s, j) is None,
    decreases s.len() - from,
{
    if from < s.len() && month_at(s, from) is None {
        lemma_first_month_props(s, from + 1);
    }
}

/// Test for a month name at `i`; gives the month and the name length.
fn month_at_exec(s: &[u8], i: usize) -> (r: Option<(u32, usize)>)
    requires
        i <= s@.len(),
    ensures
        match r {
            Some((m, l)) => month_at(s@, i as int) == Some(m) && 1 <= m <= 12 && l
                == month_name(m as int).len() && i + l <= s@.len(),
            None => month_at(s@, i as int) is None,
        },
{
    let names: [&'static str; 12] = [
        "january",
        "february",
        "march",
        "april",
        "may",
        "june",
        "july",
        "august",
        "september",
        "october",
        "november",
        "december",
    ];
    let mut m: u32 = 1;
    while m <= 12
        invariant
            1 <= m <= 13,
            i <= s@.len(),
            names@.len() == 12,
            forall|k: int| 1 <= k < m ==> !word_ci_at(s@, i as int, month_name(k)),
            names@[0]@ == "january"@,
            names@[1]@ == "february"@,
            names@[2]@ == "march"@,
            names@[3]@ == "april"@,
            names@[4]@ == "may"@,
            names@[5]@ == "june"@,
            names@[6]@ == "july"@,
            names@[7]@ == "august"@,
            names@[8]@ == "september"@,
            names@[9]@ == "october"@,
            names@[10]@ == "november"@,
            names@[11]@ == "december"@,
        decreases 13 - m,
    {
        let name = names[(m - 1) as usize];
        let w = name.as_bytes();
        proof {
            assert(w@ == month_name(m as int)) by {
                assert(name@ == names@[m - 1]@);
            }
        }
        let l = w.len();
        let slen = s.len();
        if l <= slen && i <= slen - l {
            let ghost seg = s@.subrange(i as int, i + l);
            let mut k: usize = 0;
            let mut ok = true;
            while k < l
                invariant
                    0 <= k <= l,
                    slen == s@.len(),
                    i + l <= slen,
                    l == w@.len(),
                    seg == s@.subrange(i as int, i + l),
                    ok == (forall|j: int|
                        0 <= j < k ==> crate::textscan::lower_byte(#[trigger] seg[j]) == w@[j]),
                decreases l - k,
            {
                let b = s[i + k];
                let lb = if 65 <= b && b <= 90 {
                    b + 32
                } else {
                    b
                };
                proof {
                    assert(seg[k as int] == s@[i + k]);
                }
                ok = ok && lb == w[k];
                k += 1;
            }
            if ok {
                proof {
                    assert(lower_bytes(seg) =~= w@);
                    assert(word_ci_at(s@, i as int, month_name(m as int)));
                }
                return Some((m, l));
            }
            proof {
                if word_ci_at(s@, i as int, month_name(m as int)) {
                    assert(lower_bytes(seg).len() == seg.len());
                    assert(forall|j: int|
                        0 <= j < seg.len() ==> lower_bytes(seg)[j] == crate::textscan::lower_byte(
                            #[trigger] seg[j],
                        ));
                }
            }
        } else {
            proof {
                assert(!word_ci_at(s@, i as int, month_name(m as int)));
            }
        }
        m += 1;
    }
    None
}


// ─── Whitespace and backward digit runs ───

/// The end of the run of spaces starting at `i`.
pub open spec fn spaces_end(s: Seq<u8>, i: int) -> int
    decreases s.len() - i,
{
    if i < 0 || i >= s.len() || s[i] != 32 {
        i
    } else {
        spaces_end(s, i + 1)
    }
}

proof fn lemma_spaces_end_props(s: Seq<u8>, i: int)
    requires
        0 <= i <= s.len(),
    ensures
        i <= spaces_end(s, i) <= s.len(),
    decreases s.len() - i,
{
    if i < s.len() && s[i] == 32 {
        lemma_spaces_end_props(s, i + 1);
    }
}

fn spaces_end_exec(s: &[u8], i: usize) -> (r: usize)
    requires
        i <= s@.len(),
    ensures
        r == spaces_end(s@, i as int),
        i <= r <= s@.len(),
{
    proof {
        lemma_spaces_end_props(s@, i as int);
    }
    let n = s.len();
    let mut j = i;
    while j < n && s[j] == 32
        invariant
            i <= j <= n,
            n == s@.len(),
            spaces_end(s@, i as int) == spaces_end(s@, j as int),
        decreases n - j,
    {
        j += 1;
    }
    j
}

/// The start of the digit run ending at `i` (exclusive).
pub open spec fn digits_start(s: Seq<u8>, i: int) -> int
    decreases i,
{
    if i <= 0 || i > s.len() || !is_digit(s[i - 1]) {
        i
    } else {
        digits_start(s, i - 1)
    }
}

proof fn lemma_digits_start_props(s: Seq<u8>, i: int)
    requires
        0 <= i <= s.len(),
    ensures
        0 <= digits_start(s, i) <= i,
        forall|j: int| digits_start(s, i) <= j < i ==> is_digit(#[trigger] s[j]),
    decreases i,
{
    if i > 0 && is_digit(s[i - 1]) {
        lemma_digits_start_props(s, i - 1);
    }
}

fn digits_start_exec(s: &[u8], i: usize) -> (r: usize)
    requires
        i <= s@.len(),
    ensures
        r == digits_start(s@, i as int),
        r <= i,
{
    proof {
        lemma_digits_start_props(s@, i as int);
    }
    let mut j = i;
    while j > 0 && 48 <= s[j - 1] && s[j - 1] <= 57
        invariant
            0 <= j <= i,
            i <= s@.len(),
            digits_start(s@, i as int) == digits_start(s@, j as int),
        decreases j,
    {
        j -= 1;
    }
    j
}

// ─── The temperature-range grammar ───

/// The dash between two bucket bounds: either a hyphen or an en dash.
pub open spec fn dash_end(s: Seq<u8>, i: int) -> Option<int> {
    if 0 <= i < s.len() && s[i] == 45 {
        Some(i + 1)
    } else if sub_at(s, "\u{2013}".spec_bytes(), i) {
        Some(i + "\u{2013}".spec_bytes().len() as int)
    } else {
        None
    }
}

fn dash_end_exec(s: &[u8], i: usize) -> (r: Option<usize>)
    requires
        i <= s@.len(),
    ensures
        match r {
            Some(e) => dash_end(s@, i as int) == Some(e as int) && i < e <= s@.len(),
            None => dash_end(s@, i as int) is None,
        },
{
    let n = s.len();
    if i < n && s[i] == 45 {
        return Some(i + 1);
    }
    let en = "\u{2013}".as_bytes();
    if en.len() <= n && i <= n - en.len() && occurs_at(s, en, i) {
        proof {
            assert(en@.len() > 0) by {
                reveal_strlit("\u{2013}");
                vstd::string::is_ascii_spec_bytes("\u{2013}");
                assert("\u{2013}"@.len() == 1);
                crate::weather::lemma_nonempty_utf8("\u{2013}"@);
            }
        }
        return Some(i + en.len());
    }
    proof {
        if dash_end(s@, i as int) is Some {
            if !(0 <= i < s@.len() && s@[i as int] == 45) {
                assert(sub_at(s@, "\u{2013}".spec_bytes(), i as int));
            }
        }
    }
    None
}

/// Encoding a non-empty character sequence gives non-empty bytes.
pub proof fn lemma_nonempty_utf8(cs: Seq<char>)
    requires
        cs.len() > 0,
    ensures
        vstd::utf8::encode_utf8(cs).len() > 0,
{
    let e = vstd::utf8::encode_scalar(cs[0] as u32);
    assert(e.len() >= 1);
    assert(vstd::utf8::encode_utf8(cs) == e + vstd::utf8::encode_utf8(cs.drop_first()));
}

/// A number, an optional-space dash, a number, and the degree marker:
/// the bucket form `X-Y°F`, read at the start of the number run `i`.
pub open spec fn range_read(s: Seq<u8>, i: int) -> Option<(int, int)> {
    let de = digits_end(s, i);
    if !(0 <= i && i < s.len() && 1 <= de - i <= 4) {
        None
    } else {
        let k = spaces_end(s, de);
        match dash_end(s, k) {
            Some(a) => {
                let k2 = spaces_end(s, a);
                let de2 = digits_end(s, k2);
                if 1 <= de2 - k2 <= 4 && sub_at(s, "\u{b0}F".spec_bytes(), de2) {
                    Some((run_val(s, i), run_val(s, k2)))
                } else {
                    None
                }
            },
            None => None,
        }
    }
}

fn range_read_exec(s: &[u8], i: usize) -> (r: Option<(i64, i64)>)
    requires
        i <= s@.len(),
    ensures
        match r {
            Some((a, b)) => range_read(s@, i as int) == Some((a as int, b as int)) && 0 <= a
                < 10000 && 0 <= b < 10000,
            None => range_read(s@, i as int) is None,
        },
{
    if i >= s.len() {
        return None;
    }
    let (d1, de) = match scan_number(s, i) {
        Some(x) => x,
        None => {
            return None;
        }
    };
    let k = spaces_end_exec(s, de);
    let a = match dash_end_exec(s, k) {
        Some(a) => a,
        None => {
            return None;
        }
    };
    let k2 = spaces_end_exec(s, a);
    let (d2, de2) = match scan_number(s, k2) {
        Some(x) => x,
        None => {
            return None;
        }
    };
    let deg = "\u{b0}F".as_bytes();
    if deg.len() <= s.len() && de2 <= s.len() - deg.len() && occurs_at(s, deg, de2) {
        Some((d1, d2))
    } else {
        proof {
            if sub_at(s@, "\u{b0}F".spec_bytes(), de2 as int) {
            }
        }
        None
    }
}

/// The first position where the bucket form `X-Y°F` starts (at the
/// head of a digit run), or the length.
pub open spec fn first_range(s: Seq<u8>, from: int) -> int
    decreases s.len() - from,
{
    if from < 0 || from >= s.len() {
        s.len() as int
    } else if (from == 0 || !is_digit(s[from - 1])) && range_read(s, from) is Some {
        from
    } else {
        first_range(s, from + 1)
    }
}

proof fn lemma_first_range_props(s: Seq<u8>, from: int)
    requires
        0 <= from <= s.len(),
    ensures
        from <= first_range(s, from) <= s.len(),
        first_range(s, from) < s.len() ==> range_read(s, first_range(s, from)) is Some,
    decreases s.len() - from,
{
    if from < s.len() && !((from == 0 || !is_digit(s[from - 1])) && range_read(s, from)
        is Some) {
        lemma_first_range_props(s, from + 1);
    }
}

fn first_range_exec(s: &[u8]) -> (r: Option<(i64, i64)>)
    ensures
        match r {
            Some((a, b)) => first_range(s@, 0) < s@.len() && range_read(
                s@,
                first_range(s@, 0),
            ) == Some((a as int, b as int)) && 0 <= a < 10000 && 0 <= b < 10000,
            None => first_range(s@, 0) == s@.len(),
        },
{
    proof {
        lemma_first_range_props(s@, 0);
    }
    let n = s.len();
    let mut i: usize = 0;
    while i < n
        invariant
            0 <= i <= n,
            n == s@.len(),
            i <= first_range(s@, 0),
            first_range(s@, 0) == first_range(s@, i as int),
        decreases n - i,
    {
        let head = i == 0 || !(48 <= s[i - 1] && s[i - 1] <= 57);
        if head {
            match range_read_exec(s, i) {
                Some((a, b)) => {
                    return Some((a, b));
                }
                None => {}
            }
        }
        i += 1;
        proof {
            lemma_first_range_props(s@, i as int);
        }
    }
    None
}


// ─── The remaining temperature forms ───

/// The `between X°F and Y°F` / `between X-Y°F` forms, read from the
/// first `between `.
pub open spec fn between_read(s: Seq<u8>) -> Option<(int, int)> {
    let b = crate::textscan::first_sub(s, "between ".spec_bytes(), 0);
    if b >= s.len() {
        None
    } else {
        let ds = b + "between ".spec_bytes().len();
        let de = digits_end(s, ds);
        if !(1 <= de - ds <= 4) {
            None
        } else if sub_at(s, "\u{b0}F and ".spec_bytes(), de) {
            let ds2 = de + "\u{b0}F and ".spec_bytes().len();
            let de2 = digits_end(s, ds2);
            if 1 <= de2 - ds2 <= 4 && sub_at(s, "\u{b0}F".spec_bytes(), de2) {
                Some((run_val(s, ds), run_val(s, ds2)))
            } else {
                None
            }
        } else {
            range_read(s, ds)
        }
    }
}

fn between_read_exec(s: &[u8]) -> (r: Option<(i64, i64)>)
    ensures
        match r {
            Some((a, b)) => between_read(s@) == Some((a as int, b as int)) && 0 <= a < 10000 && 0
                <= b < 10000,
            None => between_read(s@) is None,
        },
{
    let word = "between ".as_bytes();
    let b = crate::textscan::find_first(s, word);
    if b >= s.len() {
        return None;
    }
    proof {
        crate::textscan::lemma_first_sub_props(s@, word@, 0);
    }
    let ds = b + word.len();
    proof {
        assert(ds <= s@.len());
    }
    let (d1, de) = match scan_number(s, ds) {
        Some(x) => x,
        None => {
            return None;
        }
    };
    let and_word = "\u{b0}F and ".as_bytes();
    if and_word.len() <= s.len() && de <= s.len() - and_word.len() && occurs_at(s, and_word, de) {
        let ds2 = de + and_word.len();
        let (d2, de2) = match scan_number(s, ds2) {
            Some(x) => x,
            None => {
                return None;
            }
        };
        let deg = "\u{b0}F".as_bytes();
        if deg.len() <= s.len() && de2 <= s.len() - deg.len() && occurs_at(s, deg, de2) {
            return Some((d1, d2));
        }
        return None;
    }
    proof {
        if sub_at(s@, "\u{b0}F and ".spec_bytes(), de as int) {
        }
    }
    range_read_exec(s, ds)
}

/// The `X°F or above|higher|more` and `X°F or below` forms, read at
/// the first `°F or ` that follows a number.
pub open spec fn or_form_at(s: Seq<u8>, i: int) -> bool {
    &&& sub_at(s, "\u{b0}F or ".spec_bytes(), i)
    &&& i > 0
    &&& is_digit(s[i - 1])
    &&& digits_start(s, i) >= i - 4
}

pub open spec fn first_or_form(s: Seq<u8>, from: int) -> int
    decreases s.len() - from,
{
    if from < 0 || from >= s.len() {
        s.len() as int
    } else if or_form_at(s, from) {
        from
    } else {
        first_or_form(s, from + 1)
    }
}

proof fn lemma_first_or_form_props(s: Seq<u8>, from: int)
    requires
        0 <= from <= s.len(),
    ensures
        from <= first_or_form(s, from) <= s.len(),
        first_or_form(s, from) < s.len() ==> or_form_at(s, first_or_form(s, from)),
    decreases s.len() - from,
{
    if from < s.len() && !or_form_at(s, from) {
        lemma_first_or_form_props(s, from + 1);
    }
}

/// What the first `or` form gives: `(X, 130)` when the market reads
/// `or above|higher|more`, `(-60, X)` when it reads `or below`.
pub open spec fn or_form_read(s: Seq<u8>) -> Option<(int, int)> {
    let i = first_or_form(s, 0);
    if i >= s.len() {
        None
    } else {
        let d = digits_val(s.subrange(digits_start(s, i), i));
        let q = i + "\u{b0}F or ".spec_bytes().len();
        if sub_at(s, "above".spec_bytes(), q) || sub_at(s, "higher".spec_bytes(), q) || sub_at(
            s,
            "more".spec_bytes(),
            q,
        ) {
            Some((d, 130))
        } else if sub_at(s, "below".spec_bytes(), q) {
            Some((-60, d))
        } else {
            None
        }
    }
}

fn or_form_read_exec(s: &[u8]) -> (r: Option<(i64, i64)>)
    ensures
        match r {
            Some((a, b)) => or_form_read(s@) == Some((a as int, b as int)) && -60 <= a < 10000
                && -60 <= b < 10000,
            None => or_form_read(s@) is None,
        },
{
    proof {
        lemma_first_or_form_props(s@, 0);
    }
    let word = "\u{b0}F or ".as_bytes();
    let n = s.len();
    let mut i: usize = 0;
    // Find the first `°F or ` preceded by a short number.
    while i < n
        invariant
            0 <= i <= n,
            n == s@.len(),
            word@ == "\u{b0}F or ".spec_bytes(),
            i <= first_or_form(s@, 0),
            first_or_form(s@, 0) == first_or_form(s@, i as int),
        decreases n - i,
    {
        let here = word.len() <= n && i <= n - word.len() && occurs_at(s, word, i) && i > 0 && 48
            <= s[i - 1] && s[i - 1] <= 57 && {
            let st = digits_start_exec(s, i);
            i - st <= 4
        };
        if here {
            let st = digits_start_exec(s, i);
            proof {
                lemma_digits_start_props(s@, i as int);
            }
            // Accumulate the short number that ends right before the marker.
            let mut d: i64 = 0;
            let mut j = st;
            while j < i
                invariant
                    st <= j <= i,
                    i <= n == s@.len(),
                    i - st <= 4,
                    st == digits_start(s@, i as int),
                    forall|k: int| st <= k < i ==> is_digit(#[trigger] s@[k]),
                    d == digits_val(s@.subrange(st as int, j as int)),
                    0 <= d < 10000,
                decreases i - j,
            {
                proof {
                    let pre = s@.subrange(st as int, j + 1);
                    assert(pre.drop_last() =~= s@.subrange(st as int, j as int));
                    assert(forall|k: int| 0 <= k < pre.len() ==> is_digit(#[trigger] pre[k]));
                    crate::money::lemma_digits_val_bound(pre);
                    crate::money::lemma_pow10_vals();
                    crate::money::lemma_pow10_mono((j + 1 - st) as nat, 4);
                }
                d = d * 10 + (s[j] - 48) as i64;
                j += 1;
            }
            let q = i + word.len();
            let above = "above".as_bytes();
            let higher = "higher".as_bytes();
            let more = "more".as_bytes();
            let below = "below".as_bytes();
            let is_up = (above.len() <= n && q <= n - above.len() && occurs_at(s, above, q)) || (
            higher.len() <= n && q <= n - higher.len() && occurs_at(s, higher, q)) || (more.len()
                <= n && q <= n - more.len() && occurs_at(s, more, q));
            if is_up {
                return Some((d, 130));
            }
            let is_down = below.len() <= n && q <= n - below.len() && occurs_at(s, below, q);
            if is_down {
                return Some((-60, d));
            }
            proof {
                if sub_at(s@, "above".spec_bytes(), q as int) || sub_at(
                    s@,
                    "higher".spec_bytes(),
                    q as int,
                ) || sub_at(s@, "more".spec_bytes(), q as int) || sub_at(
                    s@,
                    "below".spec_bytes(),
                    q as int,
                ) {
                }
            }
            return None;
        }
        i += 1;
        proof {
            lemma_first_or_form_props(s@, i as int);
            assert(!or_form_at(s@, i - 1));
        }
    }
    None
}

/// The `below X°F` / `under X°F` form, read at its first occurrence.
pub open spec fn below_form_at(s: Seq<u8>, i: int) -> bool {
    ||| (sub_at(s, "below ".spec_bytes(), i) && below_tail(
        s,
        i + "below ".spec_bytes().len(),
    ) is Some)
    ||| (sub_at(s, "under ".spec_bytes(), i) && below_tail(
        s,
        i + "under ".spec_bytes().len(),
    ) is Some)
}

/// A short number followed by the degree marker.
pub open spec fn below_tail(s: Seq<u8>, ds: int) -> Option<int> {
    let de = digits_end(s, ds);
    if 0 <= ds && 1 <= de - ds <= 4 && sub_at(s, "\u{b0}F".spec_bytes(), de) {
        Some(run_val(s, ds))
    } else {
        None
    }
}

pub open spec fn first_below_form(s: Seq<u8>, from: int) -> int
    decreases s.len() - from,
{
    if from < 0 || from >= s.len() {
        s.len() as int
    } else if below_form_at(s, from) {
        from
    } else {
        first_below_form(s, from + 1)
    }
}

proof fn lemma_first_below_form_props(s: Seq<u8>, from: int)
    requires
        0 <= from <= s.len(),
    ensures
        from <= first_below_form(s, from) <= s.len(),
        first_below_form(s, from) < s.len() ==> below_form_at(s, first_below_form(s, from)),
    decreases s.len() - from,
{
    if from < s.len() && !below_form_at(s, from) {
        lemma_first_below_form_props(s, from + 1);
    }
}

/// What the first `below`/`under` form gives: `(-60, X)`.
pub open spec fn below_form_read(s: Seq<u8>) -> Option<(int, int)> {
    let i = first_below_form(s, 0);
    if i >= s.len() {
        None
    } else {
        if sub_at(s, "below ".spec_bytes(), i) && below_tail(
            s,
            i + "below ".spec_bytes().len(),
        ) is Some {
            Some((-60, below_tail(s, i + "below ".spec_bytes().len()).unwrap()))
        } else {
            Some((-60, below_tail(s, i + "under ".spec_bytes().len()).unwrap()))
        }
    }
}

fn below_tail_exec(s: &[u8], ds: usize) -> (r: Option<i64>)
    requires
        ds <= s@.len(),
    ensures
        match r {
            Some(v) => below_tail(s@, ds as int) == Some(v as int) && 0 <= v < 10000,
            None => below_tail(s@, ds as int) is None,
        },
{
    let (d, de) = match scan_number(s, ds) {
        Some(x) => x,
        None => {
            return None;
        }
    };
    let deg = "\u{b0}F".as_bytes();
    if deg.len() <= s.len() && de <= s.len() - deg.len() && occurs_at(s, deg, de) {
        Some(d)
    } else {
        proof {
            if sub_at(s@, "\u{b0}F".spec_bytes(), de as int) {
            }
        }
        None
    }
}

fn below_form_read_exec(s: &[u8]) -> (r: Option<(i64, i64)>)
    ensures
        match r {
            Some((a, b)) => below_form_read(s@) == Some((a as int, b as int)) && a == -60 && 0
                <= b < 10000,
            None => below_form_read(s@) is None,
        },
{
    proof {
        lemma_first_below_form_props(s@, 0);
    }
    let below = "below ".as_bytes();
    let under = "under ".as_bytes();
    let n = s.len();
    let mut i: usize = 0;
    while i < n
        invariant
            0 <= i <= n,
            n == s@.len(),
            below@ == "below ".spec_bytes(),
            under@ == "under ".spec_bytes(),
            i <= first_below_form(s@, 0),
            first_below_form(s@, 0) == first_below_form(s@, i as int),
        decreases n - i,
    {
        if below.len() <= n && i <= n - below.len() && occurs_at(s, below, i) {
            match below_tail_exec(s, i + below.len()) {
                Some(v) => {
                    return Some((-60, v));
                }
                None => {}
            }
        }
        if under.len() <= n && i <= n - under.len() && occurs_at(s, under, i) {
            match below_tail_exec(s, i + under.len()) {
                Some(v) => {
                    proof {
                        if sub_at(s@, "below ".spec_bytes(), i as int) && below_tail(
                            s@,
                            i + "below ".spec_bytes().len(),
                        ) is Some {
                        }
                    }
                    return Some((-60, v));
                }
                None => {}
            }
        }
        proof {
            assert(!below_form_at(s@, i as int)) by {
                if sub_at(s@, "below ".spec_bytes(), i as int) {
                    assert(i + "below ".spec_bytes().len() <= s@.len());
                }
                if sub_at(s@, "under ".spec_bytes(), i as int) {
                    assert(i + "under ".spec_bytes().len() <= s@.len());
                }
            }
        }
        i += 1;
        proof {
            lemma_first_below_form_props(s@, i as int);
        }
    }
    None
}

/// The temperature bucket a question names, tried in the grammar's
/// order: the `between` forms, a bare `X-Y°F`, the `or` forms, then
/// `below`/`under X°F`.
#[verifier::opaque]
pub open spec fn spec_temperature_range(s: Seq<u8>) -> Option<(int, int)> {
    if between_read(s) is Some {
        between_read(s)
    } else if first_range(s, 0) < s.len() {
        range_read(s, first_range(s, 0))
    } else if or_form_read(s) is Some {
        or_form_read(s)
    } else {
        below_form_read(s)
    }
}

/// Extract the temperature bucket, in whole degrees Fahrenheit.
pub fn extract_temperature_range(q: &[u8]) -> (r: Option<(i64, i64)>)
    ensures
        match r {
            Some((a, b)) => spec_temperature_range(q@) == Some((a as int, b as int)) && -60 <= a
                < 10000 && -60 <= b < 10000,
            None => spec_temperature_range(q@) is None,
        },
{
    match between_read_exec(q) {
        Some(x) => {
            proof {
                reveal(spec_temperature_range);
            }
            return Some(x);
        }
        None => {}
    }
    match first_range_exec(q) {
        Some(x) => {
            proof {
                reveal(spec_temperature_range);
            }
            return Some(x);
        }
        None => {}
    }
    match or_form_read_exec(q) {
        Some(x) => {
            proof {
                reveal(spec_temperature_range);
            }
            return Some(x);
        }
        None => {}
    }
    let r = below_form_read_exec(q);
    proof {
        reveal(spec_temperature_range);
    }
    r
}


// ─── Date extraction ───

/// The date a question names, as (year, month, day): an ISO date
/// verbatim; else the first month name followed by a day, with either
/// an explicit year or, after `on`, a year inferred from today (next
/// year when the date would lie more than a week in the past).
#[verifier::opaque]
pub open spec fn spec_extract_date(s: Seq<u8>, ty: int, tm: int, td: int) -> Option<
    (int, int, int),
> {
    let iso = first_iso(s, 0);
    if iso < s.len() {
        Some(
            (
                digits_val(s.subrange(iso, iso + 4)),
                digits_val(s.subrange(iso + 5, iso + 7)),
                digits_val(s.subrange(iso + 8, iso + 10)),
            ),
        )
    } else {
        let mi = first_month(s, 0);
        if mi >= s.len() {
            None
        } else {
            match month_at(s, mi) {
                Some(m) => {
                    let after = mi + month_name(m as int).len();
                    let ds = after + 1;
                    let de = digits_end(s, ds);
                    if !(after < s.len() && s[after] == 32 && 1 <= de - ds <= 2) {
                        None
                    } else {
                        let day = digits_val(s.subrange(ds, de));
                        let k = if de < s.len() && s[de] == 44 {
                            de + 1
                        } else {
                            de
                        };
                        if k < s.len() && s[k] == 32 && digits_end(s, k + 1) == k + 5 {
                            Some((digits_val(s.subrange(k + 1, k + 5)), m as int, day))
                        } else if mi >= 3 && sub_at(s, "on ".spec_bytes(), mi - 3) && 1 <= day
                            <= 31 {
                            let y = if spec_day_number(ty, m as int, day) < spec_day_number(
                                ty,
                                tm,
                                td,
                            ) - 7 {
                                ty + 1
                            } else {
                                ty
                            };
                            Some((y, m as int, day))
                        } else {
                            None
                        }
                    }
                },
                None => None,
            }
        }
    }
}

/// Read exactly `len` digits starting at `start`.
fn read_digits_fixed(s: &[u8], start: usize, len: usize) -> (r: i64)
    requires
        start + len <= s@.len(),
        1 <= len <= 4,
        forall|k: int| start <= k < start + len ==> is_digit(#[trigger] s@[k]),
    ensures
        r == digits_val(s@.subrange(start as int, start + len)),
        0 <= r < 10000,
{
    let n = s.len();
    let mut v: i64 = 0;
    let mut j = start;
    while j < start + len
        invariant
            start <= j <= start + len,
            n == s@.len(),
            start + len <= n,
            1 <= len <= 4,
            forall|k: int| start <= k < start + len ==> is_digit(#[trigger] s@[k]),
            v == digits_val(s@.subrange(start as int, j as int)),
            0 <= v < 10000,
        decreases start + len - j,
    {
        proof {
            let pre = s@.subrange(start as int, j + 1);
            assert(pre.drop_last() =~= s@.subrange(start as int, j as int));
            assert(forall|k: int| 0 <= k < pre.len() ==> is_digit(#[trigger] pre[k]));
            crate::money::lemma_digits_val_bound(pre);
            crate::money::lemma_pow10_vals();
            crate::money::lemma_pow10_mono((j + 1 - start) as nat, 4);
        }
        v = v * 10 + (s[j] - 48) as i64;
        j += 1;
    }
    v
}

/// Extract the date a question names, as (year, month, day).
pub fn extract_date(q: &[u8], today_y: i64, today_m: i64, today_d: i64) -> (r: Option<
    (i64, i64, i64),
>)
    requires
        1 <= today_y <= 9998,
        1 <= today_m <= 12,
        1 <= today_d <= 31,
    ensures
        match r {
            Some((y, m, d)) => spec_extract_date(
                q@,
                today_y as int,
                today_m as int,
                today_d as int,
            ) == Some((y as int, m as int, d as int)),
            None => spec_extract_date(q@, today_y as int, today_m as int, today_d as int)
                is None,
        },
{
    let n = q.len();
    proof {
        reveal(spec_extract_date);
        lemma_first_iso_props(q@, 0);
    }
    // ISO form first.
    let mut i: usize = 0;
    while i < n
        invariant
            0 <= i <= n,
            n == q@.len(),
            1 <= today_y <= 9998,
            1 <= today_m <= 12,
            1 <= today_d <= 31,
            i <= first_iso(q@, 0),
            first_iso(q@, 0) == first_iso(q@, i as int),
        decreases n - i,
    {
        if iso_at_exec(q, i) {
            proof {
                reveal(spec_extract_date);
            }
            let y = read_digits_fixed(q, i, 4);
            let mo = read_digits_fixed(q, i + 5, 2);
            let da = read_digits_fixed(q, i + 8, 2);
            return Some((y, mo, da));
        }
        i += 1;
        proof {
            lemma_first_iso_props(q@, i as int);
        }
    }
    // Month-name forms.
    proof {
        reveal(spec_extract_date);
        lemma_first_month_props(q@, 0);
    }
    let mut j: usize = 0;
    let mut found: Option<(u32, usize)> = None;
    while j < n && found.is_none()
        invariant
            0 <= j <= n,
            n == q@.len(),
            match found {
                Some((m, l)) => j < n && month_at(q@, j as int) == Some(m) && first_month(q@, 0)
                    == j && l == month_name(m as int).len() && j + l <= n && 1 <= m <= 12,
                None => j <= first_month(q@, 0) && first_month(q@, 0) == first_month(
                    q@,
                    j as int,
                ),
            },
        decreases n - j + (if found.is_none() {
            1int
        } else {
            0int
        }),
    {
        match month_at_exec(q, j) {
            Some((m, l)) => {
                found = Some((m, l));
            }
            None => {
                j += 1;
                proof {
                    lemma_first_month_props(q@, j as int);
                }
            }
        }
    }
    let (m, l) = match found {
        Some(x) => x,
        None => {
            return None;
        }
    };
    let after = j + l;
    if !(after < n && q[after] == 32) {
        return None;
    }
    let ds = after + 1;
    let (day, de) = match scan_number(q, ds) {
        Some(x) => x,
        None => {
            proof {
                lemma_digits_end_props(q@, ds as int);
            }
            return None;
        }
    };
    if de - ds > 2 {
        return None;
    }
    let k = if de < n && q[de] == 44 {
        de + 1
    } else {
        de
    };
    // Explicit year: a space then exactly four digits.
    if k < n && q[k] == 32 {
        let year_read = scan_number(q, k + 1);
        match year_read {
            Some((y, e)) => {
                if e - (k + 1) == 4 {
                    proof {
                        let s = q@;
                        assert(s.subrange(k + 1, k + 5) =~= s.subrange(
                            k + 1,
                            digits_end(s, k + 1),
                        ));
                        assert(s.subrange(ds as int, de as int) =~= s.subrange(
                            ds as int,
                            digits_end(s, ds as int),
                        ));
                    }
                    return Some((y, m as i64, day));
                }
            }
            None => {}
        }
    }
    // `on Month Day`: infer the year from today.
    let onw = "on ".as_bytes();
    if j >= 3 && onw.len() <= n && j - 3 <= n - onw.len() && occurs_at(q, onw, j - 3) && 1 <= day
        && day <= 31 {
        let cand = day_number(today_y, m as i64, day);
        let today_n = day_number(today_y, today_m, today_d);
        let y = if cand < today_n - 7 {
            today_y + 1
        } else {
            today_y
        };
        proof {
            let s = q@;
            assert(s.subrange(ds as int, de as int) =~= s.subrange(
                ds as int,
                digits_end(s, ds as int),
            ));
        }
        return Some((y, m as i64, day));
    }
    proof {
        if j >= 3 && sub_at(q@, "on ".spec_bytes(), j - 3) {
            assert((j - 3) + "on ".spec_bytes().len() <= q@.len());
        }
    }
    None
}


// ─── Putting the question together ───

/// Whether the question is about temperature at all.
#[verifier::opaque]
pub open spec fn spec_is_weather_question(q: Seq<u8>) -> bool {
    contains_sub(lower_bytes(q), "temperature".spec_bytes())
}

/// Lower-case a byte string.
fn to_lower_vec(q: &[u8]) -> (r: Vec<u8>)
    ensures
        r@ == lower_bytes(q@),
{
    let n = q.len();
    let mut out: Vec<u8> = Vec::new();
    let mut i: usize = 0;
    while i < n
        invariant
            0 <= i <= n,
            n == q@.len(),
            out@.len() == i,
            forall|j: int| 0 <= j < i ==> out@[j] == crate::textscan::lower_byte(#[trigger] q@[j]),
        decreases n - i,
    {
        let b = q[i];
        let lb = if 65 <= b && b <= 90 {
            b + 32
        } else {
            b
        };
        out.push(lb);
        i += 1;
    }
    proof {
        assert(out@ =~= lower_bytes(q@));
    }
    out
}

/// Whether a question reads as a temperature market.
pub fn is_weather_question(q: &[u8]) -> (r: bool)
    ensures
        r == spec_is_weather_question(q@),
{
    proof {
        reveal(spec_is_weather_question);
    }
    let lower = to_lower_vec(q);
    contains_bytes(lower.as_slice(), "temperature".as_bytes())
}

/// Two decimal digits, zero-padded.
pub open spec fn pad2(n: int) -> Seq<u8>
    recommends
        0 <= n < 100,
{
    seq![(48 + n / 10) as u8, (48 + n % 10) as u8]
}

/// The ISO rendering `YYYY-MM-DD` of a date.
pub open spec fn date_bytes(y: int, m: int, d: int) -> Seq<u8>
    recommends
        1000 <= y <= 9999,
        0 <= m < 100,
        0 <= d < 100,
{
    crate::money::dec_digits(y as nat) + seq![45u8] + pad2(m) + seq![45u8] + pad2(d)
}

/// The label of a bucket: the two bounds joined by a dash, negative
/// bounds with their sign.
pub open spec fn int_bytes(n: int) -> Seq<u8> {
    if n < 0 {
        seq![45u8] + crate::money::dec_digits((-n) as nat)
    } else {
        crate::money::dec_digits(n as nat)
    }
}

pub open spec fn label_bytes(lo: int, hi: int) -> Seq<u8> {
    int_bytes(lo) + seq![45u8] + int_bytes(hi)
}

/// Append the rendering of a possibly negative number.
fn push_int(out: &mut Vec<u8>, n: i64)
    requires
        -100000 <= n <= 100000,
    ensures
        final(out)@ == old(out)@ + int_bytes(n as int),
{
    if n < 0 {
        out.push(45);
        crate::money::push_dec_digits((-n) as u64, out);
        proof {
            assert(final(out)@ =~= old(out)@ + int_bytes(n as int));
        }
    } else {
        crate::money::push_dec_digits(n as u64, out);
        proof {
            assert(final(out)@ =~= old(out)@ + int_bytes(n as int));
        }
    }
}

/// Bytes of every rendered number are ASCII.
proof fn lemma_int_bytes_ascii(n: int)
    ensures
        forall|i: int| 0 <= i < int_bytes(n).len() ==> (#[trigger] int_bytes(n)[i]) < 128,
{
    let m = if n < 0 {
        -n
    } else {
        n
    };
    crate::money::lemma_dec_digits_val(m as nat);
    assert forall|i: int| 0 <= i < int_bytes(n).len() implies (#[trigger] int_bytes(n)[i])
        < 128 by {
        if n < 0 {
            if i > 0 {
                assert(is_digit(crate::money::dec_digits(m as nat)[i - 1]));
            }
        } else {
            assert(is_digit(crate::money::dec_digits(m as nat)[i]));
        }
    }
}

/// What a weather question parses to. The info's city, date, label and
/// bounds each equal what the grammar reads.
pub open spec fn parse_ok(
    q: Seq<u8>,
    ty: int,
    tm: int,
    td: int,
    info: WeatherMarketInfo,
) -> bool {
    &&& spec_is_weather_question(q)
    &&& spec_city_of(q) == Some(info.city@)
    &&& valid_parsed_date(spec_extract_date(q, ty, tm, td))
    &&& {
        let date = spec_extract_date(q, ty, tm, td);
        &&& date is Some
        &&& {
            let (y, m, d) = date.unwrap();
            info.date@.len() == date_bytes(y, m, d).len() && forall|i: int|
                0 <= i < date_bytes(y, m, d).len() ==> info.date@[i] == (#[trigger] date_bytes(
                    y,
                    m,
                    d,
                )[i]) as char
        }
    }
    &&& spec_temperature_range(q) == Some(
        (info.bucket_lower as int, info.bucket_upper as int),
    )
    &&& {
        let lb = label_bytes(info.bucket_lower as int, info.bucket_upper as int);
        info.bucket_label@.len() == lb.len() && forall|i: int|
            0 <= i < lb.len() ==> info.bucket_label@[i] == (#[trigger] lb[i]) as char
    }
}

/// Parse a weather market question: the city, the date (formatted
/// `YYYY-MM-DD`) and the temperature bucket. `None` unless the text
/// mentions temperature and all three parts read.
#[verifier::rlimit(100)]
pub fn parse_weather_market(
    question: &str,
    today_y: i64,
    today_m: i64,
    today_d: i64,
) -> (r: Option<WeatherMarketInfo>)
    requires
        1 <= today_y <= 9998,
        1 <= today_m <= 12,
        1 <= today_d <= 31,
    ensures
        match r {
            Some(info) => parse_ok(
                question.spec_bytes(),
                today_y as int,
                today_m as int,
                today_d as int,
                info,
            ),
            None => {
                let q = question.spec_bytes();
                !spec_is_weather_question(q) || spec_city_of(q) is None || spec_extract_date(
                    q,
                    today_y as int,
                    today_m as int,
                    today_d as int,
                ) is None || spec_temperature_range(q) is None || !valid_parsed_date(
                    spec_extract_date(q, today_y as int, today_m as int, today_d as int),
                )
            },
        },
{
    let q = question.as_bytes();
    if !is_weather_question(q) {
        return None;
    }
    let city = match find_city(q) {
        Some(c) => c,
        None => {
            return None;
        }
    };
    let (y, m, d) = match extract_date(q, today_y, today_m, today_d) {
        Some(x) => x,
        None => {
            return None;
        }
    };
    if !(1000 <= y && y <= 9999 && 0 <= m && m < 100 && 0 <= d && d < 100) {
        return None;
    }
    let (lo, hi) = match extract_temperature_range(q) {
        Some(x) => x,
        None => {
            return None;
        }
    };
    let date = render_date(y, m, d);
    let bucket_label = render_label(lo, hi);
    Some(
        WeatherMarketInfo {
            city,
            date,
            bucket_label,
            bucket_lower: lo,
            bucket_upper: hi,
        },
    )
}

/// Render a date as `YYYY-MM-DD`.
fn render_date(y: i64, m: i64, d: i64) -> (r: String)
    requires
        1000 <= y <= 9999,
        0 <= m < 100,
        0 <= d < 100,
    ensures
        r@.len() == date_bytes(y as int, m as int, d as int).len(),
        forall|i: int|
            0 <= i < r@.len() ==> r@[i] == (#[trigger] date_bytes(y as int, m as int, d as int)[i])
                as char,
{
    let mut db: Vec<u8> = Vec::new();
    crate::money::push_dec_digits(y as u64, &mut db);
    db.push(45);
    db.push((48 + m / 10) as u8);
    db.push((48 + m % 10) as u8);
    db.push(45);
    db.push((48 + d / 10) as u8);
    db.push((48 + d % 10) as u8);
    proof {
        assert(db@ =~= date_bytes(y as int, m as int, d as int));
        crate::money::lemma_dec_digits_val(y as nat);
        assert forall|i: int| 0 <= i < db@.len() implies (#[trigger] db@[i]) < 128 by {
            let ds = crate::money::dec_digits(y as nat);
            if i < ds.len() {
                assert(is_digit(ds[i]));
            }
        }
    }
    crate::money::ascii_bytes_to_string(db)
}

/// Render a bucket label `lower-upper`.
fn render_label(lo: i64, hi: i64) -> (r: String)
    requires
        -100000 <= lo <= 100000,
        -100000 <= hi <= 100000,
    ensures
        r@.len() == label_bytes(lo as int, hi as int).len(),
        forall|i: int|
            0 <= i < r@.len() ==> r@[i] == (#[trigger] label_bytes(lo as int, hi as int)[i])
                as char,
{
    let mut lb: Vec<u8> = Vec::new();
    push_int(&mut lb, lo);
    lb.push(45);
    push_int(&mut lb, hi);
    proof {
        assert(lb@ =~= label_bytes(lo as int, hi as int));
        lemma_int_bytes_ascii(lo as int);
        lemma_int_bytes_ascii(hi as int);
        assert forall|i: int| 0 <= i < lb@.len() implies (#[trigger] lb@[i]) < 128 by {
            let a = int_bytes(lo as int);
            let b = int_bytes(hi as int);
            if i < a.len() {
                assert(lb@[i] == a[i]);
            } else if i > a.len() {
                assert(lb@[i] == b[i - a.len() - 1]);
            }
        }
    }
    crate::money::ascii_bytes_to_string(lb)
}

/// Whether the parsed date is renderable: a four-digit year.
pub open spec fn valid_parsed_date(d: Option<(int, int, int)>) -> bool {
    match d {
        Some((y, m, dd)) => 1000 <= y <= 9999 && 0 <= m < 100 && 0 <= dd < 100,
        None => false,
    }
}

// ─── The model probability for a bucket ───

/// Probability mass of the buckets whose lower bound is at least `lo`.
pub open spec fn sum_at_or_above(bs: Seq<BucketProbability>, lo: int) -> int
    decreases bs.len(),
{
    if bs.len() == 0 {
        0
    } else {
        sum_at_or_above(bs.drop_last(), lo) + if bs.last().lower >= lo {
            bs.last().probability as int
        } else {
            0
        }
    }
}

/// Probability mass of the buckets whose upper bound is at most `hi`.
pub open spec fn sum_at_or_below(bs: Seq<BucketProbability>, hi: int) -> int
    decreases bs.len(),
{
    if bs.len() == 0 {
        0
    } else {
        sum_at_or_below(bs.drop_last(), hi) + if bs.last().upper <= hi {
            bs.last().probability as int
        } else {
            0
        }
    }
}

/// Probability mass of the buckets lying inside `[lo, hi]`.
pub open spec fn sum_within(bs: Seq<BucketProbability>, lo: int, hi: int) -> int
    decreases bs.len(),
{
    if bs.len() == 0 {
        0
    } else {
        sum_within(bs.drop_last(), lo, hi) + if bs.last().lower >= lo && bs.last().upper <= hi {
            bs.last().probability as int
        } else {
            0
        }
    }
}

/// Probability mass of overlapping buckets, each scaled by its overlap
/// fraction with `[lo, hi]`.
pub open spec fn sum_overlap(bs: Seq<BucketProbability>, lo: int, hi: int) -> int
    decreases bs.len(),
{
    if bs.len() == 0 {
        0
    } else {
        sum_overlap(bs.drop_last(), lo, hi) + overlap_part(bs.last(), lo, hi)
    }
}

/// One bucket's contribution to the overlap sum: its probability scaled
/// by the fraction of the bucket inside `[lo, hi]`.
pub open spec fn overlap_part(b: BucketProbability, lo: int, hi: int) -> int {
    let ol = if b.lower >= lo {
        b.lower as int
    } else {
        lo
    };
    let ou = if b.upper <= hi {
        b.upper as int
    } else {
        hi
    };
    if b.lower < hi && b.upper > lo && b.upper > b.lower && ou > ol {
        b.probability * (ou - ol) / (b.upper - b.lower)
    } else {
        0
    }
}

/// A forecast whose buckets have sane bounds and probabilities.
pub open spec fn probs_wf(p: WeatherProbabilities) -> bool {
    &&& p.buckets@.len() <= 1000
    &&& forall|i: int|
        0 <= i < p.buckets@.len() ==> {
            &&& 0 <= (#[trigger] p.buckets@[i]).probability <= SCALE
            &&& -1000 <= p.buckets@[i].lower <= p.buckets@[i].upper <= 1000
        }
}

/// The model's probability for the market's exact bucket: for
/// `X or above` markets the mass at or above `X`; for `or below`
/// markets the mass at or below; otherwise the mass inside the bucket,
/// falling back to overlap-weighted mass when no bucket lies inside.
pub open spec fn spec_model_probability(
    info: WeatherMarketInfo,
    bs: Seq<BucketProbability>,
) -> Option<int> {
    if info.bucket_upper >= 130 {
        Some(sum_at_or_above(bs, info.bucket_lower as int))
    } else if info.bucket_lower <= -59 {
        Some(sum_at_or_below(bs, info.bucket_upper as int))
    } else {
        let t = sum_within(bs, info.bucket_lower as int, info.bucket_upper as int);
        if t > 0 {
            Some(t)
        } else {
            Some(sum_overlap(bs, info.bucket_lower as int, info.bucket_upper as int))
        }
    }
}

proof fn lemma_overlap_part_bound(b: BucketProbability, lo: int, hi: int)
    requires
        0 <= b.probability <= SCALE,
        -1000 <= b.lower <= b.upper <= 1000,
    ensures
        0 <= overlap_part(b, lo, hi) <= SCALE,
{
    let ol = if b.lower >= lo {
        b.lower as int
    } else {
        lo
    };
    let ou = if b.upper <= hi {
        b.upper as int
    } else {
        hi
    };
    if b.lower < hi && b.upper > lo && b.upper > b.lower && ou > ol {
        crate::money::lemma_mul_div_le(ou - ol, b.upper - b.lower, b.probability as int);
        assert(b.probability * (ou - ol) == (ou - ol) * b.probability) by (nonlinear_arith);
    }
}

/// Look up the model probability for the market's bucket.
pub fn get_weather_model_probability(
    info: &WeatherMarketInfo,
    probs: &WeatherProbabilities,
) -> (r: Option<i64>)
    requires
        probs_wf(*probs),
    ensures
        match r {
            Some(v) => spec_model_probability(*info, probs.buckets@) == Some(v as int),
            None => spec_model_probability(*info, probs.buckets@) is None,
        },
{
    let bs = &probs.buckets;
    let n = bs.len();
    if info.bucket_upper >= 130 {
        let mut acc: i64 = 0;
        let mut i: usize = 0;
        proof {
            assert(bs@.subrange(0, 0) =~= Seq::<BucketProbability>::empty());
        }
        while i < n
            invariant
                0 <= i <= n,
                n == bs@.len() <= 1000,
                probs_wf(*probs),
                bs@ == probs.buckets@,
                acc == sum_at_or_above(bs@.subrange(0, i as int), info.bucket_lower as int),
                0 <= acc <= i * (SCALE as int),
            decreases n - i,
        {
            proof {
                assert(bs@.subrange(0, i + 1).drop_last() =~= bs@.subrange(0, i as int));
                assert(bs@.subrange(0, i + 1).last() == bs@[i as int]);
            }
            if bs[i].lower >= info.bucket_lower {
                acc = acc + bs[i].probability;
            }
            i += 1;
        }
        proof {
            assert(bs@.subrange(0, n as int) =~= bs@);
        }
        return Some(acc);
    }
    if info.bucket_lower <= -59 {
        let mut acc: i64 = 0;
        let mut i: usize = 0;
        proof {
            assert(bs@.subrange(0, 0) =~= Seq::<BucketProbability>::empty());
        }
        while i < n
            invariant
                0 <= i <= n,
                n == bs@.len() <= 1000,
                probs_wf(*probs),
                bs@ == probs.buckets@,
                acc == sum_at_or_below(bs@.subrange(0, i as int), info.bucket_upper as int),
                0 <= acc <= i * (SCALE as int),
            decreases n - i,
        {
            proof {
                assert(bs@.subrange(0, i + 1).drop_last() =~= bs@.subrange(0, i as int));
                assert(bs@.subrange(0, i + 1).last() == bs@[i as int]);
            }
            if bs[i].upper <= info.bucket_upper {
                acc = acc + bs[i].probability;
            }
            i += 1;
        }
        proof {
            assert(bs@.subrange(0, n as int) =~= bs@);
        }
        return Some(acc);
    }
    // Exact-bucket mass.
    let mut acc: i64 = 0;
    let mut i: usize = 0;
    proof {
        assert(bs@.subrange(0, 0) =~= Seq::<BucketProbability>::empty());
    }
    while i < n
        invariant
            0 <= i <= n,
            n == bs@.len() <= 1000,
            probs_wf(*probs),
            bs@ == probs.buckets@,
            acc == sum_within(
                bs@.subrange(0, i as int),
                info.bucket_lower as int,
                info.bucket_upper as int,
            ),
            0 <= acc <= i * (SCALE as int),
        decreases n - i,
    {
        proof {
            assert(bs@.subrange(0, i + 1).drop_last() =~= bs@.subrange(0, i as int));
            assert(bs@.subrange(0, i + 1).last() == bs@[i as int]);
        }
        if bs[i].lower >= info.bucket_lower && bs[i].upper <= info.bucket_upper {
            acc = acc + bs[i].probability;
        }
        i += 1;
    }
    proof {
        assert(bs@.subrange(0, n as int) =~= bs@);
    }
    if acc > 0 {
        return Some(acc);
    }
    // Overlap-weighted mass.
    let mut acc2: i64 = 0;
    let mut i2: usize = 0;
    proof {
        assert(bs@.subrange(0, 0) =~= Seq::<BucketProbability>::empty());
    }
    while i2 < n
        invariant
            0 <= i2 <= n,
            n == bs@.len() <= 1000,
            probs_wf(*probs),
            bs@ == probs.buckets@,
            acc2 == sum_overlap(
                bs@.subrange(0, i2 as int),
                info.bucket_lower as int,
                info.bucket_upper as int,
            ),
            0 <= acc2 <= i2 * (SCALE as int),
        decreases n - i2,
    {
        proof {
            assert(bs@.subrange(0, i2 + 1).drop_last() =~= bs@.subrange(0, i2 as int));
            assert(bs@.subrange(0, i2 + 1).last() == bs@[i2 as int]);
            lemma_overlap_part_bound(
                bs@[i2 as int],
                info.bucket_lower as int,
                info.bucket_upper as int,
            );
        }
        let b = &bs[i2];
        let ol = if b.lower >= info.bucket_lower {
            b.lower
        } else {
            info.bucket_lower
        };
        let ou = if b.upper <= info.bucket_upper {
            b.upper
        } else {
            info.bucket_upper
        };
        if b.lower < info.bucket_upper && b.upper > info.bucket_lower && b.upper > b.lower && ou
            > ol {
            proof {
                assert(b.probability * (ou - ol) == (ou - ol) * b.probability)
                    by (nonlinear_arith);
                crate::money::lemma_mul_div_le(
                    (ou - ol) as int,
                    (b.upper - b.lower) as int,
                    b.probability as int,
                );
            }
            let term = crate::money::mul_div_floor(b.probability, ou - ol, b.upper - b.lower);
            acc2 = acc2 + term;
        }
        i2 += 1;
    }
    proof {
        assert(bs@.subrange(0, n as int) =~= bs@);
    }
    Some(acc2)
}

} // verus!





