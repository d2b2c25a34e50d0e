//! Market scanning: the catalog's market records, the activity filter,
//! and the pagination rule.
//!
//! Fetching pages is I/O and lives outside the library; this module
//! holds what the records mean. Volumes and liquidity are micro-dollars.

use vstd::prelude::*;
use vstd::string::StringSliceAdditionalSpecFns;

verus! {

/// One outcome token of a market.
#[derive(Debug, Clone)]
pub struct Token {
    pub token_id: String,
    pub outcome: String,
    pub price: Option<i64>,
}

#[derive(Debug, Clone)]
pub struct Tag {
    pub id: Option<u64>,
    pub label: Option<String>,
}

/// A market record from the catalog.
#[derive(Debug, Clone)]
pub struct GammaMarket {
    pub id: String,
    pub question: String,
    pub slug: Option<String>,
    pub condition_id: Option<String>,
    pub tokens: Vec<Token>,
    pub volume: Option<i64>,
    pub liquidity: Option<i64>,
    pub end_date: Option<String>,
    pub closed: bool,
    pub active: bool,
    pub tags: Vec<Tag>,
}

/// Whether the market's token list names the outcome.
pub open spec fn has_outcome_token(ts: Seq<Token>, want: Seq<char>) -> bool {
    exists|i: int| 0 <= i < ts.len() && (#[trigger] ts[i]).outcome@ == want
}

/// Whether a market survives the filter: open, active, with both the
/// YES and the NO token, a condition id, and enough liquidity and
/// volume (absent numbers count as zero).
pub open spec fn spec_keeps(m: GammaMarket, min_liquidity: int, min_volume: int) -> bool {
    &&& !m.closed
    &&& m.active
    &&& has_outcome_token(m.tokens@, "Yes"@)
    &&& has_outcome_token(m.tokens@, "No"@)
    &&& m.condition_id is Some
    &&& (match m.liquidity {
        Some(l) => l as int,
        None => 0,
    }) >= min_liquidity
    &&& (match m.volume {
        Some(v) => v as int,
        None => 0,
    }) >= min_volume
}

/// The markets that survive the filter, in order.
pub open spec fn spec_filtered(
    ms: Seq<GammaMarket>,
    min_liquidity: int,
    min_volume: int,
) -> Seq<GammaMarket>
    decreases ms.len(),
{
    if ms.len() == 0 {
        Seq::empty()
    } else if spec_keeps(ms.last(), min_liquidity, min_volume) {
        spec_filtered(ms.drop_last(), min_liquidity, min_volume).push(ms.last())
    } else {
        spec_filtered(ms.drop_last(), min_liquidity, min_volume)
    }
}

/// Whether some token of the list has the wanted outcome word.
fn tokens_have_outcome(ts: &Vec<Token>, want: &String) -> (r: bool)
    ensures
        r == has_outcome_token(ts@, want@),
{
    let n = ts.len();
    let mut i: usize = 0;
    while i < n
        invariant
            0 <= i <= n,
            n == ts@.len(),
            forall|j: int| 0 <= j < i ==> (#[trigger] ts@[j]).outcome@ != want@,
        decreases n - i,
    {
        if ts[i].outcome.eq(want) {
            return true;
        }
        i += 1;
    }
    false
}

/// Keep the active, liquid markets, in their given order.
pub fn filter_markets(
    markets: Vec<GammaMarket>,
    min_liquidity: i64,
    min_volume: i64,
) -> (r: Vec<GammaMarket>)
    ensures
        r@ == spec_filtered(markets@, min_liquidity as int, min_volume as int),
{
    let ghost ms = markets@;
    let n = markets.len();
    let mut out: Vec<GammaMarket> = Vec::new();
    let mut rest = markets;
    let mut i: usize = 0;
    let yes_word = String::from_str("Yes");
    let no_word = String::from_str("No");
    proof {
        assert(ms.subrange(0, 0) =~= Seq::<GammaMarket>::empty());
        assert(spec_filtered(ms.subrange(0, 0), min_liquidity as int, min_volume as int)
            =~= Seq::<GammaMarket>::empty());
    }
    // Consume from the front so that no clone is needed.
    while rest.len() > 0
        invariant
            i + rest@.len() == n,
            0 <= i <= n,
            n == ms.len(),
            yes_word@ == "Yes"@,
            no_word@ == "No"@,
            rest@ == ms.subrange(i as int, n as int),
            out@ == spec_filtered(ms.subrange(0, i as int), min_liquidity as int, min_volume as int),
        decreases rest@.len(),
    {
        let m = rest.remove(0);
        proof {
            assert(m == ms[i as int]);
            assert(ms.subrange(0, i + 1).drop_last() =~= ms.subrange(0, i as int));
            assert(ms.subrange(0, i + 1).last() == ms[i as int]);
            assert(rest@ =~= ms.subrange(i + 1, n as int));
        }
        let keeps = !m.closed && m.active && tokens_have_outcome(&m.tokens, &yes_word)
            && tokens_have_outcome(&m.tokens, &no_word) && m.condition_id.is_some() && {
            let l = match m.liquidity {
                Some(l) => l,
                None => 0,
            };
            let v = match m.volume {
                Some(v) => v,
                None => 0,
            };
            l >= min_liquidity && v >= min_volume
        };
        if keeps {
            out.push(m);
        }
        i += 1;
    }
    proof {
        assert(ms.subrange(0, n as int) =~= ms);
    }
    out
}

/// The pagination rule: another page is fetched only while the last
/// page was full and the cap is not yet reached.
pub fn should_fetch_next_page(
    page_len: usize,
    page_size: usize,
    total_so_far: usize,
    max_markets: usize,
) -> (r: bool)
    ensures
        r == (page_len > 0 && page_len >= page_size && total_so_far < max_markets),
{
    page_len > 0 && page_len >= page_size && total_so_far < max_markets
}


/// What parsing a stringified JSON array of strings gives: the array's
/// elements. A function of the text alone; `None` when the text is not
/// such an array.
pub uninterp spec fn string_array_of(s: Seq<char>) -> Option<Seq<Seq<char>>>;

/// Relies on `serde_json::from_str::<Vec<String>>`: parse a
/// stringified JSON array of strings.
#[verifier::external_body]
fn parse_json_string_array(s: &str) -> (r: Option<Vec<String>>)
    ensures
        match r {
            Some(v) => string_array_of(s@) == Some(v.deep_view()),
            None => string_array_of(s@) is None,
        },
{
    serde_json::from_str::<Vec<String>>(s).ok()
}

/// The tokens of the three parallel catalog arrays, zipped: the id and
/// outcome lists must agree in length; the price list may be shorter
/// and its entries may fail to parse.
pub open spec fn spec_zipped_token(
    ids: Seq<Seq<char>>,
    outs: Seq<Seq<char>>,
    prices: Seq<Seq<char>>,
    i: int,
    t: Token,
) -> bool {
    &&& t.token_id@ == ids[i]
    &&& t.outcome@ == outs[i]
    &&& t.price == (if 0 <= i < prices.len() {
        match crate::money::decimal_micros(vstd::utf8::encode_utf8(prices[i])) {
            Some(v) => Some(v as i64),
            None => None::<i64>,
        }
    } else {
        None::<i64>
    })
}

/// Build the token list of a market from the catalog's three
/// stringified arrays.
pub fn build_tokens_from_strings(
    clob_token_ids: Option<&str>,
    outcomes: Option<&str>,
    outcome_prices: Option<&str>,
) -> (r: Vec<Token>)
    ensures
        ({
            let ids = match clob_token_ids {
                Some(s) => match string_array_of(s@) {
                    Some(a) => a,
                    None => Seq::empty(),
                },
                None => Seq::empty(),
            };
            let outs = match outcomes {
                Some(s) => match string_array_of(s@) {
                    Some(a) => a,
                    None => Seq::empty(),
                },
                None => Seq::empty(),
            };
            let prices = match outcome_prices {
                Some(s) => match string_array_of(s@) {
                    Some(a) => a,
                    None => Seq::empty(),
                },
                None => Seq::empty(),
            };
            if ids.len() != outs.len() {
                r@.len() == 0
            } else {
                r@.len() == ids.len() && forall|i: int|
                    0 <= i < r@.len() ==> spec_zipped_token(ids, outs, prices, i, #[trigger] r@[i])
            }
        }),
{
    let ids: Vec<String> = match clob_token_ids {
        Some(s) => match parse_json_string_array(s) {
            Some(v) => v,
            None => Vec::new(),
        },
        None => Vec::new(),
    };
    let outs: Vec<String> = match outcomes {
        Some(s) => match parse_json_string_array(s) {
            Some(v) => v,
            None => Vec::new(),
        },
        None => Vec::new(),
    };
    let prices: Vec<String> = match outcome_prices {
        Some(s) => match parse_json_string_array(s) {
            Some(v) => v,
            None => Vec::new(),
        },
        None => Vec::new(),
    };
    proof {
        if ids@.len() == 0 {
            assert(ids.deep_view() =~= Seq::<Seq<char>>::empty());
        }
        if outs@.len() == 0 {
            assert(outs.deep_view() =~= Seq::<Seq<char>>::empty());
        }
        if prices@.len() == 0 {
            assert(prices.deep_view() =~= Seq::<Seq<char>>::empty());
        }
    }
    let mut out: Vec<Token> = Vec::new();
    if ids.len() != outs.len() {
        proof {
            assert(ids.deep_view().len() == ids@.len());
            assert(outs.deep_view().len() == outs@.len());
        }
        return out;
    }
    let n = ids.len();
    let mut i: usize = 0;
    while i < n
        invariant
            0 <= i <= n,
            n == ids@.len() == outs@.len(),
            out@.len() == i,
            forall|j: int|
                0 <= j < i ==> spec_zipped_token(
                    ids.deep_view(),
                    outs.deep_view(),
                    prices.deep_view(),
                    j,
                    #[trigger] out@[j],
                ),
        decreases n - i,
    {
        let id = ids[i].clone();
        let outcome = outs[i].clone();
        let price = if i < prices.len() {
            let ps = prices[i].as_str();
            proof {
                assert(ps.spec_bytes() == vstd::utf8::encode_utf8(prices.deep_view()[i as int]));
            }
            crate::money::parse_decimal(ps.as_bytes())
        } else {
            None
        };
        proof {
            assert(ids.deep_view()[i as int] == ids@[i as int]@);
            assert(outs.deep_view()[i as int] == outs@[i as int]@);
            assert(prices.deep_view().len() == prices@.len());
        }
        out.push(Token { token_id: id, outcome, price });
        i += 1;
    }
    proof {
        assert(ids.deep_view().len() == ids@.len());
    }
    out
}


/// Whether a market is a weather market of one of the given cities,
/// resolving within the day window `[today, today + days_ahead)`.
pub open spec fn keeps_weather(
    m: GammaMarket,
    codes: Seq<&str>,
    ty: int,
    tm: int,
    td: int,
    days_ahead: int,
) -> bool {
    let q = crate::weather::string_bytes(m.question);
    &&& crate::weather::spec_is_weather_question(q)
    &&& crate::weather::spec_city_of(q) is Some
    &&& crate::weather::valid_parsed_date(crate::weather::spec_extract_date(q, ty, tm, td))
    &&& crate::weather::spec_temperature_range(q) is Some
    &&& (exists|i: int|
        0 <= i < codes.len() && vstd::utf8::encode_utf8(
            crate::weather::spec_city_of(q).unwrap(),
        ) == (#[trigger] codes[i]).spec_bytes())
    &&& ({
        let (y, mm, dd) = crate::weather::spec_extract_date(q, ty, tm, td).unwrap();
        &&& 1 <= mm <= 12
        &&& 1 <= dd <= 31
        &&& crate::weather::spec_day_number(ty, tm, td) <= crate::weather::spec_day_number(
            y,
            mm,
            dd,
        ) < crate::weather::spec_day_number(ty, tm, td) + days_ahead
    })
}

/// The weather markets that survive, in order.
pub open spec fn spec_weather_filtered(
    ms: Seq<GammaMarket>,
    codes: Seq<&str>,
    ty: int,
    tm: int,
    td: int,
    days_ahead: int,
) -> Seq<GammaMarket>
    decreases ms.len(),
{
    if ms.len() == 0 {
        Seq::empty()
    } else if keeps_weather(ms.last(), codes, ty, tm, td, days_ahead) {
        spec_weather_filtered(ms.drop_last(), codes, ty, tm, td, days_ahead).push(ms.last())
    } else {
        spec_weather_filtered(ms.drop_last(), codes, ty, tm, td, days_ahead)
    }
}

/// Keep the weather markets of the supported cities that resolve
/// within the next `days_ahead` days.
pub fn filter_weather_markets(
    markets: Vec<GammaMarket>,
    city_codes: &Vec<&str>,
    today_y: i64,
    today_m: i64,
    today_d: i64,
    days_ahead: i64,
) -> (r: Vec<GammaMarket>)
    requires
        1 <= today_y <= 9998,
        1 <= today_m <= 12,
        1 <= today_d <= 31,
        0 <= days_ahead <= 10000,
    ensures
        r@ == spec_weather_filtered(
            markets@,
            city_codes@,
            today_y as int,
            today_m as int,
            today_d as int,
            days_ahead as int,
        ),
{
    let ghost ms = markets@;
    let n = markets.len();
    let mut out: Vec<GammaMarket> = Vec::new();
    let mut rest = markets;
    let mut i: usize = 0;
    let today_n = crate::weather::day_number(today_y, today_m, today_d);
    proof {
        assert(ms.subrange(0, 0) =~= Seq::<GammaMarket>::empty());
        assert(spec_weather_filtered(
            ms.subrange(0, 0),
            city_codes@,
            today_y as int,
            today_m as int,
            today_d as int,
            days_ahead as int,
        ) =~= Seq::<GammaMarket>::empty());
    }
    while rest.len() > 0
        invariant
            i + rest@.len() == n,
            0 <= i <= n,
            n == ms.len(),
            1 <= today_y <= 9998,
            1 <= today_m <= 12,
            1 <= today_d <= 31,
            0 <= days_ahead <= 10000,
            today_n == crate::weather::spec_day_number(
                today_y as int,
                today_m as int,
                today_d as int,
            ),
            rest@ == ms.subrange(i as int, n as int),
            out@ == spec_weather_filtered(
                ms.subrange(0, i as int),
                city_codes@,
                today_y as int,
                today_m as int,
                today_d as int,
                days_ahead as int,
            ),
        decreases rest@.len(),
    {
        let m = rest.remove(0);
        proof {
            assert(m == ms[i as int]);
            assert(ms.subrange(0, i + 1).drop_last() =~= ms.subrange(0, i as int));
            assert(ms.subrange(0, i + 1).last() == ms[i as int]);
            assert(rest@ =~= ms.subrange(i + 1, n as int));
        }
        let qs = m.question.as_str();
        proof {
            assert(qs.spec_bytes() == crate::weather::string_bytes(m.question));
        }
        let mut keep = false;
        match crate::weather::parse_weather_market(qs, today_y, today_m, today_d) {
            Some(info) => {
                // City in the supported set?
                let mut in_set = false;
                let cn = city_codes.len();
                let mut c: usize = 0;
                while c < cn
                    invariant
                        0 <= c <= cn,
                        cn == city_codes@.len(),
                        crate::weather::spec_city_of(qs.spec_bytes()) == Some(info.city@),
                        in_set == exists|j: int|
                            0 <= j < c && vstd::utf8::encode_utf8(info.city@) == (
                            #[trigger] city_codes@[j]).spec_bytes(),
                    decreases cn - c,
                {
                    let code = city_codes[c];
                    if crate::textscan::eq_bytes(info.city.as_str().as_bytes(), code.as_bytes()) {
                        in_set = true;
                    }
                    c += 1;
                }
                if in_set {
                    match crate::weather::extract_date(qs.as_bytes(), today_y, today_m, today_d) {
                        Some((y, mm, dd)) => {
                            if 1 <= mm && mm <= 12 && 1 <= dd && dd <= 31 && 1 <= y && y
                                <= 9999 {
                                let dn = crate::weather::day_number(y, mm, dd);
                                if today_n <= dn && dn < today_n + days_ahead {
                                    keep = true;
                                }
                            }
                        }
                        None => {
                            proof {
                                assert(false);
                            }
                        }
                    }
                }
            }
            None => {}
        }
        if keep {
            out.push(m);
        }
        i += 1;
    }
    proof {
        assert(ms.subrange(0, n as int) =~= ms);
    }
    out
}

} // verus!


