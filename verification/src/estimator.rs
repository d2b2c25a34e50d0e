//! The two-tier estimator pipeline: model pricing, triage decisions, the
//! fair-value estimate parser, and the per-cycle cost budget.
//!
//! The HTTP transport lives outside the library; everything here is a
//! function of the texts and numbers the service hands back.

use vstd::prelude::*;
use vstd::string::StringSliceAdditionalSpecFns;

use crate::money::{decimal_micros, parse_decimal, SCALE};
use crate::textscan::{contains_bytes, contains_sub, starts_with};

verus! {

// ─── Token pricing (dollars per million tokens) ───

/// Dollars per million tokens. With costs in micro-dollars this makes the
/// cost of a call exactly `tokens * rate`.
#[derive(Debug, Clone, Copy, PartialEq, Eq, Structural)]
pub struct ModelPricing {
    pub input_per_mtok: i64,
    pub output_per_mtok: i64,
}

/// The byte string `haiku`.
pub open spec fn haiku_bytes() -> Seq<u8> {
    seq![104u8, 97u8, 105u8, 107u8, 117u8]
}

/// The byte string `opus`.
pub open spec fn opus_bytes() -> Seq<u8> {
    seq![111u8, 112u8, 117u8, 115u8]
}

/// The pricing tier a model name selects: the cheap tier for names naming
/// `haiku`, the premium tier for `opus`, the middle tier otherwise.
pub open spec fn spec_pricing_for(name: Seq<u8>) -> ModelPricing {
    if contains_sub(name, haiku_bytes()) {
        ModelPricing { input_per_mtok: 1, output_per_mtok: 5 }
    } else if contains_sub(name, opus_bytes()) {
        ModelPricing { input_per_mtok: 15, output_per_mtok: 75 }
    } else {
        ModelPricing { input_per_mtok: 3, output_per_mtok: 15 }
    }
}

impl ModelPricing {
    /// Rates for a model, by name.
    pub fn for_model(model: &str) -> (r: ModelPricing)
        ensures
            r == spec_pricing_for(model.spec_bytes()),
    {
        let b = model.as_bytes();
        let haiku: [u8; 5] = [104, 97, 105, 107, 117];
        let opus: [u8; 4] = [111, 112, 117, 115];
        proof {
            assert(haiku@ =~= haiku_bytes());
            assert(opus@ =~= opus_bytes());
        }
        if contains_bytes(b, haiku.as_slice()) {
            ModelPricing { input_per_mtok: 1, output_per_mtok: 5 }
        } else if contains_bytes(b, opus.as_slice()) {
            ModelPricing { input_per_mtok: 15, output_per_mtok: 75 }
        } else {
            ModelPricing { input_per_mtok: 3, output_per_mtok: 15 }
        }
    }

    /// The cost of a call in micro-dollars: `tokens * dollars-per-Mtok` on
    /// each side, summed.
    pub fn calculate_cost(&self, input_tokens: u64, output_tokens: u64) -> (r: i64)
        requires
            0 <= self.input_per_mtok <= 100,
            0 <= self.output_per_mtok <= 100,
            input_tokens <= 1_000_000_000_000,
            output_tokens <= 1_000_000_000_000,
        ensures
            r == input_tokens * self.input_per_mtok + output_tokens * self.output_per_mtok,
    {
        proof {
            assert(input_tokens * self.input_per_mtok <= 100_000_000_000_000) by (nonlinear_arith)
                requires
                    0 <= input_tokens <= 1_000_000_000_000,
                    0 <= self.input_per_mtok <= 100,
            ;
            assert(output_tokens * self.output_per_mtok <= 100_000_000_000_000)
                by (nonlinear_arith)
                requires
                    0 <= output_tokens <= 1_000_000_000_000,
                    0 <= self.output_per_mtok <= 100,
            ;
            assert(input_tokens * self.input_per_mtok >= 0) by (nonlinear_arith)
                requires
                    input_tokens >= 0,
                    self.input_per_mtok >= 0,
            ;
            assert(output_tokens * self.output_per_mtok >= 0) by (nonlinear_arith)
                requires
                    output_tokens >= 0,
                    self.output_per_mtok >= 0,
            ;
        }
        let inc = (input_tokens as i64) * self.input_per_mtok;
        let outc = (output_tokens as i64) * self.output_per_mtok;
        inc + outc
    }
}

// ─── Responses and estimates ───

/// Token usage a model call reports.
#[derive(Debug, Clone, Copy, PartialEq, Eq, Structural)]
pub struct ApiUsage {
    pub input_tokens: u64,
    pub output_tokens: u64,
    pub cache_creation_input_tokens: u64,
    pub cache_read_input_tokens: u64,
}

/// A parsed fair-value estimate; probability and confidence in micro-units.
#[derive(Debug, Clone)]
pub struct FairValueEstimate {
    pub probability: i64,
    pub confidence: i64,
    pub reasoning: String,
    pub data_quality: String,
}

/// The cost of one model call.
#[derive(Debug, Clone)]
pub struct ApiCallCost {
    pub model: String,
    pub input_tokens: u64,
    pub output_tokens: u64,
    pub cost_usd: i64,
}

#[derive(Debug, Clone, Copy, PartialEq, Eq, Structural)]
pub enum TriageDecision {
    Analyze,
    Skip,
}

/// The outcome of a full (triage then analysis) evaluation of one market.
#[derive(Debug, Clone)]
pub struct AnalysisResult {
    pub market_id: String,
    pub question: String,
    pub estimate: FairValueEstimate,
    pub market_yes_price: i64,
    pub total_cost: i64,
    pub api_calls: Vec<ApiCallCost>,
}

// ─── Triage ───

/// ASCII upper-casing of one byte.
pub open spec fn upper_byte(b: u8) -> u8 {
    if 97 <= b <= 122 {
        (b - 32) as u8
    } else {
        b
    }
}

/// Whether the reply text, upper-cased, starts with `YES`.
pub open spec fn spec_says_yes(s: Seq<u8>) -> bool {
    starts_with(s.map_values(|b: u8| upper_byte(b)), seq![89u8, 69u8, 83u8])
}

/// Map a triage reply to a decision: `Analyze` exactly when the reply,
/// upper-cased, starts with `YES`.
pub fn triage_decision(text: &str) -> (r: TriageDecision)
    ensures
        r == TriageDecision::Analyze <==> spec_says_yes(text.spec_bytes()),
{
    let b = text.as_bytes();
    let ghost up = text.spec_bytes().map_values(|c: u8| upper_byte(c));
    if b.len() < 3 {
        proof {
            assert(up.len() == b@.len());
        }
        return TriageDecision::Skip;
    }
    let mut ok = true;
    let yes: [u8; 3] = [89, 69, 83];
    let mut i: usize = 0;
    while i < 3
        invariant
            0 <= i <= 3,
            b@.len() >= 3,
            b@ == text.spec_bytes(),
            yes@ == seq![89u8, 69u8, 83u8],
            ok == forall|j: int| 0 <= j < i ==> up[j] == yes@[j],
            up == text.spec_bytes().map_values(|c: u8| upper_byte(c)),
        decreases 3 - i,
    {
        let c = b[i];
        let u = if 97 <= c && c <= 122 {
            c - 32
        } else {
            c
        };
        proof {
            assert(up[i as int] == upper_byte(b@[i as int]));
        }
        ok = ok && u == yes[i];
        i += 1;
    }
    proof {
        if ok {
            assert(up.subrange(0, 3) =~= seq![89u8, 69u8, 83u8]);
        } else {
            if starts_with(up, seq![89u8, 69u8, 83u8]) {
                assert(forall|j: int|
                    0 <= j < 3 ==> up[j] == up.subrange(0, 3)[j]);
            }
        }
    }
    if ok {
        TriageDecision::Analyze
    } else {
        TriageDecision::Skip
    }
}

// ─── The per-cycle cost budget ───

/// Whether a new market may be looked at: the budget is checked before
/// triage.
pub open spec fn spec_budget_allows_triage(cost_so_far: int, max_cost: int) -> bool {
    cost_so_far < max_cost
}

/// Whether deep analysis may follow triage: the budget is checked again
/// with the triage cost added, and never mid-call.
pub open spec fn spec_budget_allows_analysis(
    cost_so_far: int,
    triage_cost: int,
    max_cost: int,
) -> bool {
    cost_so_far + triage_cost < max_cost
}

/// The budget gate before triage.
pub fn budget_allows_triage(cost_so_far: i64, max_cost: i64) -> (r: bool)
    ensures
        r == spec_budget_allows_triage(cost_so_far as int, max_cost as int),
{
    cost_so_far < max_cost
}

/// The budget gate between triage and analysis.
pub fn budget_allows_analysis(cost_so_far: i64, triage_cost: i64, max_cost: i64) -> (r: bool)
    requires
        0 <= cost_so_far,
        0 <= triage_cost,
        cost_so_far + triage_cost <= i64::MAX,
    ensures
        r == spec_budget_allows_analysis(cost_so_far as int, triage_cost as int, max_cost as int),
{
    cost_so_far + triage_cost < max_cost
}


// ─── Parsing the deep-analysis reply ───

/// What parsing the reply as JSON gives: the object's `probability`,
/// `confidence`, `reasoning` and `data_quality` fields, the two
/// numbers as their source text. A function of the bytes alone; `None`
/// when the bytes are not such an object.
pub uninterp spec fn estimate_fields_of(s: Seq<u8>) -> Option<
    (Seq<char>, Seq<char>, Seq<char>, Seq<char>),
>;

/// Relies on `serde_json::from_slice`: parse the reply as JSON and
/// pick the four estimate fields out of the object, numbers as their
/// source text.
#[verifier::external_body]
fn parse_estimate_json(s: &[u8]) -> (r: Option<(String, String, String, String)>)
    ensures
        match r {
            Some(f) => estimate_fields_of(s@) == Some((f.0@, f.1@, f.2@, f.3@)),
            None => estimate_fields_of(s@) is None,
        },
{
    let v: serde_json::Value = serde_json::from_slice(s).ok()?;
    let p = v.get("probability")?.as_number()?.to_string();
    let c = v.get("confidence")?.as_number()?.to_string();
    let re = v.get("reasoning")?.as_str()?.to_string();
    let dq = v.get("data_quality")?.as_str()?.to_string();
    Some((p, c, re, dq))
}

/// Whether a byte is ASCII whitespace.
pub open spec fn is_space(b: u8) -> bool {
    b == 32 || b == 9 || b == 10 || b == 13
}

/// `s` without leading and trailing ASCII whitespace.
pub open spec fn spec_trim(s: Seq<u8>) -> Seq<u8>
    decreases s.len(),
{
    if s.len() == 0 {
        s
    } else if is_space(s[0]) {
        spec_trim(s.drop_first())
    } else if is_space(s.last()) {
        spec_trim(s.drop_last())
    } else {
        s
    }
}

fn trim_bytes(s: &[u8]) -> (r: Vec<u8>)
    ensures
        r@ == spec_trim(s@),
{
    let n = s.len();
    proof {
        assert(s@.subrange(0, n as int) =~= s@);
    }
    let mut a: usize = 0;
    while a < n && (s[a] == 32 || s[a] == 9 || s[a] == 10 || s[a] == 13)
        invariant
            0 <= a <= n,
            n == s@.len(),
            spec_trim(s@) == spec_trim(s@.subrange(a as int, n as int)),
        decreases n - a,
    {
        proof {
            assert(s@.subrange(a as int, n as int).drop_first() =~= s@.subrange(a + 1, n as int));
        }
        a += 1;
    }
    let mut b = n;
    while b > a && (s[b - 1] == 32 || s[b - 1] == 9 || s[b - 1] == 10 || s[b - 1] == 13)
        invariant
            a <= b <= n,
            n == s@.len(),
            a < n ==> !is_space(s@[a as int]),
            spec_trim(s@) == spec_trim(s@.subrange(a as int, b as int)),
        decreases b,
    {
        proof {
            let seg = s@.subrange(a as int, b as int);
            assert(seg.drop_last() =~= s@.subrange(a as int, b - 1));
            assert(seg.len() > 0 && is_space(seg.last()));
            if seg.len() > 0 && is_space(seg[0]) {
            }
        }
        b -= 1;
    }
    let mut out: Vec<u8> = Vec::new();
    let mut i = a;
    while i < b
        invariant
            a <= i <= b <= n,
            n == s@.len(),
            out@ == s@.subrange(a as int, i as int),
        decreases b - i,
    {
        proof {
            assert(s@.subrange(a as int, i + 1) =~= s@.subrange(a as int, i as int).push(
                s@[i as int],
            ));
        }
        out.push(s[i]);
        i += 1;
    }
    proof {
        let seg = s@.subrange(a as int, b as int);
        assert(out@ =~= seg);
        if seg.len() > 0 {
            assert(!is_space(seg[0]));
            assert(!is_space(seg.last()));
        }
        assert(spec_trim(seg) == seg);
    }
    out
}

/// The reply with markdown fences stripped, the way the estimator
/// accepts both raw JSON and fenced JSON: trim; drop a leading
/// ```json or ``` fence and a trailing ``` fence when both are
/// present; trim again.
pub open spec fn spec_strip_fences(s: Seq<u8>) -> Seq<u8> {
    let t = spec_trim(s);
    let jt = "```json".spec_bytes();
    let bt = "```".spec_bytes();
    let body = if t.len() >= jt.len() && t.subrange(0, jt.len() as int) == jt {
        t.subrange(jt.len() as int, t.len() as int)
    } else if t.len() >= bt.len() && t.subrange(0, bt.len() as int) == bt {
        t.subrange(bt.len() as int, t.len() as int)
    } else {
        t
    };
    let body2 = if body.len() >= bt.len() && body.subrange(
        body.len() - bt.len(),
        body.len() as int,
    ) == bt {
        body.subrange(0, body.len() - bt.len())
    } else {
        body
    };
    spec_trim(body2)
}

fn strip_fences(s: &[u8]) -> (r: Vec<u8>)
    ensures
        r@ == spec_strip_fences(s@),
{
    let t = trim_bytes(s);
    let jt = "```json".as_bytes();
    let bt = "```".as_bytes();
    let tl = t.len();
    let start: usize = if jt.len() <= tl && crate::textscan::occurs_at(t.as_slice(), jt, 0) {
        proof {
            assert(t@.subrange(0, jt@.len() as int) =~= t@.subrange(0, jt@.len() as int));
        }
        jt.len()
    } else if bt.len() <= tl && crate::textscan::occurs_at(t.as_slice(), bt, 0) {
        bt.len()
    } else {
        0
    };
    let ghost body = if start > 0 {
        t@.subrange(start as int, tl as int)
    } else {
        t@
    };
    let end: usize = if bt.len() <= tl - start && crate::textscan::occurs_at(
        t.as_slice(),
        bt,
        tl - bt.len(),
    ) && tl - bt.len() >= start {
        tl - bt.len()
    } else {
        tl
    };
    let mut mid: Vec<u8> = Vec::new();
    let mut i = start;
    while i < end
        invariant
            start <= i <= end <= tl,
            tl == t@.len(),
            mid@ == t@.subrange(start as int, i as int),
        decreases end - i,
    {
        proof {
            assert(t@.subrange(start as int, i + 1) =~= t@.subrange(start as int, i as int).push(
                t@[i as int],
            ));
        }
        mid.push(t[i]);
        i += 1;
    }
    proof {
        assert(mid@ =~= t@.subrange(start as int, end as int));
        lemma_strip_shape(s@, t@, start as int, end as int);
    }
    trim_bytes(mid.as_slice())
}

/// The exec fence bounds name exactly the spec's stripped body.
proof fn lemma_strip_shape(s: Seq<u8>, t: Seq<u8>, start: int, end: int)
    requires
        t == spec_trim(s),
        ({
            let jt = "```json".spec_bytes();
            let bt = "```".spec_bytes();
            &&& (start == if t.len() >= jt.len() && t.subrange(0, jt.len() as int) == jt {
                jt.len() as int
            } else if t.len() >= bt.len() && t.subrange(0, bt.len() as int) == bt {
                bt.len() as int
            } else {
                0
            })
            &&& (end == if t.len() - start >= bt.len() && t.len() - bt.len() >= start
                && t.subrange(t.len() - bt.len(), t.len() as int) == bt {
                t.len() - bt.len()
            } else {
                t.len() as int
            })
        }),
    ensures
        spec_strip_fences(s) == spec_trim(t.subrange(start, end)),
{
    let jt = "```json".spec_bytes();
    let bt = "```".spec_bytes();
    let body = if t.len() >= jt.len() && t.subrange(0, jt.len() as int) == jt {
        t.subrange(jt.len() as int, t.len() as int)
    } else if t.len() >= bt.len() && t.subrange(0, bt.len() as int) == bt {
        t.subrange(bt.len() as int, t.len() as int)
    } else {
        t
    };
    let body2 = if body.len() >= bt.len() && body.subrange(
        body.len() - bt.len(),
        body.len() as int,
    ) == bt {
        body.subrange(0, body.len() - bt.len())
    } else {
        body
    };
    assert(body =~= t.subrange(start, t.len() as int));
    if body.len() >= bt.len() && body.subrange(body.len() - bt.len(), body.len() as int) == bt {
        assert(body.subrange(body.len() - bt.len(), body.len() as int) =~= t.subrange(
            t.len() - bt.len(),
            t.len() as int,
        ));
        assert(body2 =~= t.subrange(start, end));
    } else {
        if t.len() - start >= bt.len() && t.len() - bt.len() >= start && t.subrange(
            t.len() - bt.len(),
            t.len() as int,
        ) == bt {
            assert(body.subrange(body.len() - bt.len(), body.len() as int) =~= t.subrange(
                t.len() - bt.len(),
                t.len() as int,
            ));
        }
        assert(body2 =~= t.subrange(start, end));
    }
}

/// Why a reply was rejected.
#[derive(Debug, Clone, Copy, PartialEq, Eq, Structural)]
pub enum EstimateError {
    NotJson,
    BadProbability,
    BadConfidence,
    BadDataQuality,
}

/// The fields the parser reads: of the reply itself if it is a JSON
/// object, else of the reply with fences stripped.
pub open spec fn spec_reply_fields(s: Seq<u8>) -> Option<
    (Seq<char>, Seq<char>, Seq<char>, Seq<char>),
> {
    if estimate_fields_of(s) is Some {
        estimate_fields_of(s)
    } else {
        estimate_fields_of(spec_strip_fences(s))
    }
}

/// Check the four reply fields: the probability and confidence must be
/// decimal numbers within `[0, 1]`, the data quality one of `high`,
/// `medium`, `low`.
pub fn validate_estimate(
    probability_text: &str,
    confidence_text: &str,
    reasoning: String,
    data_quality: String,
) -> (r: Result<FairValueEstimate, EstimateError>)
    ensures
        match r {
            Ok(e) => {
                &&& decimal_micros(probability_text.spec_bytes()) == Some(e.probability as int)
                &&& 0 <= e.probability <= SCALE
                &&& decimal_micros(confidence_text.spec_bytes()) == Some(e.confidence as int)
                &&& 0 <= e.confidence <= SCALE
                &&& e.reasoning@ == reasoning@
                &&& (e.data_quality@ == "high"@ || e.data_quality@ == "medium"@
                    || e.data_quality@ == "low"@)
                &&& e.data_quality@ == data_quality@
            },
            Err(EstimateError::BadProbability) => {
                match decimal_micros(probability_text.spec_bytes()) {
                    Some(p) => !(0 <= p <= SCALE),
                    None => true,
                }
            },
            Err(EstimateError::BadConfidence) => {
                &&& (match decimal_micros(probability_text.spec_bytes()) {
                    Some(p) => 0 <= p <= SCALE,
                    None => false,
                })
                &&& (match decimal_micros(confidence_text.spec_bytes()) {
                    Some(c) => !(0 <= c <= SCALE),
                    None => true,
                })
            },
            Err(EstimateError::BadDataQuality) => {
                &&& (match decimal_micros(probability_text.spec_bytes()) {
                    Some(p) => 0 <= p <= SCALE,
                    None => false,
                })
                &&& (match decimal_micros(confidence_text.spec_bytes()) {
                    Some(c) => 0 <= c <= SCALE,
                    None => false,
                })
                &&& data_quality@ != "high"@
                &&& data_quality@ != "medium"@
                &&& data_quality@ != "low"@
            },
            Err(EstimateError::NotJson) => false,
        },
{
    let p = match parse_decimal(probability_text.as_bytes()) {
        Some(p) => p,
        None => {
            return Err(EstimateError::BadProbability);
        }
    };
    if p < 0 || p > SCALE {
        return Err(EstimateError::BadProbability);
    }
    let c = match parse_decimal(confidence_text.as_bytes()) {
        Some(c) => c,
        None => {
            return Err(EstimateError::BadConfidence);
        }
    };
    if c < 0 || c > SCALE {
        return Err(EstimateError::BadConfidence);
    }
    let dqb = data_quality.as_str().as_bytes();
    let ok = crate::textscan::eq_bytes(dqb, "high".as_bytes()) || crate::textscan::eq_bytes(
        dqb,
        "medium".as_bytes(),
    ) || crate::textscan::eq_bytes(dqb, "low".as_bytes());
    if !ok {
        proof {
            lemma_bytes_neq(data_quality, "high");
            lemma_bytes_neq(data_quality, "medium");
            lemma_bytes_neq(data_quality, "low");
        }
        return Err(EstimateError::BadDataQuality);
    }
    proof {
        lemma_bytes_eq_chars(data_quality, "high");
        lemma_bytes_eq_chars(data_quality, "medium");
        lemma_bytes_eq_chars(data_quality, "low");
    }
    Ok(FairValueEstimate { probability: p, confidence: c, reasoning, data_quality })
}

/// Equal views encode to equal bytes.
proof fn lemma_bytes_neq(s: String, lit: &str)
    ensures
        crate::weather::string_bytes(s) != lit.spec_bytes() ==> s@ != lit@,
{
    if s@ == lit@ {
        assert(crate::weather::string_bytes(s) == lit.spec_bytes());
    }
}

/// ASCII literals decode injectively: equal bytes give equal views.
proof fn lemma_bytes_eq_chars(s: String, lit: &str)
    ensures
        crate::weather::string_bytes(s) == lit.spec_bytes() ==> s@ == lit@,
{
    if crate::weather::string_bytes(s) == lit.spec_bytes() {
        vstd::utf8::encode_utf8_decode_utf8(s@);
        vstd::utf8::encode_utf8_decode_utf8(lit@);
    }
}

/// Parse a deep-analysis reply: accept raw JSON and JSON wrapped in
/// markdown fences, then validate ranges and the quality label.
pub fn parse_estimate(text: &str) -> (r: Result<FairValueEstimate, EstimateError>)
    ensures
        ({
            match spec_reply_fields(text.spec_bytes()) {
                None => r == Err::<FairValueEstimate, EstimateError>(EstimateError::NotJson),
                Some(f) => {
                    let pm = decimal_micros(vstd::utf8::encode_utf8(f.0));
                    let cm = decimal_micros(vstd::utf8::encode_utf8(f.1));
                    let p_ok = (pm matches Some(p) && 0 <= p <= SCALE);
                    let c_ok = (cm matches Some(c) && 0 <= c <= SCALE);
                    let q_ok = (f.3 == "high"@ || f.3 == "medium"@ || f.3 == "low"@);
                    match r {
                        Ok(e) => {
                            &&& p_ok
                            &&& c_ok
                            &&& q_ok
                            &&& pm == Some(e.probability as int)
                            &&& 0 <= e.probability <= SCALE
                            &&& cm == Some(e.confidence as int)
                            &&& 0 <= e.confidence <= SCALE
                            &&& e.reasoning@ == f.2
                            &&& e.data_quality@ == f.3
                        },
                        Err(EstimateError::NotJson) => false,
                        Err(EstimateError::BadProbability) => !p_ok,
                        Err(EstimateError::BadConfidence) => p_ok && !c_ok,
                        Err(EstimateError::BadDataQuality) => p_ok && c_ok && !q_ok,
                    }
                },
            }
        }),
{
    let raw = text.as_bytes();
    let direct = parse_estimate_json(raw);
    let fields = match direct {
        Some(f) => f,
        None => {
            let stripped = strip_fences(raw);
            match parse_estimate_json(stripped.as_slice()) {
                Some(f) => f,
                None => {
                    return Err(EstimateError::NotJson);
                }
            }
        }
    };
    let (p, c, re, dq) = fields;
    let ps = p.as_str();
    let cs = c.as_str();
    proof {
        assert(ps.spec_bytes() == vstd::utf8::encode_utf8(p@));
        assert(cs.spec_bytes() == vstd::utf8::encode_utf8(c@));
    }
    validate_estimate(ps, cs, re, dq)
}

// ─── The weather block of the analysis prompt ───

/// The one-decimal rendering of `t` tenths: sign, whole part, dot, one
/// digit.
pub open spec fn tenths_bytes(t: int) -> Seq<u8> {
    let a = if t < 0 {
        -t
    } else {
        t
    };
    (if t < 0 {
        seq![45u8]
    } else {
        Seq::<u8>::empty()
    }) + crate::money::dec_digits((a / 10) as nat) + seq![46u8, (48 + a % 10) as u8]
}

/// The one-decimal rendering with an explicit sign on zero and
/// positive values.
pub open spec fn plus_tenths_bytes(t: int) -> Seq<u8> {
    if t >= 0 {
        seq![43u8] + tenths_bytes(t)
    } else {
        tenths_bytes(t)
    }
}

/// A micro-unit quantity as tenths, rounding half away from zero.
pub open spec fn micro_tenths(x: int) -> int {
    if x >= 0 {
        (x + 50_000) / 100_000
    } else {
        -(((-x) + 50_000) / 100_000)
    }
}

/// A micro-unit quantity as a whole number, rounding half away from
/// zero.
pub open spec fn micro_whole(x: int) -> int {
    if x >= 0 {
        (x + 500_000) / 1_000_000
    } else {
        -(((-x) + 500_000) / 1_000_000)
    }
}

/// A micro-unit probability as tenths of a percent, rounding half up.
pub open spec fn percent_tenths(p: int) -> int {
    (p + 500) / 1000
}

/// The fixed lines of the weather block, up to and including the
/// bucket-list heading.
pub open spec fn weather_header_bytes(p: crate::weather::WeatherProbabilities) -> Seq<u8> {
    "### Weather Ensemble Forecast\n- **City:** ".spec_bytes() + crate::weather::string_bytes(
        p.city,
    ) + "\n- **Station:** ".spec_bytes() + crate::weather::string_bytes(p.station_icao)
        + " (resolution source: Weather Underground)\n- **Forecast date:** ".spec_bytes()
        + crate::weather::string_bytes(p.forecast_date) + "\n- **Ensemble members:** ".spec_bytes()
        + crate::money::dec_digits(p.gefs_count as nat) + " GEFS + ".spec_bytes()
        + crate::money::dec_digits(p.ecmwf_count as nat) + " ECMWF = ".spec_bytes()
        + crate::money::dec_digits((p.gefs_count + p.ecmwf_count) as nat)
        + " total\n- **Combined ensemble mean:** ".spec_bytes() + tenths_bytes(
        micro_tenths(p.ensemble_mean as int),
    ) + "°F\n- **Combined ensemble std dev:** ".spec_bytes() + tenths_bytes(
        micro_tenths(p.ensemble_std as int),
    ) + "°F\n- **Temperature bucket probabilities:**\n".spec_bytes()
}

/// One bucket's line, as written for buckets above half a percent.
pub open spec fn bucket_line(b: crate::weather::BucketProbability) -> Seq<u8> {
    "  - ".spec_bytes() + crate::weather::string_bytes(b.bucket_label) + "°F: ".spec_bytes()
        + tenths_bytes(percent_tenths(b.probability as int)) + "%\n".spec_bytes()
}

/// The bucket lines: one per bucket whose probability exceeds half a
/// percent, in order.
pub open spec fn bucket_lines(bs: Seq<crate::weather::BucketProbability>) -> Seq<u8>
    decreases bs.len(),
{
    if bs.len() == 0 {
        Seq::empty()
    } else {
        bucket_lines(bs.drop_last()) + (if bs.last().probability > 5000 {
            bucket_line(bs.last())
        } else {
            Seq::<u8>::empty()
        })
    }
}

/// The official-forecast anchor line, when an NWS high is known.
pub open spec fn nws_line(p: crate::weather::WeatherProbabilities) -> Seq<u8> {
    match p.nws_forecast_high {
        Some(h) => "- **NWS Official Forecast High:** ".spec_bytes() + crate::weather::int_bytes(
            micro_whole(h as int),
        ) + "°F\n".spec_bytes(),
        None => Seq::empty(),
    }
}

/// The bias-correction line, when a correction was applied.
pub open spec fn bias_line(p: crate::weather::WeatherProbabilities) -> Seq<u8> {
    match p.bias_correction {
        Some(b) => "- **Bias Correction Applied:** ".spec_bytes() + plus_tenths_bytes(
            micro_tenths(b as int),
        ) + "°F (ensemble shifted to match NWS)\n".spec_bytes(),
        None => Seq::empty(),
    }
}

/// The model's own probability for the question's bucket, when known.
pub open spec fn model_line(mp: Option<i64>) -> Seq<u8> {
    match mp {
        Some(m) => "- **Model probability for this outcome:** ".spec_bytes() + tenths_bytes(
            percent_tenths(m as int),
        ) + "%\n".spec_bytes(),
        None => Seq::empty(),
    }
}

/// The full weather block: the header, the bucket lines, and the three
/// optional lines.
pub open spec fn spec_weather_block(
    p: crate::weather::WeatherProbabilities,
    mp: Option<i64>,
) -> Seq<u8> {
    weather_header_bytes(p) + bucket_lines(p.buckets@) + nws_line(p) + bias_line(p) + model_line(
        mp,
    )
}

/// Append a string's bytes.
fn push_str_bytes(out: &mut Vec<u8>, s: &String)
    ensures
        final(out)@ == old(out)@ + crate::weather::string_bytes(*s),
{
    let b = s.as_str().as_bytes();
    proof {
        assert(b@ == crate::weather::string_bytes(*s));
    }
    out.extend_from_slice(b);
}

/// Append the one-decimal rendering of `t` tenths.
fn push_tenths(out: &mut Vec<u8>, t: i64)
    requires
        -1_000_000_000 <= t <= 1_000_000_000,
    ensures
        final(out)@ == old(out)@ + tenths_bytes(t as int),
{
    if t < 0 {
        out.push(45);
        crate::money::push_dec_digits(((-t) / 10) as u64, out);
        out.push(46);
        out.push((48 + (-t) % 10) as u8);
        proof {
            assert(final(out)@ =~= old(out)@ + tenths_bytes(t as int));
        }
    } else {
        crate::money::push_dec_digits((t / 10) as u64, out);
        out.push(46);
        out.push((48 + t % 10) as u8);
        proof {
            assert(final(out)@ =~= old(out)@ + tenths_bytes(t as int));
        }
    }
}

/// Append the one-decimal rendering of a micro-unit quantity.
fn push_micro_tenths(out: &mut Vec<u8>, x: i64)
    requires
        -1_000_000_000 <= x <= 1_000_000_000,
    ensures
        final(out)@ == old(out)@ + tenths_bytes(micro_tenths(x as int)),
{
    let t: i64 = if x >= 0 {
        (x + 50_000) / 100_000
    } else {
        -(((-x) + 50_000) / 100_000)
    };
    push_tenths(out, t);
}

/// Append the signed one-decimal rendering of a micro-unit quantity.
fn push_plus_micro_tenths(out: &mut Vec<u8>, x: i64)
    requires
        -1_000_000_000 <= x <= 1_000_000_000,
    ensures
        final(out)@ == old(out)@ + plus_tenths_bytes(micro_tenths(x as int)),
{
    let t: i64 = if x >= 0 {
        (x + 50_000) / 100_000
    } else {
        -(((-x) + 50_000) / 100_000)
    };
    if t >= 0 {
        out.push(43);
    }
    push_tenths(out, t);
    proof {
        assert(final(out)@ =~= old(out)@ + plus_tenths_bytes(micro_tenths(x as int)));
    }
}

/// Append the whole-number rendering of a micro-unit quantity.
fn push_whole_micro(out: &mut Vec<u8>, x: i64)
    requires
        -1_000_000_000 <= x <= 1_000_000_000,
    ensures
        final(out)@ == old(out)@ + crate::weather::int_bytes(micro_whole(x as int)),
{
    let w: i64 = if x >= 0 {
        (x + 500_000) / 1_000_000
    } else {
        -(((-x) + 500_000) / 1_000_000)
    };
    if w < 0 {
        out.push(45);
        crate::money::push_dec_digits((-w) as u64, out);
        proof {
            assert(final(out)@ =~= old(out)@ + crate::weather::int_bytes(
                micro_whole(x as int),
            ));
        }
    } else {
        crate::money::push_dec_digits(w as u64, out);
        proof {
            assert(final(out)@ =~= old(out)@ + crate::weather::int_bytes(
                micro_whole(x as int),
            ));
        }
    }
}

/// Render the weather block that fills the prompt template's weather
/// span: city, station, forecast date, member counts, ensemble mean
/// and standard deviation, the buckets above half a percent, and the
/// optional anchor, bias-correction and question-bucket lines.
/// Temperatures are tenths of a degree, probabilities micro-units.
#[verifier::rlimit(100)]
pub fn render_weather_block(
    probs: &crate::weather::WeatherProbabilities,
    model_probability: Option<i64>,
) -> (r: Vec<u8>)
    requires
        crate::weather::probs_wf(*probs),
        -1_000_000_000 <= probs.ensemble_mean <= 1_000_000_000,
        -1_000_000_000 <= probs.ensemble_std <= 1_000_000_000,
        (match probs.nws_forecast_high {
            Some(h) => -1_000_000_000 <= h <= 1_000_000_000,
            None => true,
        }),
        (match probs.bias_correction {
            Some(b) => -1_000_000_000 <= b <= 1_000_000_000,
            None => true,
        }),
        (match model_probability {
            Some(m) => 0 <= m <= SCALE,
            None => true,
        }),
    ensures
        r@ == spec_weather_block(*probs, model_probability),
{
    let mut out: Vec<u8> = Vec::new();
    out.extend_from_slice("### Weather Ensemble Forecast\n- **City:** ".as_bytes());
    push_str_bytes(&mut out, &probs.city);
    out.extend_from_slice("\n- **Station:** ".as_bytes());
    push_str_bytes(&mut out, &probs.station_icao);
    out.extend_from_slice(
        " (resolution source: Weather Underground)\n- **Forecast date:** ".as_bytes(),
    );
    push_str_bytes(&mut out, &probs.forecast_date);
    out.extend_from_slice("\n- **Ensemble members:** ".as_bytes());
    crate::money::push_dec_digits(probs.gefs_count as u64, &mut out);
    out.extend_from_slice(" GEFS + ".as_bytes());
    crate::money::push_dec_digits(probs.ecmwf_count as u64, &mut out);
    out.extend_from_slice(" ECMWF = ".as_bytes());
    crate::money::push_dec_digits(probs.gefs_count as u64 + probs.ecmwf_count as u64, &mut out);
    out.extend_from_slice(" total\n- **Combined ensemble mean:** ".as_bytes());
    push_micro_tenths(&mut out, probs.ensemble_mean);
    out.extend_from_slice("°F\n- **Combined ensemble std dev:** ".as_bytes());
    push_micro_tenths(&mut out, probs.ensemble_std);
    out.extend_from_slice("°F\n- **Temperature bucket probabilities:**\n".as_bytes());
    proof {
        assert(out@ =~= weather_header_bytes(*probs));
    }
    let ghost hdr = out@;
    let n = probs.buckets.len();
    let mut i: usize = 0;
    proof {
        assert(probs.buckets@.subrange(0, 0) =~= Seq::<crate::weather::BucketProbability>::empty());
        assert(out@ =~= hdr + bucket_lines(probs.buckets@.subrange(0, 0)));
    }
    while i < n
        invariant
            0 <= i <= n,
            n == probs.buckets@.len(),
            crate::weather::probs_wf(*probs),
            hdr == weather_header_bytes(*probs),
            out@ == hdr + bucket_lines(probs.buckets@.subrange(0, i as int)),
        decreases n - i,
    {
        proof {
            assert(probs.buckets@.subrange(0, i + 1).drop_last() =~= probs.buckets@.subrange(
                0,
                i as int,
            ));
            assert(probs.buckets@.subrange(0, i + 1).last() == probs.buckets@[i as int]);
        }
        let b = &probs.buckets[i];
        if b.probability > 5000 {
            out.extend_from_slice("  - ".as_bytes());
            push_str_bytes(&mut out, &b.bucket_label);
            out.extend_from_slice("°F: ".as_bytes());
            push_tenths(&mut out, (b.probability + 500) / 1000);
            out.extend_from_slice("%\n".as_bytes());
            proof {
                assert(out@ =~= hdr + bucket_lines(probs.buckets@.subrange(0, i + 1)));
            }
        } else {
            proof {
                assert(out@ =~= hdr + bucket_lines(probs.buckets@.subrange(0, i + 1)));
            }
        }
        i += 1;
    }
    proof {
        assert(probs.buckets@.subrange(0, n as int) =~= probs.buckets@);
    }
    match probs.nws_forecast_high {
        Some(h) => {
            out.extend_from_slice("- **NWS Official Forecast High:** ".as_bytes());
            push_whole_micro(&mut out, h);
            out.extend_from_slice("°F\n".as_bytes());
        },
        None => {},
    }
    proof {
        assert(out@ =~= hdr + bucket_lines(probs.buckets@) + nws_line(*probs));
    }
    match probs.bias_correction {
        Some(b) => {
            out.extend_from_slice("- **Bias Correction Applied:** ".as_bytes());
            push_plus_micro_tenths(&mut out, b);
            out.extend_from_slice("°F (ensemble shifted to match NWS)\n".as_bytes());
        },
        None => {},
    }
    proof {
        assert(out@ =~= hdr + bucket_lines(probs.buckets@) + nws_line(*probs) + bias_line(*probs));
    }
    match model_probability {
        Some(m) => {
            out.extend_from_slice("- **Model probability for this outcome:** ".as_bytes());
            push_tenths(&mut out, (m + 500) / 1000);
            out.extend_from_slice("%\n".as_bytes());
        },
        None => {},
    }
    proof {
        assert(out@ =~= spec_weather_block(*probs, model_probability));
    }
    out
}

} // verus!

