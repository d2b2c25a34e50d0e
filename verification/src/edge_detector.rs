//! Edge detection: turn a fair-value estimate into a trade opportunity.
//!
//! Given the model's YES probability and the market's YES price, the
//! detector picks the side with the larger gross edge, charges round-trip
//! fees, and keeps the opportunity only if the net edge clears the
//! threshold and the model was confident enough.

use vstd::prelude::*;

use vstd::multiset::Multiset;

use crate::estimator::AnalysisResult;
use crate::money::SCALE;

verus! {

#[derive(Debug, Clone, Copy, PartialEq, Eq, Structural)]
pub enum TradeSide {
    Yes,
    No,
}

impl TradeSide {
    /// The order-side word used in trade rows: `YES` or `NO`.
    pub fn label(&self) -> (r: String)
        ensures
            self is Yes ==> r@ == "YES"@,
            self is No ==> r@ == "NO"@,
    {
        match self {
            TradeSide::Yes => String::from_str("YES"),
            TradeSide::No => String::from_str("NO"),
        }
    }
}

/// A detected mispricing, all prices and probabilities in micro-units.
#[derive(Debug, Clone)]
pub struct EdgeOpportunity {
    pub market_id: String,
    pub question: String,
    pub side: TradeSide,
    pub estimated_probability: i64,
    pub market_price: i64,
    pub edge: i64,
    pub net_edge: i64,
    pub confidence: i64,
    pub data_quality: String,
    pub reasoning: String,
    pub analysis_cost: i64,
}

pub struct EdgeDetector {
    pub min_edge_threshold: i64,
    pub min_confidence: i64,
    pub fee_rate: i64,
}

/// The side with the larger gross edge; ties go to YES.
pub open spec fn spec_side(est: int, mkt: int) -> TradeSide {
    if est - mkt >= mkt - est {
        TradeSide::Yes
    } else {
        TradeSide::No
    }
}

/// The gross edge: the larger of the YES and NO edges.
pub open spec fn spec_edge(est: int, mkt: int) -> int {
    if est - mkt >= mkt - est {
        est - mkt
    } else {
        mkt - est
    }
}

/// The edge left after paying the fee twice (entry and exit).
pub open spec fn spec_net_edge(est: int, mkt: int, fee_rate: int) -> int {
    spec_edge(est, mkt) - 2 * fee_rate
}

/// Whether the detector keeps an estimate.
pub open spec fn spec_detects(d: EdgeDetector, est: int, mkt: int, conf: int) -> bool {
    &&& spec_net_edge(est, mkt, d.fee_rate as int) >= d.min_edge_threshold
    &&& conf >= d.min_confidence
}

/// The opportunity a kept analysis becomes: the computed side and
/// edges, every other field echoed from the analysis unchanged.
pub open spec fn spec_opp_of(d: EdgeDetector, a: AnalysisResult) -> EdgeOpportunity {
    EdgeOpportunity {
        market_id: a.market_id,
        question: a.question,
        side: spec_side(a.estimate.probability as int, a.market_yes_price as int),
        estimated_probability: a.estimate.probability,
        market_price: a.market_yes_price,
        edge: spec_edge(a.estimate.probability as int, a.market_yes_price as int) as i64,
        net_edge: spec_net_edge(
            a.estimate.probability as int,
            a.market_yes_price as int,
            d.fee_rate as int,
        ) as i64,
        confidence: a.estimate.confidence,
        data_quality: a.estimate.data_quality,
        reasoning: a.estimate.reasoning,
        analysis_cost: a.total_cost,
    }
}

/// The opportunities of the analyses the detector keeps, in the
/// analyses' order.
pub open spec fn spec_accepted(d: EdgeDetector, s: Seq<AnalysisResult>) -> Seq<EdgeOpportunity>
    decreases s.len(),
{
    if s.len() == 0 {
        Seq::empty()
    } else if spec_detects(
        d,
        s.last().estimate.probability as int,
        s.last().market_yes_price as int,
        s.last().estimate.confidence as int,
    ) {
        spec_accepted(d, s.drop_last()).push(spec_opp_of(d, s.last()))
    } else {
        spec_accepted(d, s.drop_last())
    }
}

impl EdgeDetector {
    /// A detector with the given net-edge threshold and fee rate; the
    /// confidence floor defaults to one half.
    pub fn new(min_edge_threshold: i64, fee_rate: i64) -> (r: EdgeDetector)
        ensures
            r.min_edge_threshold == min_edge_threshold,
            r.fee_rate == fee_rate,
            r.min_confidence == SCALE / 2,
    {
        EdgeDetector { min_edge_threshold, min_confidence: SCALE / 2, fee_rate }
    }

    /// Keep the analysis as an opportunity exactly when its net edge clears
    /// the threshold and the confidence clears the floor; the side is the
    /// one with the larger gross edge, YES on a tie.
    pub fn detect(&self, analysis: &AnalysisResult) -> (r: Option<EdgeOpportunity>)
        requires
            0 <= analysis.estimate.probability <= SCALE,
            0 <= analysis.market_yes_price <= SCALE,
            0 <= self.fee_rate <= SCALE,
            -SCALE <= self.min_edge_threshold <= SCALE,
        ensures
            r == (if spec_detects(
                *self,
                analysis.estimate.probability as int,
                analysis.market_yes_price as int,
                analysis.estimate.confidence as int,
            ) {
                Some(spec_opp_of(*self, *analysis))
            } else {
                None::<EdgeOpportunity>
            }),
    {
        let est = analysis.estimate.probability;
        let mkt = analysis.market_yes_price;
        let yes_edge = est - mkt;
        let no_edge = mkt - est;
        let (side, edge) = if yes_edge >= no_edge {
            (TradeSide::Yes, yes_edge)
        } else {
            (TradeSide::No, no_edge)
        };
        let net_edge = edge - 2 * self.fee_rate;
        if net_edge < self.min_edge_threshold {
            return None;
        }
        if analysis.estimate.confidence < self.min_confidence {
            return None;
        }
        let opp = EdgeOpportunity {
            market_id: analysis.market_id.clone(),
            question: analysis.question.clone(),
            side,
            estimated_probability: est,
            market_price: mkt,
            edge,
            net_edge,
            confidence: analysis.estimate.confidence,
            data_quality: analysis.estimate.data_quality.clone(),
            reasoning: analysis.estimate.reasoning.clone(),
            analysis_cost: analysis.total_cost,
        };
        proof {
            assert(opp == spec_opp_of(*self, *analysis));
        }
        Some(opp)
    }

    /// Detect over a batch and hand the kept opportunities back sorted by
    /// net edge, largest first.
    pub fn detect_batch(&self, analyses: &Vec<AnalysisResult>) -> (r: Vec<EdgeOpportunity>)
        requires
            0 <= self.fee_rate <= SCALE,
            -SCALE <= self.min_edge_threshold <= SCALE,
            forall|i: int|
                0 <= i < analyses@.len() ==> {
                    &&& 0 <= (#[trigger] analyses@[i]).estimate.probability <= SCALE
                    &&& 0 <= analyses@[i].market_yes_price <= SCALE
                },
        ensures
            sorted_desc(r@),
            r@.len() <= analyses@.len(),
            r@.to_multiset() == spec_accepted(*self, analyses@).to_multiset(),
            r@.len() == spec_accepted(*self, analyses@).len(),
            forall|i: int|
                0 <= i < r@.len() ==> spec_detects(
                    *self,
                    (#[trigger] r@[i]).estimated_probability as int,
                    r@[i].market_price as int,
                    r@[i].confidence as int,
                ),
    {
        let mut kept: Vec<EdgeOpportunity> = Vec::new();
        let n = analyses.len();
        let mut i: usize = 0;
        proof {
            assert(analyses@.subrange(0, 0) =~= Seq::<AnalysisResult>::empty());
            assert(kept@ =~= spec_accepted(*self, analyses@.subrange(0, 0)));
        }
        while i < n
            invariant
                0 <= i <= n,
                n == analyses@.len(),
                kept@.len() <= i,
                0 <= self.fee_rate <= SCALE,
                -SCALE <= self.min_edge_threshold <= SCALE,
                kept@ == spec_accepted(*self, analyses@.subrange(0, i as int)),
                forall|k: int|
                    0 <= k < n ==> {
                        &&& 0 <= (#[trigger] analyses@[k]).estimate.probability <= SCALE
                        &&& 0 <= analyses@[k].market_yes_price <= SCALE
                    },
                forall|k: int|
                    0 <= k < kept@.len() ==> spec_detects(
                        *self,
                        (#[trigger] kept@[k]).estimated_probability as int,
                        kept@[k].market_price as int,
                        kept@[k].confidence as int,
                    ),
            decreases n - i,
        {
            proof {
                assert(analyses@.subrange(0, i + 1).drop_last() =~= analyses@.subrange(
                    0,
                    i as int,
                ));
                assert(analyses@.subrange(0, i + 1).last() == analyses@[i as int]);
            }
            match self.detect(&analyses[i]) {
                Some(opp) => {
                    kept.push(opp);
                }
                None => {}
            }
            i += 1;
        }
        proof {
            assert(analyses@.subrange(0, n as int) =~= analyses@);
        }
        let sorted = sort_by_net_edge_desc(kept);
        proof {
            broadcast use vstd::seq_lib::group_to_multiset_ensures;

            assert forall|i: int| 0 <= i < sorted@.len() implies spec_detects(
                *self,
                (#[trigger] sorted@[i]).estimated_probability as int,
                sorted@[i].market_price as int,
                sorted@[i].confidence as int,
            ) by {
                assert(sorted@.to_multiset().count(sorted@[i]) > 0);
                assert(kept@.contains(sorted@[i]));
                let k = choose|k: int| 0 <= k < kept@.len() && kept@[k] == sorted@[i];
                assert(spec_detects(
                    *self,
                    kept@[k].estimated_probability as int,
                    kept@[k].market_price as int,
                    kept@[k].confidence as int,
                ));
            }
        }
        sorted
    }
}

/// A descending run of net edges.
pub open spec fn sorted_desc(s: Seq<EdgeOpportunity>) -> bool {
    forall|a: int| 0 <= a < s.len() - 1 ==> (#[trigger] s[a]).net_edge >= s[a + 1].net_edge
}

/// Insert one opportunity into a descending run, keeping it descending.
#[verifier::rlimit(100)]
fn insert_sorted(out: &mut Vec<EdgeOpportunity>, x: EdgeOpportunity)
    requires
        sorted_desc(old(out)@),
    ensures
        sorted_desc(final(out)@),
        final(out)@.to_multiset() == old(out)@.to_multiset().insert(x),
        final(out)@.len() == old(out)@.len() + 1,
{
    // Find the insertion point: after every element with net edge >= x's.
    let mut j: usize = 0;
    while j < out.len() && out[j].net_edge >= x.net_edge
        invariant
            0 <= j <= out@.len(),
            forall|a: int| 0 <= a < j ==> (#[trigger] out@[a]).net_edge >= x.net_edge,
            out@ == old(out)@,
        decreases out@.len() - j,
    {
        j += 1;
    }
    let ghost old_out = out@;
    out.insert(j, x);
    proof {
        lemma_insert_keeps_sorted(old_out, j as int, x);
        lemma_insert_multiset(old_out, j as int, x);
    }
}

/// Insertion sort on net edge, descending. Keeps exactly the given
/// opportunities (as a multiset).
#[verifier::rlimit(100)]
fn sort_by_net_edge_desc(input: Vec<EdgeOpportunity>) -> (r: Vec<EdgeOpportunity>)
    ensures
        sorted_desc(r@),
        r@.to_multiset() == input@.to_multiset(),
        r@.len() == input@.len(),
{
    let mut out: Vec<EdgeOpportunity> = Vec::new();
    let mut rest = input;
    let ghost whole = rest@;
    proof {
        broadcast use vstd::seq_lib::group_to_multiset_ensures;

        assert(out@.to_multiset().add(rest@.to_multiset()) =~= rest@.to_multiset());
    }
    while rest.len() > 0
        invariant
            out@.len() + rest@.len() == whole.len(),
            sorted_desc(out@),
            out@.to_multiset().add(rest@.to_multiset()) == whole.to_multiset(),
        decreases rest@.len(),
    {
        let ghost rest_before = rest@;
        let ghost out_before = out@;
        let x = match rest.pop() {
            Some(x) => x,
            None => {
                proof {
                    assert(false);
                }
                return out;
            }
        };
        insert_sorted(&mut out, x);
        proof {
            lemma_sort_step_multiset(out_before, rest_before, rest@, x, whole, out@);
        }
    }
    proof {
        broadcast use vstd::seq_lib::group_to_multiset_ensures;

        assert(rest@.to_multiset() =~= Multiset::<EdgeOpportunity>::empty()) by {
            assert(rest@ =~= Seq::<EdgeOpportunity>::empty());
        }
        assert(out@.to_multiset() =~= out@.to_multiset().add(rest@.to_multiset()));
    }
    out
}

/// Moving the popped element into the sorted side keeps the combined
/// multiset what it was.
proof fn lemma_sort_step_multiset(
    old_out: Seq<EdgeOpportunity>,
    rest_before: Seq<EdgeOpportunity>,
    rest_after: Seq<EdgeOpportunity>,
    x: EdgeOpportunity,
    whole: Seq<EdgeOpportunity>,
    new_out: Seq<EdgeOpportunity>,
)
    requires
        rest_before.len() > 0,
        x == rest_before.last(),
        rest_after == rest_before.subrange(0, rest_before.len() - 1),
        new_out.to_multiset() == old_out.to_multiset().insert(x),
        old_out.to_multiset().add(rest_before.to_multiset()) == whole.to_multiset(),
    ensures
        new_out.to_multiset().add(rest_after.to_multiset()) == whole.to_multiset(),
{
    broadcast use vstd::seq_lib::group_to_multiset_ensures;

    assert(rest_after.push(x) =~= rest_before);
    assert(rest_before.to_multiset() =~= rest_after.to_multiset().insert(x));
    assert(old_out.to_multiset().insert(x).add(rest_after.to_multiset())
        =~= old_out.to_multiset().add(rest_after.to_multiset().insert(x)));
}

/// Inserting at the point found by the scan keeps the run descending.
#[verifier::rlimit(100)]
proof fn lemma_insert_keeps_sorted(s: Seq<EdgeOpportunity>, j: int, x: EdgeOpportunity)
    requires
        sorted_desc(s),
        0 <= j <= s.len(),
        forall|a: int| 0 <= a < j ==> (#[trigger] s[a]).net_edge >= x.net_edge,
        j < s.len() ==> s[j].net_edge < x.net_edge,
    ensures
        sorted_desc(s.insert(j, x)),
{
    let t = s.insert(j, x);
    assert forall|a: int| 0 <= a < t.len() - 1 implies (#[trigger] t[a]).net_edge >= t[a
        + 1].net_edge by {
        if a < j - 1 {
            assert(t[a] == s[a] && t[a + 1] == s[a + 1]);
        } else if a == j - 1 {
            assert(t[a] == s[a] && t[a + 1] == x);
        } else if a == j {
            assert(t[a] == x && t[a + 1] == s[a]);
        } else {
            assert(t[a] == s[a - 1] && t[a + 1] == s[a]);
        }
    }
}

proof fn lemma_insert_multiset(s: Seq<EdgeOpportunity>, j: int, x: EdgeOpportunity)
    requires
        0 <= j <= s.len(),
    ensures
        s.insert(j, x).to_multiset() == s.to_multiset().insert(x),
{
    broadcast use vstd::seq_lib::group_to_multiset_ensures;

    let left = s.subrange(0, j);
    let right = s.subrange(j, s.len() as int);
    assert(s.insert(j, x) =~= left.push(x) + right);
    vstd::seq_lib::lemma_multiset_commutative(left.push(x), right);
    vstd::seq_lib::lemma_multiset_commutative(left, right);
    assert(left + right =~= s);
    assert(left.push(x).to_multiset() =~= left.to_multiset().insert(x));
    assert(left.to_multiset().insert(x).add(right.to_multiset()) =~= left.to_multiset().add(
        right.to_multiset(),
    ).insert(x));
}

} // verus!
