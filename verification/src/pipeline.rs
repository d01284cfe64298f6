//! The recommendation pipeline: anchor and raw comps in, outcome out.
//!
//! The anchor's price text is parsed to cents; an absent, unparseable or
//! zero price short-circuits to [`PipelineOutcome::NoPrice`].  The
//! anchor's condition, or the placeholder `"<none>"` when it is absent,
//! keys the comp filter; the substitution happens on the anchor side
//! only, so a comp with an absent condition never matches, while a comp
//! whose condition is literally `"<none>"` matches a condition-less
//! anchor.  The asymmetry is deliberate and pinned by the contracts.
//! The filtered comps feed the median pricer.  The pipeline is pure: the
//! outcome is a function of the anchor and the comps alone.

use vstd::prelude::*;
use crate::items::{FilteredComp, Item, ItemSummary, PipelineOutcome, MAX_PRICE_CENTS};
use crate::price_text::{parse_price_cents, parse_price_spec, lemma_parse_price_bound};
use crate::comp_filter::{
    comp_filter_spec, comp_passes, comp_price_spec, filter_comps, lemma_comp_filter_sorted,
    lemma_comp_filter_sound, sorted_by_price,
};
use crate::median::{recommend, recommend_spec, sorted_prices};

verus! {

/// The anchor's price in cents; absent or unparseable text counts as zero.
pub open spec fn anchor_price_spec(anchor: Item) -> int {
    match anchor.price {
        Some(a) => match a.value {
            Some(v) => match parse_price_spec(v@) {
                Some(c) => c as int,
                None => 0,
            },
            None => 0,
        },
        None => 0,
    }
}

/// The condition text the filter compares against: the anchor's own, or
/// the placeholder `"<none>"` when it has none.
pub open spec fn anchor_condition_key(anchor: Item) -> Seq<char> {
    match anchor.condition {
        Some(c) => c@,
        None => "<none>"@,
    }
}

/// The prices of a filtered comp sequence, in the same order.
pub open spec fn prices_spec(filtered: Seq<FilteredComp>) -> Seq<u64> {
    filtered.map_values(|f: FilteredComp| f.price_cents)
}

/// Everything [`run`] promises of its outcome.  The outcome is pinned by
/// the anchor and the comp sequence alone.
pub open spec fn run_post(anchor: Item, comps: Seq<ItemSummary>, o: PipelineOutcome) -> bool {
    let cents = anchor_price_spec(anchor);
    if cents == 0 {
        o == PipelineOutcome::NoPrice
    } else {
        let key = anchor_condition_key(anchor);
        let filtered = comp_filter_spec(key, cents, comps);
        if filtered.len() == 0 {
            match o {
                PipelineOutcome::NoComps { condition, band_lower_x10, band_upper_x10 } => {
                    &&& condition == anchor.condition
                    &&& band_lower_x10 == 7 * cents
                    &&& band_upper_x10 == 13 * cents
                },
                _ => false,
            }
        } else {
            match o {
                PipelineOutcome::Recommendation { rec, comps: out } => {
                    &&& out@ == filtered
                    &&& Some(rec) == recommend_spec(prices_spec(filtered))
                },
                _ => false,
            }
        }
    }
}

fn prices_of(filtered: &Vec<FilteredComp>) -> (r: Vec<u64>)
    ensures
        r@ == prices_spec(filtered@),
{
    let mut r: Vec<u64> = Vec::new();
    let n = filtered.len();
    let mut i: usize = 0;
    while i < n
        invariant
            0 <= i <= n == filtered@.len(),
            r@ == prices_spec(filtered@.subrange(0, i as int)),
        decreases n - i,
    {
        r.push(filtered[i].price_cents);
        proof {
            assert(filtered@.subrange(0, i as int + 1).drop_last() =~= filtered@.subrange(
                0,
                i as int,
            ));
            assert(r@ =~= prices_spec(filtered@.subrange(0, i as int + 1)));
        }
        i = i + 1;
    }
    proof {
        assert(filtered@.subrange(0, n as int) =~= filtered@);
    }
    r
}

/// Runs the whole pipeline on one anchor and its raw comps.
///
/// The outcome is `NoPrice` exactly when the anchor has no parseable
/// positive price; `NoComps`, with the condition and the exact band used,
/// when no comp passes the filter; otherwise the three price points with
/// the filtered comps in ascending price order.
pub fn run(anchor: &Item, raw_comps: &Vec<ItemSummary>) -> (o: PipelineOutcome)
    ensures
        run_post(*anchor, raw_comps@, o),
{
    let cents: u64 = match &anchor.price {
        Some(a) => match &a.value {
            Some(v) => match parse_price_cents(v.as_str()) {
                Some(c) => c,
                None => 0,
            },
            None => 0,
        },
        None => 0,
    };
    proof {
        assert(cents == anchor_price_spec(*anchor));
        match &anchor.price {
            Some(a) => match &a.value {
                Some(v) => lemma_parse_price_bound(v@),
                None => {},
            },
            None => {},
        }
        assert(cents <= MAX_PRICE_CENTS);
    }
    if cents == 0 {
        return PipelineOutcome::NoPrice;
    }
    let key: String = match &anchor.condition {
        Some(c) => c.clone(),
        None => "<none>".to_owned(),
    };
    proof {
        assert(key@ == anchor_condition_key(*anchor));
    }
    let filtered = filter_comps(&key, cents, raw_comps);
    proof {
        lemma_comp_filter_sorted(key@, cents as int, raw_comps@);
        lemma_comp_filter_sound(key@, cents as int, raw_comps@);
    }
    if filtered.len() == 0 {
        let condition: Option<String> = match &anchor.condition {
            Some(c) => Some(c.clone()),
            None => None,
        };
        PipelineOutcome::NoComps {
            condition,
            band_lower_x10: 7 * cents,
            band_upper_x10: 13 * cents,
        }
    } else {
        let prices = prices_of(&filtered);
        proof {
            assert(sorted_prices(prices@)) by {
                assert(sorted_by_price(filtered@));
                assert(forall|i: int|
                    0 <= i < filtered@.len() ==> prices@[i] == filtered@[i].price_cents);
            }
            assert(forall|i: int| 0 <= i < prices@.len() ==> prices@[i] <= MAX_PRICE_CENTS);
        }
        let rec_opt = recommend(&prices);
        match rec_opt {
            Some(rec) => PipelineOutcome::Recommendation { rec, comps: filtered },
            None => {
                // unreachable: the price sequence is as long as the
                // non-empty filtered sequence
                proof {
                    assert(prices@.len() == filtered@.len());
                    assert(false);
                }
                PipelineOutcome::NoPrice
            },
        }
    }
}

/// Two outcomes that both satisfy [`run_post`] for the same inputs agree
/// in every observable respect: same variant, equal price points, equal
/// diagnostics, and the same filtered comps in the same order.  Running
/// the pipeline twice on identical inputs therefore yields identical
/// recommendations and identical comp orderings.
pub proof fn lemma_run_deterministic(
    anchor: Item,
    comps: Seq<ItemSummary>,
    o1: PipelineOutcome,
    o2: PipelineOutcome,
)
    requires
        run_post(anchor, comps, o1),
        run_post(anchor, comps, o2),
    ensures
        match (o1, o2) {
            (PipelineOutcome::NoPrice, PipelineOutcome::NoPrice) => true,
            (
                PipelineOutcome::NoComps { condition: c1, band_lower_x10: l1, band_upper_x10: u1 },
                PipelineOutcome::NoComps { condition: c2, band_lower_x10: l2, band_upper_x10: u2 },
            ) => c1 == c2 && l1 == l2 && u1 == u2,
            (
                PipelineOutcome::Recommendation { rec: r1, comps: f1 },
                PipelineOutcome::Recommendation { rec: r2, comps: f2 },
            ) => r1 == r2 && f1@ == f2@,
            _ => false,
        },
{
}

} // verus!
