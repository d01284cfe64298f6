//! The median price and the three-tier recommendation derived from it.
//!
//! For a sorted sequence of `n` prices the median is the middle element
//! when `n` is odd and the mean of the two middle elements when `n` is
//! even.  The three price points are 90%, 100% and 110% of the median,
//! each rounded to the nearest cent, halves rounding up.  To stay exact,
//! the computation carries twice the median (`m2`, always an integer in
//! cents) and derives the points as `9*m2/20`, `m2/2` and `11*m2/20`.

use vstd::prelude::*;
use vstd::arithmetic::div_mod::lemma_div_is_ordered;
use crate::items::{PriceRecommendation, MAX_PRICE_CENTS};

verus! {

pub open spec fn sorted_prices(s: Seq<u64>) -> bool {
    forall|i: int, j: int| 0 <= i < j < s.len() ==> s[i] <= s[j]
}

/// Twice the median of a sorted non-empty price sequence; always an
/// integer, whereas the median itself may end in half a cent.
pub open spec fn median_x2(s: Seq<u64>) -> int
    recommends
        s.len() > 0,
{
    if s.len() % 2 == 1 {
        2 * s[s.len() as int / 2]
    } else {
        s[s.len() as int / 2 - 1] + s[s.len() as int / 2]
    }
}

/// The three price points for a given doubled median, rounded to the
/// nearest cent with halves up.
pub open spec fn rec_from_median_x2(m2: int) -> PriceRecommendation {
    PriceRecommendation {
        fast_cents: ((9 * m2 + 10) / 20) as u64,
        market_cents: ((m2 + 1) / 2) as u64,
        patient_cents: ((11 * m2 + 10) / 20) as u64,
    }
}

/// What [`recommend`] returns: absent for an empty sequence, otherwise
/// the three price points derived from the median.
pub open spec fn recommend_spec(s: Seq<u64>) -> Option<PriceRecommendation> {
    if s.len() == 0 {
        None
    } else {
        Some(rec_from_median_x2(median_x2(s)))
    }
}

/// The fast price never exceeds the market price, which never exceeds the
/// patient price, for any non-negative doubled median.
pub proof fn lemma_tiers_ordered(m2: int)
    requires
        0 <= m2 <= 2 * MAX_PRICE_CENTS,
    ensures
        rec_from_median_x2(m2).fast_cents <= rec_from_median_x2(m2).market_cents,
        rec_from_median_x2(m2).market_cents <= rec_from_median_x2(m2).patient_cents,
{
    assert((m2 + 1) / 2 == (10 * m2 + 10) / 20) by (nonlinear_arith)
        requires
            m2 >= 0,
    ;
    lemma_div_is_ordered(9 * m2 + 10, 10 * m2 + 10, 20);
    lemma_div_is_ordered(10 * m2 + 10, 11 * m2 + 10, 20);
    lemma_div_is_ordered(0, 9 * m2 + 10, 20);
    lemma_div_is_ordered(11 * m2 + 10, 11 * (2 * MAX_PRICE_CENTS) + 10, 20);
    assert(0 <= (9 * m2 + 10) / 20 <= (10 * m2 + 10) / 20 <= (11 * m2 + 10) / 20
        <= u64::MAX as int);
}

/// The median of a sorted sequence sits centrally: every element in the
/// lower half is at most the median and every element in the upper half
/// is at least the median.  This is the standard statistical median.
pub proof fn lemma_median_central(s: Seq<u64>)
    requires
        s.len() > 0,
        sorted_prices(s),
    ensures
        forall|i: int| 0 <= i <= (s.len() - 1) / 2 ==> 2 * s[i] <= median_x2(s),
        forall|i: int| s.len() as int / 2 <= i < s.len() ==> 2 * s[i] >= median_x2(s),
{
    let n = s.len() as int;
    if s.len() % 2 == 1 {
        assert forall|i: int| 0 <= i <= (n - 1) / 2 implies 2 * s[i] <= median_x2(s) by {
            if i < n / 2 {
                assert(s[i] <= s[n / 2]);
            }
        }
        assert forall|i: int| n / 2 <= i < n implies 2 * s[i] >= median_x2(s) by {
            if i > n / 2 {
                assert(s[n / 2] <= s[i]);
            }
        }
    } else {
        assert forall|i: int| 0 <= i <= (n - 1) / 2 implies 2 * s[i] <= median_x2(s) by {
            assert(i <= n / 2 - 1);
            if i < n / 2 - 1 {
                assert(s[i] <= s[n / 2 - 1]);
            }
            assert(s[n / 2 - 1] <= s[n / 2]);
        }
        assert forall|i: int| n / 2 <= i < n implies 2 * s[i] >= median_x2(s) by {
            if i > n / 2 {
                assert(s[n / 2] <= s[i]);
            }
            assert(s[n / 2 - 1] <= s[n / 2]);
        }
    }
}

/// Derives the three-tier recommendation from a sorted price sequence:
/// `None` exactly when the sequence is empty, otherwise 90%, 100% and
/// 110% of the median, rounded to the nearest cent with halves up.
pub fn recommend(prices: &Vec<u64>) -> (r: Option<PriceRecommendation>)
    requires
        sorted_prices(prices@),
        forall|i: int| 0 <= i < prices@.len() ==> prices@[i] <= MAX_PRICE_CENTS,
    ensures
        r == recommend_spec(prices@),
        r matches Some(rec) ==> rec.fast_cents <= rec.market_cents <= rec.patient_cents,
{
    let n = prices.len();
    if n == 0 {
        return None;
    }
    let mid = n / 2;
    let m2: u64 = if n % 2 == 1 {
        2 * prices[mid]
    } else {
        prices[mid - 1] + prices[mid]
    };
    proof {
        assert(m2 == median_x2(prices@));
        lemma_tiers_ordered(m2 as int);
    }
    let fast: u64 = (9 * m2 + 10) / 20;
    let market: u64 = (m2 + 1) / 2;
    let patient: u64 = (11 * m2 + 10) / 20;
    Some(PriceRecommendation { fast_cents: fast, market_cents: market, patient_cents: patient })
}

} // verus!
