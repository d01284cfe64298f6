//! Selecting the comparable listings that inform the price.
//!
//! A comp passes the filter when its condition text equals the anchor's
//! condition key exactly and its parsed price lies in the closed band
//! `[0.7 * anchor, 1.3 * anchor]`; the band check is exact, by comparing
//! `10 * price` against `7 * anchor` and `13 * anchor` in cents.  The
//! survivors come out in ascending price order, comps of equal price in
//! input order.

use vstd::prelude::*;
use crate::items::{FilteredComp, ItemSummary, MAX_PRICE_CENTS};
use crate::price_text::{parse_price_cents, parse_price_spec, lemma_parse_price_bound};

verus! {

/// Whether a comp's condition text matches the anchor's condition key.
/// A comp with no condition never matches.
pub open spec fn condition_matches(anchor_key: Seq<char>, comp_condition: Option<String>) -> bool {
    match comp_condition {
        Some(c) => c@ == anchor_key,
        None => false,
    }
}

/// The comp's price in cents, if its price text parses.
pub open spec fn comp_price_spec(c: ItemSummary) -> Option<u64> {
    match c.price {
        Some(a) => match a.value {
            Some(v) => parse_price_spec(v@),
            None => None,
        },
        None => None,
    }
}

/// Membership of the closed band `[0.7 * anchor, 1.3 * anchor]`, stated
/// exactly over integers.
pub open spec fn in_band(price: int, anchor: int) -> bool {
    7 * anchor <= 10 * price && 10 * price <= 13 * anchor
}

/// Whether a comp passes the filter for the given anchor.
pub open spec fn comp_passes(anchor_key: Seq<char>, anchor_cents: int, c: ItemSummary) -> bool {
    &&& condition_matches(anchor_key, c.condition)
    &&& comp_price_spec(c) is Some
    &&& in_band(comp_price_spec(c).unwrap() as int, anchor_cents)
}

/// The passing comps, paired with their prices, in input order.
pub open spec fn matching_comps(
    anchor_key: Seq<char>,
    anchor_cents: int,
    comps: Seq<ItemSummary>,
) -> Seq<FilteredComp>
    decreases comps.len(),
{
    if comps.len() == 0 {
        Seq::empty()
    } else {
        let rest = matching_comps(anchor_key, anchor_cents, comps.drop_last());
        if comp_passes(anchor_key, anchor_cents, comps.last()) {
            rest.push(
                FilteredComp {
                    price_cents: comp_price_spec(comps.last()).unwrap(),
                    comp: comps.last(),
                },
            )
        } else {
            rest
        }
    }
}

/// `x` inserted after every element whose price is no larger than its own.
pub open spec fn insert_by_price(s: Seq<FilteredComp>, x: FilteredComp) -> Seq<FilteredComp>
    decreases s.len(),
{
    if s.len() == 0 {
        seq![x]
    } else if x.price_cents < s.first().price_cents {
        seq![x] + s
    } else {
        seq![s.first()] + insert_by_price(s.drop_first(), x)
    }
}

/// Stable insertion sort by price, taking the elements in order.
pub open spec fn sort_by_price(s: Seq<FilteredComp>) -> Seq<FilteredComp>
    decreases s.len(),
{
    if s.len() == 0 {
        Seq::empty()
    } else {
        insert_by_price(sort_by_price(s.drop_last()), s.last())
    }
}

/// What the filter returns: the passing comps, sorted ascending by price.
pub open spec fn comp_filter_spec(
    anchor_key: Seq<char>,
    anchor_cents: int,
    comps: Seq<ItemSummary>,
) -> Seq<FilteredComp> {
    sort_by_price(matching_comps(anchor_key, anchor_cents, comps))
}

pub open spec fn sorted_by_price(s: Seq<FilteredComp>) -> bool {
    forall|i: int, j: int| 0 <= i < j < s.len() ==> s[i].price_cents <= s[j].price_cents
}

proof fn lemma_insert_by_price_sorted(s: Seq<FilteredComp>, x: FilteredComp)
    requires
        sorted_by_price(s),
    ensures
        sorted_by_price(insert_by_price(s, x)),
        insert_by_price(s, x).len() == s.len() + 1,
    decreases s.len(),
{
    if s.len() == 0 {
    } else if x.price_cents < s.first().price_cents {
        let t = seq![x] + s;
        assert forall|i: int, j: int| 0 <= i < j < t.len() implies t[i].price_cents
            <= t[j].price_cents by {
            if i > 0 {
                assert(s[i - 1].price_cents <= s[j - 1].price_cents);
            } else {
                if j > 1 {
                    assert(s[0].price_cents <= s[j - 1].price_cents);
                }
            }
        }
    } else {
        let d = s.drop_first();
        assert(sorted_by_price(d)) by {
            assert forall|i: int, j: int| 0 <= i < j < d.len() implies d[i].price_cents
                <= d[j].price_cents by {
                assert(s[i + 1].price_cents <= s[j + 1].price_cents);
            }
        }
        lemma_insert_by_price_sorted(d, x);
        let r = insert_by_price(d, x);
        let t = seq![s.first()] + r;
        // every element of r is either x or an element of d, so the head stays least
        lemma_insert_by_price_elems(d, x);
        assert forall|i: int, j: int| 0 <= i < j < t.len() implies t[i].price_cents
            <= t[j].price_cents by {
            if i == 0 {
                assert(r.contains(r[j - 1]));
                if r[j - 1] == x {
                    assert(s.first().price_cents <= x.price_cents);
                } else {
                    let k = choose|k: int| 0 <= k < d.len() && d[k] == r[j - 1];
                    assert(s[0].price_cents <= s[k + 1].price_cents);
                }
            } else {
                assert(r[i - 1].price_cents <= r[j - 1].price_cents);
            }
        }
    }
}

/// Every element of the insertion's result is `x` or one of `s`.
proof fn lemma_insert_by_price_elems(s: Seq<FilteredComp>, x: FilteredComp)
    ensures
        insert_by_price(s, x).len() == s.len() + 1,
        forall|j: int|
            0 <= j < insert_by_price(s, x).len() ==> (insert_by_price(s, x)[j] == x || s.contains(
                insert_by_price(s, x)[j],
            )),
    decreases s.len(),
{
    if s.len() == 0 {
    } else if x.price_cents < s.first().price_cents {
    } else {
        let d = s.drop_first();
        lemma_insert_by_price_elems(d, x);
        let r = insert_by_price(d, x);
        let t = seq![s.first()] + r;
        assert forall|j: int| 0 <= j < t.len() implies (t[j] == x || s.contains(t[j])) by {
            if j == 0 {
                assert(s[0] == t[0]);
            } else {
                if r[j - 1] == x {
                } else {
                    let k = choose|k: int| 0 <= k < d.len() && d[k] == r[j - 1];
                    assert(s[k + 1] == t[j]);
                }
            }
        }
    }
}

/// Sorting neither invents nor loses elements.
proof fn lemma_sort_by_price_elems(s: Seq<FilteredComp>)
    ensures
        sort_by_price(s).len() == s.len(),
        forall|j: int|
            0 <= j < sort_by_price(s).len() ==> s.contains(#[trigger] sort_by_price(s)[j]),
    decreases s.len(),
{
    if s.len() > 0 {
        let d = s.drop_last();
        lemma_sort_by_price_elems(d);
        lemma_insert_by_price_elems(sort_by_price(d), s.last());
        let t = sort_by_price(s);
        assert forall|j: int| 0 <= j < t.len() implies s.contains(t[j]) by {
            if t[j] == s.last() {
                assert(s[s.len() - 1] == t[j]);
            } else {
                assert(sort_by_price(d).contains(t[j]));
                let k = choose|k: int| 0 <= k < sort_by_price(d).len() && sort_by_price(d)[k]
                    == t[j];
                assert(d.contains(t[j]));
                let m = choose|m: int| 0 <= m < d.len() && d[m] == t[j];
                assert(s[m] == t[j]);
            }
        }
    }
}

/// Every matching comp comes from the input and passes the filter, with
/// the price its text parses to.
proof fn lemma_matching_comps_sound(
    anchor_key: Seq<char>,
    anchor_cents: int,
    comps: Seq<ItemSummary>,
)
    ensures
        forall|j: int|
            0 <= j < matching_comps(anchor_key, anchor_cents, comps).len() ==> {
                let f = #[trigger] matching_comps(anchor_key, anchor_cents, comps)[j];
                comps.contains(f.comp) && comp_passes(anchor_key, anchor_cents, f.comp)
                    && comp_price_spec(f.comp) == Some(f.price_cents)
            },
    decreases comps.len(),
{
    if comps.len() > 0 {
        let d = comps.drop_last();
        lemma_matching_comps_sound(anchor_key, anchor_cents, d);
        let m = matching_comps(anchor_key, anchor_cents, comps);
        assert forall|j: int| #![trigger m[j]] 0 <= j < m.len() implies {
            let f = m[j];
            comps.contains(f.comp) && comp_passes(anchor_key, anchor_cents, f.comp)
                && comp_price_spec(f.comp) == Some(f.price_cents)
        } by {
            let md = matching_comps(anchor_key, anchor_cents, d);
            if j < md.len() {
                assert(d.contains(md[j].comp));
                let k = choose|k: int| 0 <= k < d.len() && d[k] == md[j].comp;
                assert(comps[k] == md[j].comp);
            } else {
                assert(comps[comps.len() - 1] == m[j].comp);
            }
        }
    }
}

/// The filter's output is a subset of its input: each element passes the
/// condition and band checks, carries the price its text parses to, and
/// comes from the input sequence.  Prices stay within the supported range.
pub proof fn lemma_comp_filter_sound(
    anchor_key: Seq<char>,
    anchor_cents: int,
    comps: Seq<ItemSummary>,
)
    ensures
        forall|j: int|
            0 <= j < comp_filter_spec(anchor_key, anchor_cents, comps).len() ==> {
                let f = #[trigger] comp_filter_spec(anchor_key, anchor_cents, comps)[j];
                comps.contains(f.comp) && comp_passes(anchor_key, anchor_cents, f.comp)
                    && comp_price_spec(f.comp) == Some(f.price_cents) && f.price_cents
                    <= MAX_PRICE_CENTS
            },
{
    let m = matching_comps(anchor_key, anchor_cents, comps);
    let out = comp_filter_spec(anchor_key, anchor_cents, comps);
    lemma_matching_comps_sound(anchor_key, anchor_cents, comps);
    lemma_sort_by_price_elems(m);
    assert forall|j: int| #![trigger out[j]] 0 <= j < out.len() implies {
        let f = out[j];
        comps.contains(f.comp) && comp_passes(anchor_key, anchor_cents, f.comp) && comp_price_spec(
            f.comp,
        ) == Some(f.price_cents) && f.price_cents <= MAX_PRICE_CENTS
    } by {
        assert(m.contains(out[j]));
        let k = choose|k: int| 0 <= k < m.len() && m[k] == out[j];
        match out[j].comp.price {
            Some(a) => match a.value {
                Some(v) => {
                    lemma_parse_price_bound(v@);
                },
                None => {},
            },
            None => {},
        }
    }
}

proof fn lemma_cons_to_multiset(a: FilteredComp, t: Seq<FilteredComp>)
    ensures
        (seq![a] + t).to_multiset() == t.to_multiset().insert(a),
{
    vstd::seq_lib::lemma_seq_union_to_multiset_commutative(seq![a], t);
    assert(t + seq![a] =~= t.push(a));
    vstd::seq_lib::to_multiset_build(t, a);
    assert((seq![a] + t).to_multiset() =~= t.to_multiset().insert(a));
}

proof fn lemma_insert_by_price_multiset(s: Seq<FilteredComp>, x: FilteredComp)
    ensures
        insert_by_price(s, x).to_multiset() == s.to_multiset().insert(x),
    decreases s.len(),
{
    broadcast use vstd::multiset::group_multiset_axioms;

    if s.len() == 0 {
        assert(s =~= Seq::<FilteredComp>::empty());
        assert(seq![x] =~= s.push(x));
        vstd::seq_lib::to_multiset_build(s, x);
        assert(insert_by_price(s, x) == seq![x]);
    } else if x.price_cents < s.first().price_cents {
        lemma_cons_to_multiset(x, s);
        assert(insert_by_price(s, x) == seq![x] + s);
    } else {
        let d = s.drop_first();
        lemma_insert_by_price_multiset(d, x);
        lemma_cons_to_multiset(s.first(), insert_by_price(d, x));
        lemma_cons_to_multiset(s.first(), d);
        assert(seq![s.first()] + d =~= s);
        assert(insert_by_price(s, x) == seq![s.first()] + insert_by_price(d, x));
        assert(insert_by_price(s, x).to_multiset() == insert_by_price(d, x).to_multiset().insert(
            s.first(),
        ));
        assert(insert_by_price(s, x).to_multiset() == d.to_multiset().insert(x).insert(s.first()));
        assert(s.to_multiset() == d.to_multiset().insert(s.first()));
        assert(d.to_multiset().insert(x).insert(s.first()) =~= d.to_multiset().insert(
            s.first(),
        ).insert(x));
    }
}

proof fn lemma_sort_by_price_multiset(s: Seq<FilteredComp>)
    ensures
        sort_by_price(s).to_multiset() == s.to_multiset(),
    decreases s.len(),
{
    if s.len() > 0 {
        let d = s.drop_last();
        lemma_sort_by_price_multiset(d);
        lemma_insert_by_price_multiset(sort_by_price(d), s.last());
        vstd::seq_lib::to_multiset_build(d, s.last());
        assert(d.push(s.last()) =~= s);
        assert(sort_by_price(s) == insert_by_price(sort_by_price(d), s.last()));
        assert(sort_by_price(s).to_multiset() == sort_by_price(d).to_multiset().insert(s.last()));
        assert(sort_by_price(s).to_multiset() == d.to_multiset().insert(s.last()));
        assert(d.push(s.last()).to_multiset() == d.to_multiset().insert(s.last()));
    } else {
        assert(s =~= Seq::<FilteredComp>::empty());
    }
}

/// The filter only reorders: its output holds exactly the comps that
/// pass, with their multiplicity — sorting neither drops nor duplicates.
pub proof fn lemma_comp_filter_content(
    anchor_key: Seq<char>,
    anchor_cents: int,
    comps: Seq<ItemSummary>,
)
    ensures
        comp_filter_spec(anchor_key, anchor_cents, comps).to_multiset() == matching_comps(
            anchor_key,
            anchor_cents,
            comps,
        ).to_multiset(),
{
    lemma_sort_by_price_multiset(matching_comps(anchor_key, anchor_cents, comps));
}

/// The filter's output is sorted ascending by price.
pub proof fn lemma_comp_filter_sorted(
    anchor_key: Seq<char>,
    anchor_cents: int,
    comps: Seq<ItemSummary>,
)
    ensures
        sorted_by_price(comp_filter_spec(anchor_key, anchor_cents, comps)),
{
    lemma_sort_by_price_sorted(matching_comps(anchor_key, anchor_cents, comps));
}

proof fn lemma_sort_by_price_sorted(s: Seq<FilteredComp>)
    ensures
        sorted_by_price(sort_by_price(s)),
    decreases s.len(),
{
    if s.len() > 0 {
        lemma_sort_by_price_sorted(s.drop_last());
        lemma_insert_by_price_sorted(sort_by_price(s.drop_last()), s.last());
    }
}

/// Inserting at the scanned position is exactly [`insert_by_price`].
proof fn lemma_insert_by_price_at(s: Seq<FilteredComp>, x: FilteredComp, i: int)
    requires
        0 <= i <= s.len(),
        forall|j: int| 0 <= j < i ==> s[j].price_cents <= x.price_cents,
        i < s.len() ==> x.price_cents < s[i].price_cents,
    ensures
        insert_by_price(s, x) == s.insert(i, x),
    decreases i,
{
    if i == 0 {
        if s.len() == 0 {
            assert(insert_by_price(s, x) =~= s.insert(0, x));
        } else {
            assert(x.price_cents < s.first().price_cents);
            assert(insert_by_price(s, x) =~= s.insert(0, x));
        }
    } else {
        let d = s.drop_first();
        assert(s[0].price_cents <= x.price_cents);
        lemma_insert_by_price_at(d, x, i - 1);
        assert(seq![s.first()] + insert_by_price(d, x) =~= s.insert(i, x));
    }
}

/// Selects the comps whose condition equals `anchor_condition` exactly and
/// whose parsed price lies within ±30% of `anchor_price_cents`, returning
/// them in ascending price order (equal prices keep their input order).
pub fn filter_comps(
    anchor_condition: &String,
    anchor_price_cents: u64,
    comps: &Vec<ItemSummary>,
) -> (out: Vec<FilteredComp>)
    requires
        0 < anchor_price_cents <= MAX_PRICE_CENTS,
    ensures
        out@ == comp_filter_spec(anchor_condition@, anchor_price_cents as int, comps@),
{
    let ghost key = anchor_condition@;
    let ghost anchor = anchor_price_cents as int;
    let mut out: Vec<FilteredComp> = Vec::new();
    let n = comps.len();
    let mut i: usize = 0;
    while i < n
        invariant
            0 <= i <= n == comps@.len(),
            0 < anchor_price_cents <= MAX_PRICE_CENTS,
            key == anchor_condition@,
            anchor == anchor_price_cents as int,
            out@ == sort_by_price(matching_comps(key, anchor, comps@.subrange(0, i as int))),
        decreases n - i,
    {
        let ghost prefix = comps@.subrange(0, i as int);
        let c = &comps[i];
        proof {
            assert(comps@.subrange(0, i as int + 1).drop_last() =~= prefix);
            assert(comps@.subrange(0, i as int + 1).last() == comps@[i as int]);
        }
        let parsed: Option<u64> = match &c.price {
            Some(a) => match &a.value {
                Some(v) => parse_price_cents(v.as_str()),
                None => None,
            },
            None => None,
        };
        let cond_ok: bool = match &c.condition {
            Some(cc) => cc.eq(anchor_condition),
            None => false,
        };
        proof {
            assert(parsed == comp_price_spec(comps@[i as int]));
            assert(cond_ok == condition_matches(key, comps@[i as int].condition));
        }
        match parsed {
            Some(p) if cond_ok && 10 * p >= 7 * anchor_price_cents && 10 * p <= 13
                * anchor_price_cents => {
                let fc = FilteredComp { price_cents: p, comp: c.clone() };
                proof {
                    assert(comp_passes(key, anchor, comps@[i as int]));
                    assert(matching_comps(key, anchor, comps@.subrange(0, i as int + 1))
                        == matching_comps(key, anchor, prefix).push(fc));
                }
                let mut idx: usize = 0;
                while idx < out.len() && out[idx].price_cents <= p
                    invariant
                        0 <= idx <= out@.len(),
                        forall|j: int| 0 <= j < idx ==> out@[j].price_cents <= p,
                    decreases out@.len() - idx,
                {
                    idx = idx + 1;
                }
                proof {
                    lemma_insert_by_price_at(out@, fc, idx as int);
                    let m = matching_comps(key, anchor, prefix);
                    let t = matching_comps(key, anchor, comps@.subrange(0, i as int + 1));
                    assert(t.drop_last() =~= m);
                    assert(t.last() == fc);
                    assert(sort_by_price(t) == insert_by_price(sort_by_price(m), fc));
                }
                out.insert(idx, fc);
            },
            _ => {
                proof {
                    assert(!comp_passes(key, anchor, comps@[i as int]));
                    assert(matching_comps(key, anchor, comps@.subrange(0, i as int + 1))
                        == matching_comps(key, anchor, prefix));
                }
            },
        }
        i = i + 1;
    }
    proof {
        assert(comps@.subrange(0, n as int) =~= comps@);
    }
    out
}

} // verus!
