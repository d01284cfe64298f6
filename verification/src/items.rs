//! The data types that flow through the pricing pipeline.

use vstd::prelude::*;

verus! {

/// The largest price, in cents, that the library handles: just under
/// ten trillion currency units.  Price text whose value is larger is
/// treated as absent, so every stored price fits comfortably inside the
/// integer arithmetic of the band check and the median computation.
pub const MAX_PRICE_CENTS: u64 = 999_999_999_999_999;

/// A monetary amount as the marketplace delivers it: numeric value and
/// currency code, both as optional text.  Only the numeric value is used
/// downstream.
#[allow(non_snake_case)]
#[derive(Debug, PartialEq, Eq)]
pub struct ConvertedAmount {
    pub value: Option<String>,
    pub currency: Option<String>,
}

/// The anchor listing: the reference item whose price seeds the
/// comparison band.
#[allow(non_snake_case)]
#[derive(Debug, PartialEq, Eq)]
pub struct Item {
    pub itemId: Option<String>,
    pub title: Option<String>,
    pub condition: Option<String>,
    pub price: Option<ConvertedAmount>,
    pub itemWebUrl: Option<String>,
}

/// One candidate comparable listing from a keyword search.
#[allow(non_snake_case)]
#[derive(Debug, PartialEq, Eq)]
pub struct ItemSummary {
    pub itemId: Option<String>,
    pub title: Option<String>,
    pub price: Option<ConvertedAmount>,
    pub condition: Option<String>,
    pub itemWebUrl: Option<String>,
}

/// A page of keyword-search results.
#[allow(non_snake_case)]
#[derive(Debug, PartialEq, Eq)]
pub struct SearchResponse {
    pub itemSummaries: Option<Vec<ItemSummary>>,
}

impl SearchResponse {
    /// The comps of one result page; a page without the list is empty.
    pub fn into_summaries(self) -> (r: Vec<ItemSummary>)
        ensures
            self.itemSummaries matches Some(v) ==> r == v,
            self.itemSummaries is None ==> r@ == Seq::<ItemSummary>::empty(),
    {
        match self.itemSummaries {
            Some(v) => v,
            None => Vec::new(),
        }
    }
}

/// A comp that passed filtering, paired with its parsed price in cents.
#[derive(Debug, PartialEq, Eq)]
pub struct FilteredComp {
    pub price_cents: u64,
    pub comp: ItemSummary,
}

/// The three price points, in cents (so already rounded to two decimal
/// places of the currency unit): a fast sale at 90% of the median comp
/// price, the market price at the median, a patient sale at 110%.
#[derive(Debug, PartialEq, Eq, Structural, Clone, Copy)]
pub struct PriceRecommendation {
    pub fast_cents: u64,
    pub market_cents: u64,
    pub patient_cents: u64,
}

/// What one run of the pipeline produced.
#[derive(Debug, PartialEq, Eq)]
pub enum PipelineOutcome {
    /// The anchor has no parseable positive price; nothing was computed.
    NoPrice,
    /// The anchor's price was usable but no comp passed the filter.  The
    /// condition and the price band that were used are reported for
    /// diagnostics; the band bounds are exact, in tenths of a cent.
    NoComps { condition: Option<String>, band_lower_x10: u64, band_upper_x10: u64 },
    /// The normal case: the three price points, and the filtered comps in
    /// ascending price order, ready for export.
    Recommendation { rec: PriceRecommendation, comps: Vec<FilteredComp> },
}

fn clone_opt_string(o: &Option<String>) -> (r: Option<String>)
    ensures
        r == *o,
{
    match o {
        Some(s) => Some(s.clone()),
        None => None,
    }
}

impl Clone for ConvertedAmount {
    fn clone(&self) -> (r: Self)
        ensures
            r == *self,
    {
        ConvertedAmount { value: clone_opt_string(&self.value), currency: clone_opt_string(&self.currency) }
    }
}

fn clone_opt_amount(o: &Option<ConvertedAmount>) -> (r: Option<ConvertedAmount>)
    ensures
        r == *o,
{
    match o {
        Some(a) => Some(a.clone()),
        None => None,
    }
}

impl Clone for Item {
    fn clone(&self) -> (r: Self)
        ensures
            r == *self,
    {
        Item {
            itemId: clone_opt_string(&self.itemId),
            title: clone_opt_string(&self.title),
            condition: clone_opt_string(&self.condition),
            price: clone_opt_amount(&self.price),
            itemWebUrl: clone_opt_string(&self.itemWebUrl),
        }
    }
}

impl Clone for ItemSummary {
    fn clone(&self) -> (r: Self)
        ensures
            r == *self,
    {
        ItemSummary {
            itemId: clone_opt_string(&self.itemId),
            title: clone_opt_string(&self.title),
            price: clone_opt_amount(&self.price),
            condition: clone_opt_string(&self.condition),
            itemWebUrl: clone_opt_string(&self.itemWebUrl),
        }
    }
}

impl Clone for FilteredComp {
    fn clone(&self) -> (r: Self)
        ensures
            r == *self,
    {
        FilteredComp { price_cents: self.price_cents, comp: self.comp.clone() }
    }
}

} // verus!
