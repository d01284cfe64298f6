//! Resale-price recommendation for marketplace listings.
//!
//! Given an anchor listing and a list of candidate comparable listings
//! ("comps"), the library filters the comps to those that match the anchor's
//! condition and lie within ±30% of the anchor's price, and derives a
//! three-tier price recommendation (fast / market / patient) from the median
//! of the filtered prices.  All money amounts are held as whole cents, so
//! every computation here is exact integer arithmetic.

pub mod items;
pub mod price_text;
pub mod comp_filter;
pub mod median;
pub mod pipeline;
pub mod item_id;
pub mod net;
pub mod export;

pub use items::ConvertedAmount;
pub use items::Item;
pub use items::ItemSummary;
pub use items::SearchResponse;
pub use items::FilteredComp;
pub use items::PriceRecommendation;
pub use items::PipelineOutcome;
pub use comp_filter::filter_comps;
pub use export::export_rows;
pub use item_id::extract_item_id;
pub use median::recommend;
pub use pipeline::run;
pub use price_text::format_cents;
pub use price_text::parse_price_cents;
