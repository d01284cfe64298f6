//! Tabular export of the filtered comps.
//!
//! The library builds the rows — header first, then one row per comp in
//! the order given, prices rendered with exactly two decimal places —
//! and the caller serializes them.

use vstd::prelude::*;
use crate::items::FilteredComp;
use crate::price_text::{cents_text, format_cents};

verus! {

/// The text of an optional field: its own, or empty when absent.
pub open spec fn opt_text(o: Option<String>) -> Seq<char> {
    match o {
        Some(s) => s@,
        None => Seq::empty(),
    }
}

/// The header row.
pub open spec fn header_row_spec() -> Seq<Seq<char>> {
    seq!["AnchorID"@, "Title"@, "Price"@, "Condition"@, "URL"@]
}

/// One comp's row: the anchor's identifier, then the comp's title, its
/// price with two decimal places, its condition and its listing URL.
pub open spec fn comp_row_spec(item_id: Seq<char>, f: FilteredComp) -> Seq<Seq<char>> {
    seq![
        item_id,
        opt_text(f.comp.title),
        cents_text(f.price_cents as int),
        opt_text(f.comp.condition),
        opt_text(f.comp.itemWebUrl),
    ]
}

/// The whole table for one anchor.
pub open spec fn export_rows_spec(item_id: Seq<char>, comps: Seq<FilteredComp>) -> Seq<
    Seq<Seq<char>>,
> {
    seq![header_row_spec()] + comps.map_values(|f: FilteredComp| comp_row_spec(item_id, f))
}

fn opt_field(o: &Option<String>) -> (r: String)
    ensures
        r@ == opt_text(*o),
{
    match o {
        Some(s) => s.clone(),
        None => String::new(),
    }
}

fn comp_row(item_id: &str, f: &FilteredComp) -> (r: Vec<String>)
    ensures
        r.deep_view() == comp_row_spec(item_id@, *f),
{
    let mut r: Vec<String> = Vec::new();
    r.push(item_id.to_owned());
    r.push(opt_field(&f.comp.title));
    r.push(format_cents(f.price_cents));
    r.push(opt_field(&f.comp.condition));
    r.push(opt_field(&f.comp.itemWebUrl));
    proof {
        assert(r.deep_view() =~= comp_row_spec(item_id@, *f));
    }
    r
}

/// Builds the export table for one anchor: the header row, then one row
/// per filtered comp, in the order given (ascending price when the comps
/// come from the filter).
pub fn export_rows(item_id: &str, comps: &Vec<FilteredComp>) -> (rows: Vec<Vec<String>>)
    ensures
        rows.deep_view() == export_rows_spec(item_id@, comps@),
{
    let mut rows: Vec<Vec<String>> = Vec::new();
    let mut header: Vec<String> = Vec::new();
    header.push("AnchorID".to_owned());
    header.push("Title".to_owned());
    header.push("Price".to_owned());
    header.push("Condition".to_owned());
    header.push("URL".to_owned());
    proof {
        assert(header.deep_view() =~= header_row_spec());
    }
    rows.push(header);
    let n = comps.len();
    let mut i: usize = 0;
    while i < n
        invariant
            0 <= i <= n == comps@.len(),
            rows.deep_view() == export_rows_spec(item_id@, comps@.subrange(0, i as int)),
        decreases n - i,
    {
        let row = comp_row(item_id, &comps[i]);
        let ghost prev_dv = rows.deep_view();
        rows.push(row);
        proof {
            let pre = comps@.subrange(0, i as int);
            let post = comps@.subrange(0, i as int + 1);
            assert(post =~= pre.push(comps@[i as int]));
            let dv = rows.deep_view();
            let sp = export_rows_spec(item_id@, post);
            assert(prev_dv.len() == 1 + pre.map_values(
                |f: FilteredComp| comp_row_spec(item_id@, f),
            ).len());
            assert(dv.len() == i + 2);
            assert(sp.len() == i + 2);
            assert forall|k: int| 0 <= k < dv.len() implies dv[k] == sp[k] by {
                if k < i + 1 {
                    assert(dv[k] == prev_dv[k]);
                    assert(prev_dv[k] == export_rows_spec(item_id@, pre)[k]);
                    assert(sp[k] == export_rows_spec(item_id@, pre)[k]);
                } else {
                    assert(dv[k] == row.deep_view());
                    assert(sp[k] == comp_row_spec(item_id@, comps@[i as int]));
                }
            }
            assert(dv =~= sp);
        }
        i = i + 1;
    }
    proof {
        assert(comps@.subrange(0, n as int) =~= comps@);
    }
    rows
}

} // verus!
