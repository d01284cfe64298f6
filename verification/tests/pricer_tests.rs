use ebay_pricer::{
    filter_comps, parse_price_cents, recommend, run, ConvertedAmount, Item, ItemSummary,
    PipelineOutcome,
};
use ebay_pricer::export::export_rows;
use ebay_pricer::format_cents;
use ebay_pricer::item_id::extract_item_id;
use ebay_pricer::net::{basic_auth_value, search_url};

fn amount(text: &str) -> Option<ConvertedAmount> {
    Some(ConvertedAmount { value: Some(text.to_string()), currency: Some("USD".to_string()) })
}

fn comp(price: Option<&str>, condition: Option<&str>, title: &str) -> ItemSummary {
    ItemSummary {
        itemId: Some("v1|1|0".to_string()),
        title: Some(title.to_string()),
        price: price.map(|p| ConvertedAmount {
            value: Some(p.to_string()),
            currency: Some("USD".to_string()),
        }),
        condition: condition.map(|c| c.to_string()),
        itemWebUrl: Some(format!("https://www.ebay.com/itm/{}", title)),
    }
}

fn anchor(price: Option<&str>, condition: Option<&str>) -> Item {
    Item {
        itemId: Some("v1|0|0".to_string()),
        title: Some("Widget".to_string()),
        condition: condition.map(|c| c.to_string()),
        price: price.and_then(amount),
        itemWebUrl: Some("https://www.ebay.com/itm/100".to_string()),
    }
}

#[test]
fn parse_whole_and_fractions() {
    assert_eq!(parse_price_cents("95"), Some(9500));
    assert_eq!(parse_price_cents("95.5"), Some(9550));
    assert_eq!(parse_price_cents("95.50"), Some(9550));
    assert_eq!(parse_price_cents("0"), Some(0));
    assert_eq!(parse_price_cents("0.01"), Some(1));
}

#[test]
fn parse_rejects_bad_text() {
    assert_eq!(parse_price_cents(""), None);
    assert_eq!(parse_price_cents("abc"), None);
    assert_eq!(parse_price_cents("12a"), None);
    assert_eq!(parse_price_cents("1.234"), None);
    assert_eq!(parse_price_cents("1."), None);
    assert_eq!(parse_price_cents(".5"), None);
    assert_eq!(parse_price_cents("1.2.3"), None);
    assert_eq!(parse_price_cents("-5"), None);
    assert_eq!(parse_price_cents("1 2"), None);
}

#[test]
fn parse_rejects_oversized_values() {
    assert_eq!(parse_price_cents("9999999999999"), Some(999_999_999_999_900));
    assert_eq!(parse_price_cents("10000000000000"), None);
    assert_eq!(parse_price_cents("9999999999999.99"), Some(999_999_999_999_999));
}

#[test]
fn format_two_decimal_places() {
    assert_eq!(format_cents(9550), "95.50");
    assert_eq!(format_cents(5), "0.05");
    assert_eq!(format_cents(100), "1.00");
    assert_eq!(format_cents(20000), "200.00");
    assert_eq!(format_cents(0), "0.00");
}

#[test]
fn format_then_parse_round_trips() {
    for cents in [0u64, 1, 99, 100, 9550, 12345678901234] {
        assert_eq!(parse_price_cents(&format_cents(cents)), Some(cents));
    }
}

#[test]
fn filter_keeps_band_and_condition() {
    let comps = vec![
        comp(Some("90"), Some("USED"), "a"),
        comp(Some("131"), Some("USED"), "b"),
        comp(Some("69"), Some("USED"), "c"),
        comp(Some("101"), Some("USED"), "d"),
        comp(Some("100"), Some("NEW"), "e"),
        comp(None, Some("USED"), "f"),
        comp(Some("junk"), Some("USED"), "g"),
        comp(Some("100"), None, "h"),
    ];
    let out = filter_comps(&"USED".to_string(), 10000, &comps);
    let prices: Vec<u64> = out.iter().map(|f| f.price_cents).collect();
    assert_eq!(prices, vec![9000, 10100]);
    for f in &out {
        // subset of the input
        assert!(comps.contains(&f.comp));
        // exact condition match and band membership
        assert_eq!(f.comp.condition.as_deref(), Some("USED"));
        assert!(7 * 10000 <= 10 * f.price_cents && 10 * f.price_cents <= 13 * 10000);
    }
}

#[test]
fn filter_band_boundaries_are_inclusive() {
    let comps = vec![
        comp(Some("70"), Some("USED"), "low"),
        comp(Some("130"), Some("USED"), "high"),
        comp(Some("69.99"), Some("USED"), "below"),
        comp(Some("130.01"), Some("USED"), "above"),
    ];
    let out = filter_comps(&"USED".to_string(), 10000, &comps);
    let prices: Vec<u64> = out.iter().map(|f| f.price_cents).collect();
    assert_eq!(prices, vec![7000, 13000]);
}

#[test]
fn filter_sorts_ascending_and_keeps_ties_in_input_order() {
    let comps = vec![
        comp(Some("120"), Some("USED"), "x"),
        comp(Some("80"), Some("USED"), "y"),
        comp(Some("120"), Some("USED"), "z"),
        comp(Some("100"), Some("USED"), "w"),
    ];
    let out = filter_comps(&"USED".to_string(), 10000, &comps);
    let prices: Vec<u64> = out.iter().map(|f| f.price_cents).collect();
    assert_eq!(prices, vec![8000, 10000, 12000, 12000]);
    for i in 1..out.len() {
        assert!(out[i - 1].price_cents <= out[i].price_cents);
    }
    assert_eq!(out[2].comp.title.as_deref(), Some("x"));
    assert_eq!(out[3].comp.title.as_deref(), Some("z"));
}

#[test]
fn median_matches_reference_for_sizes_up_to_fifty() {
    // an independent reference: the statistical median computed in
    // floating point, the tiers rounded to the nearest cent, halves up
    // prices are multiples of 20 cents, so no tier lands exactly on a
    // half-cent and the floating-point reference rounds unambiguously;
    // the half-up tie rule has its own test
    let mut seed: u64 = 12345;
    let mut next = move || {
        seed = seed.wrapping_mul(6364136223846793005).wrapping_add(1442695040888963407);
        ((seed >> 33) % 100_000) * 20
    };
    for n in 1usize..=50 {
        let mut prices: Vec<u64> = (0..n).map(|_| next()).collect();
        prices.sort();
        let rec = recommend(&prices).unwrap();
        let median: f64 = if n % 2 == 1 {
            prices[n / 2] as f64
        } else {
            (prices[n / 2 - 1] as f64 + prices[n / 2] as f64) / 2.0
        };
        assert_eq!(rec.market_cents as f64, (median + 0.5).floor());
        assert_eq!(rec.fast_cents as f64, (0.9 * median + 0.5).floor());
        assert_eq!(rec.patient_cents as f64, (1.1 * median + 0.5).floor());
    }
}

#[test]
fn median_of_even_length_averages_middle_pair() {
    let rec = recommend(&vec![9000, 10100]).unwrap();
    assert_eq!(rec.market_cents, 9550);
}

#[test]
fn tiers_are_ordered() {
    let samples: Vec<Vec<u64>> = vec![
        vec![0],
        vec![5],
        vec![1, 2],
        vec![333],
        vec![9000, 10100],
        vec![100, 200, 300, 400, 500],
    ];
    for prices in samples {
        let rec = recommend(&prices).unwrap();
        assert!(rec.fast_cents <= rec.market_cents);
        assert!(rec.market_cents <= rec.patient_cents);
    }
}

#[test]
fn rounding_is_half_up_at_the_cent() {
    // median 0.05: fast is 0.045, rounded up; patient is 0.055, rounded up
    let rec = recommend(&vec![5]).unwrap();
    assert_eq!(rec.fast_cents, 5);
    assert_eq!(rec.market_cents, 5);
    assert_eq!(rec.patient_cents, 6);
}

#[test]
fn recommend_empty_is_absent() {
    assert_eq!(recommend(&vec![]), None);
}

#[test]
fn scenario_full_pipeline_even_median() {
    let a = anchor(Some("100.0"), Some("USED"));
    let comps = vec![
        comp(Some("90"), Some("USED"), "a"),
        comp(Some("131"), Some("USED"), "b"),
        comp(Some("69"), Some("USED"), "c"),
        comp(Some("101"), Some("USED"), "d"),
        comp(Some("100"), Some("NEW"), "e"),
    ];
    match run(&a, &comps) {
        PipelineOutcome::Recommendation { rec, comps: out } => {
            let prices: Vec<u64> = out.iter().map(|f| f.price_cents).collect();
            assert_eq!(prices, vec![9000, 10100]);
            assert_eq!(rec.fast_cents, 8595); // 85.95
            assert_eq!(rec.market_cents, 9550); // 95.50
            assert_eq!(rec.patient_cents, 10505); // 105.05
        }
        other => panic!("expected a recommendation, got {:?}", other),
    }
}

#[test]
fn scenario_no_matching_condition_reports_band() {
    let a = anchor(Some("50.0"), Some("USED"));
    let comps = vec![
        comp(Some("50"), Some("NEW"), "a"),
        comp(Some("55"), None, "b"),
    ];
    match run(&a, &comps) {
        PipelineOutcome::NoComps { condition, band_lower_x10, band_upper_x10 } => {
            assert_eq!(condition.as_deref(), Some("USED"));
            // exact band bounds in tenths of a cent: [35.00, 65.00]
            assert_eq!(band_lower_x10, 7 * 5000);
            assert_eq!(band_upper_x10, 13 * 5000);
        }
        other => panic!("expected no comps, got {:?}", other),
    }
}

#[test]
fn scenario_absent_price_short_circuits() {
    let a = anchor(None, Some("USED"));
    let comps = vec![comp(Some("50"), Some("USED"), "a")];
    assert_eq!(run(&a, &comps), PipelineOutcome::NoPrice);
}

#[test]
fn scenario_zero_and_unparseable_price_short_circuit() {
    let comps = vec![comp(Some("50"), Some("USED"), "a")];
    assert_eq!(run(&anchor(Some("0"), Some("USED")), &comps), PipelineOutcome::NoPrice);
    assert_eq!(run(&anchor(Some("n/a"), Some("USED")), &comps), PipelineOutcome::NoPrice);
}

#[test]
fn scenario_single_comp() {
    let a = anchor(Some("200.0"), Some("USED"));
    let comps = vec![comp(Some("200"), Some("USED"), "only")];
    match run(&a, &comps) {
        PipelineOutcome::Recommendation { rec, comps: out } => {
            assert_eq!(out.len(), 1);
            assert_eq!(rec.fast_cents, 18000); // 180.00
            assert_eq!(rec.market_cents, 20000); // 200.00
            assert_eq!(rec.patient_cents, 22000); // 220.00
        }
        other => panic!("expected a recommendation, got {:?}", other),
    }
}

#[test]
fn pipeline_is_deterministic_on_identical_inputs() {
    let a1 = anchor(Some("100.0"), Some("USED"));
    let a2 = anchor(Some("100.0"), Some("USED"));
    let comps1 = vec![
        comp(Some("90"), Some("USED"), "a"),
        comp(Some("101"), Some("USED"), "d"),
        comp(Some("90"), Some("USED"), "e"),
    ];
    let comps2 = vec![
        comp(Some("90"), Some("USED"), "a"),
        comp(Some("101"), Some("USED"), "d"),
        comp(Some("90"), Some("USED"), "e"),
    ];
    assert_eq!(run(&a1, &comps1), run(&a2, &comps2));
}

#[test]
fn anchor_without_condition_uses_placeholder() {
    // the anchor side substitutes "<none>"; a comp whose condition is
    // literally "<none>" therefore matches, while a comp with an absent
    // condition never does
    let a = anchor(Some("100"), None);
    let comps = vec![
        comp(Some("90"), Some("<none>"), "literal"),
        comp(Some("95"), None, "absent"),
    ];
    match run(&a, &comps) {
        PipelineOutcome::Recommendation { rec: _, comps: out } => {
            assert_eq!(out.len(), 1);
            assert_eq!(out[0].comp.title.as_deref(), Some("literal"));
        }
        other => panic!("expected a recommendation, got {:?}", other),
    }
}

#[test]
fn extract_id_between_marker_and_separator() {
    assert_eq!(
        extract_item_id("https://www.ebay.com/itm/123456789?var=0"),
        Some("123456789".to_string())
    );
    assert_eq!(
        extract_item_id("https://www.ebay.com/itm/987654/extra"),
        Some("987654".to_string())
    );
    assert_eq!(extract_item_id("https://www.ebay.com/itm/42"), Some("42".to_string()));
}

#[test]
fn extract_id_takes_first_marker() {
    assert_eq!(
        extract_item_id("https://x.example/itm/first/itm/second"),
        Some("first".to_string())
    );
}

#[test]
fn extract_id_absent_or_empty() {
    assert_eq!(extract_item_id("https://www.ebay.com/p/123"), None);
    assert_eq!(extract_item_id("https://www.ebay.com/itm/"), None);
    assert_eq!(extract_item_id("https://www.ebay.com/itm/?var=0"), None);
    assert_eq!(extract_item_id(""), None);
}

#[test]
fn export_rows_header_and_formatting() {
    let comps = vec![comp(Some("90"), Some("USED"), "a")];
    let filtered = filter_comps(&"USED".to_string(), 10000, &comps);
    let rows = export_rows("123", &filtered);
    assert_eq!(rows.len(), 2);
    assert_eq!(rows[0], vec!["AnchorID", "Title", "Price", "Condition", "URL"]);
    assert_eq!(rows[1][0], "123");
    assert_eq!(rows[1][1], "a");
    assert_eq!(rows[1][2], "90.00");
    assert_eq!(rows[1][3], "USED");
    assert_eq!(rows[1][4], "https://www.ebay.com/itm/a");
}

#[test]
fn export_rows_handles_absent_fields() {
    let filtered = vec![ebay_pricer::FilteredComp {
        price_cents: 12345,
        comp: ItemSummary {
            itemId: None,
            title: None,
            price: None,
            condition: None,
            itemWebUrl: None,
        },
    }];
    let rows = export_rows("id", &filtered);
    assert_eq!(rows[1], vec!["id", "", "123.45", "", ""]);
}

#[test]
fn search_response_yields_its_summaries() {
    let resp = ebay_pricer::SearchResponse {
        itemSummaries: Some(vec![comp(Some("10"), Some("USED"), "a")]),
    };
    let summaries = resp.into_summaries();
    assert_eq!(summaries.len(), 1);
    assert_eq!(summaries[0].title.as_deref(), Some("a"));
    let empty = ebay_pricer::SearchResponse { itemSummaries: None };
    assert!(empty.into_summaries().is_empty());
}

#[test]
fn basic_auth_value_encodes_credentials() {
    // base64 of "id:secret"
    assert_eq!(basic_auth_value("id", "secret"), "Basic aWQ6c2VjcmV0");
}

#[test]
fn search_url_percent_encodes_the_query() {
    assert_eq!(
        search_url("red shoes & laces"),
        "https://api.ebay.com/buy/browse/v1/item_summary/search?q=red%20shoes%20%26%20laces&limit=50"
    );
}

#[test]
fn item_url_appends_the_identifier() {
    assert_eq!(
        ebay_pricer::net::item_url("123456"),
        "https://api.ebay.com/buy/browse/v1/item/get_item_by_legacy_id?legacy_item_id=123456"
    );
}
