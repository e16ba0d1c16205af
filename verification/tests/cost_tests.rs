use llm_pricing::cost::{
    compute, compute_all, sort_rows_by_total, CalcError, CostBreakdown, UsageScenario,
    AMOUNT_UNITS_PER_CURRENCY,
};
use llm_pricing::display::{
    cost_cells, format_cost, format_optional_price, format_price_per_million, price_row,
};
use llm_pricing::model::{Model, Pricing};
use llm_pricing::price::{parse_price, Price};

fn model(id: &str, prompt: &str, completion: &str, read: Option<&str>, write: Option<&str>) -> Model {
    Model {
        id: id.to_string(),
        canonical_slug: None,
        hugging_face_id: None,
        name: None,
        created: None,
        description: None,
        pricing: Pricing {
            prompt: prompt.to_string(),
            completion: completion.to_string(),
            request: None,
            image: None,
            input_cache_read: read.map(|s| s.to_string()),
            input_cache_write: write.map(|s| s.to_string()),
            web_search: None,
            internal_reasoning: None,
        },
        context_length: None,
        architecture: None,
        top_provider: None,
        per_request_limits: None,
        supported_parameters: None,
    }
}

fn scenario(input: u64, output: u64, cached: Option<u64>, ttl: u64) -> UsageScenario {
    UsageScenario { input_tokens: input, output_tokens: output, cached_tokens: cached, ttl_minutes: ttl }
}

const CURRENCY: u128 = AMOUNT_UNITS_PER_CURRENCY;

#[test]
fn parse_price_reads_plain_decimals() {
    assert_eq!(parse_price("0.000002"), Some(Price { units: 2_000_000 }));
    assert_eq!(parse_price("0"), Some(Price { units: 0 }));
    assert_eq!(parse_price("1"), Some(Price { units: 1_000_000_000_000 }));
    assert_eq!(parse_price("5."), Some(Price { units: 5_000_000_000_000 }));
    assert_eq!(parse_price(".5"), Some(Price { units: 500_000_000_000 }));
    assert_eq!(parse_price("0012.50"), Some(Price { units: 12_500_000_000_000 }));
    assert_eq!(parse_price("0.000000000001"), Some(Price { units: 1 }));
}

#[test]
fn parse_price_rejects_what_is_no_price() {
    assert_eq!(parse_price(""), None);
    assert_eq!(parse_price("."), None);
    assert_eq!(parse_price("abc"), None);
    assert_eq!(parse_price("-1"), None);
    assert_eq!(parse_price("+1"), None);
    assert_eq!(parse_price("1e-6"), None);
    assert_eq!(parse_price("1.2.3"), None);
    assert_eq!(parse_price(" 1"), None);
    assert_eq!(parse_price("0.1x"), None);
}

#[test]
fn parse_price_range_and_precision() {
    assert_eq!(parse_price("9999.999999999999"), Some(Price { units: 9_999_999_999_999_999 }));
    assert_eq!(parse_price("10000"), None);
    assert_eq!(parse_price("123456789"), None);
    assert_eq!(parse_price("0.0000000000001"), None);
    assert_eq!(parse_price("0.0000000000010000"), Some(Price { units: 1 }));
    assert_eq!(parse_price("0.1234567890123"), None);
}

#[test]
fn format_price_per_million_two_decimals() {
    assert_eq!(format_price_per_million("0.000002"), "2.00");
    assert_eq!(format_price_per_million("0.00000015"), "0.15");
    assert_eq!(format_price_per_million("0.000015"), "15.00");
    assert_eq!(format_price_per_million("0"), "0.00");
    assert_eq!(format_price_per_million("1"), "1000000.00");
    assert_eq!(format_price_per_million("0.00012345"), "123.45");
}

#[test]
fn format_price_per_million_rounds_ties_to_even() {
    assert_eq!(format_price_per_million("0.000000004"), "0.00");
    assert_eq!(format_price_per_million("0.000000005"), "0.00");
    assert_eq!(format_price_per_million("0.000000006"), "0.01");
    assert_eq!(format_price_per_million("0.000000015"), "0.02");
    assert_eq!(format_price_per_million("0.000000025"), "0.02");
    assert_eq!(format_price_per_million("0.000000995"), "1.00");
}

#[test]
fn format_price_per_million_not_available() {
    assert_eq!(format_price_per_million("free"), "N/A");
    assert_eq!(format_price_per_million(""), "N/A");
    assert_eq!(format_price_per_million("-1"), "N/A");
}

#[test]
fn format_cost_six_decimals() {
    assert_eq!(format_cost(0), "$0.000000");
    assert_eq!(format_cost(CURRENCY / 250), "$0.004000");
    assert_eq!(format_cost(CURRENCY * 12 + CURRENCY / 2), "$12.500000");
    assert_eq!(format_cost(100_000_000), "$0.000001");
    assert_eq!(format_cost(50_000_000), "$0.000000");
    assert_eq!(format_cost(150_000_000), "$0.000002");
    assert_eq!(format_cost(50_000_001), "$0.000001");
}

#[test]
fn end_to_end_without_cache() {
    let m = model("acme/foo", "0.000002", "0.000004", None, None);
    let b = compute(&m, &scenario(1000, 500, None, 5)).unwrap();
    assert_eq!(b.input_cost, CURRENCY / 500);
    assert_eq!(b.output_cost, CURRENCY / 500);
    assert_eq!(b.cache_read_cost, 0);
    assert_eq!(b.cache_write_cost, 0);
    assert_eq!(b.total_cost, CURRENCY / 250);
    assert_eq!(format_cost(b.input_cost), "$0.002000");
    assert_eq!(format_cost(b.output_cost), "$0.002000");
    assert_eq!(format_cost(b.total_cost), "$0.004000");
}

#[test]
fn ttl_multiplier_is_exact() {
    let m = model("acme/foo", "0.000001", "0", None, Some("0.00000125"));
    let five = compute(&m, &scenario(1000, 0, Some(0), 5)).unwrap();
    // 1000 * 0.000001 * 1.25 = 0.00125
    assert_eq!(five.cache_write_cost, 125_000_000_000);
    assert_eq!(five.input_cost, 0);
    assert_eq!(format_cost(five.cache_write_cost), "$0.001250");
    let partly = compute(&m, &scenario(2000, 0, Some(1000), 5)).unwrap();
    assert_eq!(partly.cache_write_cost, 125_000_000_000);
    assert_eq!(partly.cache_write_cost * 800, CURRENCY);
    assert_eq!(partly.cache_read_cost, 100_000_000_000);
    assert_eq!(partly.input_cost, 0);
    let sixty = compute(&m, &scenario(1000, 0, Some(0), 60)).unwrap();
    // 1000 * 0.000001 * 2 = 0.002
    assert_eq!(sixty.cache_write_cost, 200_000_000_000);
    assert_eq!(sixty.input_cost, 0);
    assert_eq!(sixty.total_cost, 200_000_000_000);
}

#[test]
fn write_price_applies_to_new_tokens_only() {
    let m = model("acme/foo", "0.000001", "0.000002", Some("0.0000001"), Some("0.00000125"));
    let b = compute(&m, &scenario(3000, 10, Some(1000), 5)).unwrap();
    assert_eq!(b.cache_read_cost, 1000 * 100_000 * 100);
    assert_eq!(b.cache_write_cost, 2000 * 1_000_000 * 125);
    assert_eq!(b.input_cost, 0);
    assert_eq!(b.output_cost, 10 * 2_000_000 * 100);
    assert_eq!(b.total_cost, b.input_cost + b.output_cost + b.cache_read_cost + b.cache_write_cost);
}

#[test]
fn more_cached_than_input_bills_no_new_token() {
    let m = model("acme/foo", "0.000003", "0.000004", Some("0.0000005"), Some("0.000004"));
    let b = compute(&m, &scenario(100, 0, Some(500), 5)).unwrap();
    assert_eq!(b.input_cost, 0);
    assert_eq!(b.cache_write_cost, 0);
    assert_eq!(b.cache_read_cost, 500 * 500_000 * 100);
    assert_eq!(b.total_cost, 500 * 500_000 * 100);
}

#[test]
fn cached_tokens_without_read_price_cost_the_prompt_price() {
    let m = model("acme/foo", "0.000003", "0.000004", None, None);
    let b = compute(&m, &scenario(1000, 0, Some(400), 5)).unwrap();
    assert_eq!(b.cache_read_cost, 400 * 3_000_000 * 100);
    assert_eq!(b.input_cost, 600 * 3_000_000 * 100);
    assert_eq!(b.cache_write_cost, 0);
}

#[test]
fn zero_cached_equals_no_cache_without_write_price() {
    let m = model("acme/foo", "0.000003", "0.000004", Some("0.0000005"), None);
    let plain = compute(&m, &scenario(1234, 567, None, 60)).unwrap();
    let zero = compute(&m, &scenario(1234, 567, Some(0), 60)).unwrap();
    assert_eq!(plain, zero);
    assert_eq!(plain.input_cost, 1234 * 3_000_000 * 100);
    assert_eq!(plain.output_cost, 567 * 4_000_000 * 100);
}

#[test]
fn costs_add_up() {
    let m = model("acme/foo", "0.0000031", "0.0000047", Some("0.00000053"), Some("1"));
    for cached in [None, Some(0), Some(17), Some(5000)] {
        for ttl in [5, 60] {
            let b = compute(&m, &scenario(999, 333, cached, ttl)).unwrap();
            assert_eq!(
                b.total_cost,
                b.input_cost + b.output_cost + b.cache_read_cost + b.cache_write_cost
            );
            assert!(b.input_cost == 0 || b.cache_write_cost == 0);
        }
    }
}

#[test]
fn largest_request_does_not_overflow() {
    let m = model("acme/foo", "9999.999999999999", "9999.999999999999", Some("9999.999999999999"), Some("1"));
    let b = compute(&m, &scenario(u64::MAX, u64::MAX, Some(u64::MAX), 60)).unwrap();
    let each = (u64::MAX as u128) * 9_999_999_999_999_999u128 * 100;
    assert_eq!(b.output_cost, each);
    assert_eq!(b.cache_read_cost, each);
    assert_eq!(b.total_cost, 2 * each);
}

#[test]
fn unsupported_ttl_is_rejected() {
    let m = model("acme/foo", "0.000001", "0.000002", None, Some("0.000002"));
    assert_eq!(compute(&m, &scenario(10, 10, Some(5), 10)), Err(CalcError::UnsupportedTTL));
    assert_eq!(compute(&m, &scenario(10, 10, None, 0)), Err(CalcError::UnsupportedTTL));
    assert_eq!(scenario(10, 10, Some(5), 10).validate(), Err(CalcError::UnsupportedTTL));
    assert_eq!(scenario(10, 10, Some(5), 5).validate(), Ok(()));
    assert_eq!(scenario(10, 10, Some(5), 60).validate(), Ok(()));
}

#[test]
fn unsupported_ttl_fails_the_whole_table() {
    let models = vec![
        model("acme/foo", "0.000001", "0.000002", None, None),
        model("acme/bar", "oops", "0.000002", None, None),
    ];
    let r = compute_all(models, &scenario(10, 10, Some(5), 10));
    assert!(matches!(r, Err(CalcError::UnsupportedTTL)));
    let r = compute_all(Vec::new(), &scenario(10, 10, Some(5), 10));
    assert!(matches!(r, Err(CalcError::UnsupportedTTL)));
}

#[test]
fn invalid_price_fails_the_computation() {
    let bad_prompt = model("acme/foo", "n/a", "0.000002", None, None);
    assert_eq!(compute(&bad_prompt, &scenario(1, 1, None, 5)), Err(CalcError::InvalidPrice));
    let bad_completion = model("acme/foo", "0.000002", "", None, None);
    assert_eq!(compute(&bad_completion, &scenario(1, 1, None, 5)), Err(CalcError::InvalidPrice));
    let bad_read = model("acme/foo", "0.000002", "0.000002", Some("?"), None);
    assert_eq!(compute(&bad_read, &scenario(1, 1, Some(1), 5)), Err(CalcError::InvalidPrice));
    // The read price is not needed without cached tokens to read.
    assert!(compute(&bad_read, &scenario(1, 1, Some(0), 5)).is_ok());
    assert!(compute(&bad_read, &scenario(1, 1, None, 5)).is_ok());
    let models = vec![model("acme/ok", "0.000001", "0.000002", None, None), bad_prompt];
    assert!(matches!(compute_all(models, &scenario(1, 1, None, 5)), Err(CalcError::InvalidPrice)));
}

#[test]
fn compute_all_keeps_the_order_of_the_models() {
    let models = vec![
        model("acme/b", "0.000002", "0.000002", None, None),
        model("acme/a", "0.000001", "0.000001", None, None),
    ];
    let rows = compute_all(models, &scenario(10, 10, None, 5)).unwrap();
    assert_eq!(rows.len(), 2);
    assert_eq!(rows[0].model.id, "acme/b");
    assert_eq!(rows[0].costs.total_cost, 20 * 2_000_000 * 100);
    assert_eq!(rows[1].model.id, "acme/a");
    assert_eq!(rows[1].costs.total_cost, 20 * 1_000_000 * 100);
}

#[test]
fn rows_sort_by_total_stably() {
    let models = vec![
        model("acme/c", "0.000003", "0", None, None),
        model("acme/a1", "0.000001", "0", None, None),
        model("acme/b", "0.000002", "0", None, None),
        model("acme/a2", "0.000001", "0", None, None),
    ];
    let rows = compute_all(models, &scenario(10, 0, None, 5)).unwrap();
    let up = sort_rows_by_total(rows, false);
    let ids: Vec<&str> = up.iter().map(|r| r.model.id.as_str()).collect();
    assert_eq!(ids, vec!["acme/a1", "acme/a2", "acme/b", "acme/c"]);
    let down = sort_rows_by_total(up, true);
    let ids: Vec<&str> = down.iter().map(|r| r.model.id.as_str()).collect();
    assert_eq!(ids, vec!["acme/c", "acme/b", "acme/a1", "acme/a2"]);
}

#[test]
fn caching_flag_differs_from_zero_tokens() {
    assert!(scenario(1, 1, Some(0), 5).uses_caching());
    assert!(!scenario(1, 1, None, 5).uses_caching());
    let b = CostBreakdown { input_cost: 1, output_cost: 2, cache_read_cost: 3, cache_write_cost: 0, total_cost: 6 };
    assert_eq!(b.total_cost, b.input_cost + b.output_cost + b.cache_read_cost + b.cache_write_cost);
}

#[test]
fn optional_prices_show_as_not_available() {
    assert_eq!(format_optional_price(&None), "N/A");
    assert_eq!(format_optional_price(&Some("oops".to_string())), "N/A");
    assert_eq!(format_optional_price(&Some("0.0000003".to_string())), "0.30");
}

#[test]
fn calc_errors_explain_themselves() {
    assert_eq!(CalcError::InvalidPrice.message(), "Invalid price format");
    assert_eq!(CalcError::UnsupportedTTL.message(), "TTL must be exactly 5 or 60 minutes");
    assert_eq!(CalcError::EmptyResult.message(), "No models found matching the filter");
}

#[test]
fn price_row_shows_prices_per_million() {
    let m = model("acme/foo", "0.000003", "0.000015", Some("0.0000003"), None);
    let row = price_row(&m);
    assert_eq!(row.model, "acme/foo");
    assert_eq!(row.input, "3.00");
    assert_eq!(row.output, "15.00");
    assert_eq!(row.cache_read, "0.30");
    assert_eq!(row.cache_write, "N/A");
    let broken = price_row(&model("acme/bar", "?", "", Some("x"), Some("0.00000375")));
    assert_eq!(broken.input, "N/A");
    assert_eq!(broken.output, "N/A");
    assert_eq!(broken.cache_read, "N/A");
    assert_eq!(broken.cache_write, "3.75");
}

#[test]
fn cost_cells_show_amounts() {
    let models = vec![model("acme/foo", "0.000001", "0.000002", Some("0.0000001"), Some("1"))];
    let rows = compute_all(models, &scenario(3000, 10, Some(1000), 5)).unwrap();
    let cells = cost_cells(&rows[0]);
    assert_eq!(cells.model, "acme/foo");
    assert_eq!(cells.input, "$0.000000");
    assert_eq!(cells.output, "$0.000020");
    assert_eq!(cells.cache_read, "$0.000100");
    assert_eq!(cells.cache_write, "$0.002500");
    assert_eq!(cells.total, "$0.002620");
}
