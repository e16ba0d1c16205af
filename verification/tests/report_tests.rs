use llm_pricing::cost::{CalcError, UsageScenario};
use llm_pricing::model::{Model, Pricing};
use llm_pricing::report::{cost_table, flatten_groups, list_models};
use llm_pricing::sort::SortBy;

fn offer(id: &str, prompt: &str, completion: &str) -> Model {
    Model {
        id: id.to_string(),
        canonical_slug: None,
        hugging_face_id: None,
        name: None,
        created: None,
        description: None,
        pricing: Pricing {
            prompt: prompt.to_string(),
            completion: completion.to_string(),
            request: None,
            image: None,
            input_cache_read: None,
            input_cache_write: None,
            web_search: None,
            internal_reasoning: None,
        },
        context_length: None,
        architecture: None,
        top_provider: None,
        per_request_limits: None,
        supported_parameters: None,
    }
}

fn offers() -> Vec<Model> {
    vec![
        offer("zeta/big", "0.00001", "0.00003"),
        offer("acme/foo", "0.000002", "0.000004"),
        offer("zeta/small", "0.000001", "0.000002"),
        offer("acme/bar", "0.000003", "0.000001"),
    ]
}

fn request(cached: Option<u64>, ttl: u64) -> UsageScenario {
    UsageScenario { input_tokens: 1000, output_tokens: 500, cached_tokens: cached, ttl_minutes: ttl }
}

#[test]
fn listing_filters_sorts_and_groups() {
    let needles = vec!["FOO".to_string(), "small".to_string(), "Bar".to_string()];
    let groups = list_models(offers(), needles, Some((SortBy::Input, true)));
    // kept: acme/foo, zeta/small, acme/bar; by input price, descending
    let shown: Vec<(String, Vec<String>)> = groups
        .iter()
        .map(|g| (g.provider.clone(), g.models.iter().map(|m| m.id.clone()).collect()))
        .collect();
    assert_eq!(
        shown,
        vec![
            ("acme".to_string(), vec!["acme/bar".to_string(), "acme/foo".to_string()]),
            ("zeta".to_string(), vec!["zeta/small".to_string()]),
        ]
    );
}

#[test]
fn listing_of_nothing_is_empty() {
    assert!(list_models(offers(), vec!["nothing".to_string()], None).is_empty());
    assert!(list_models(Vec::new(), Vec::new(), Some((SortBy::Name, false))).is_empty());
}

#[test]
fn flattening_goes_group_after_group() {
    let flat = flatten_groups(list_models(offers(), Vec::new(), None));
    let ids: Vec<&str> = flat.iter().map(|m| m.id.as_str()).collect();
    assert_eq!(ids, vec!["zeta/big", "zeta/small", "acme/foo", "acme/bar"]);
}

#[test]
fn cost_table_end_to_end() {
    let rows = cost_table(vec![offer("acme/foo", "0.000002", "0.000004")], Vec::new(), None, &request(None, 5))
        .unwrap();
    assert_eq!(rows.len(), 1);
    assert_eq!(rows[0].model.id, "acme/foo");
    assert_eq!(rows[0].costs.input_cost, 200_000_000_000);
    assert_eq!(rows[0].costs.output_cost, 200_000_000_000);
    assert_eq!(rows[0].costs.cache_read_cost, 0);
    assert_eq!(rows[0].costs.cache_write_cost, 0);
    assert_eq!(rows[0].costs.total_cost, 400_000_000_000);
}

#[test]
fn cost_table_sorted_by_total() {
    let rows = cost_table(offers(), Vec::new(), Some((SortBy::Total, false)), &request(None, 5)).unwrap();
    let ids: Vec<&str> = rows.iter().map(|r| r.model.id.as_str()).collect();
    // totals: zeta/big 0.025, acme/foo 0.004, zeta/small 0.002, acme/bar 0.0035
    assert_eq!(ids, vec!["zeta/small", "acme/bar", "acme/foo", "zeta/big"]);
    let rows = cost_table(offers(), Vec::new(), Some((SortBy::Total, true)), &request(None, 5)).unwrap();
    let ids: Vec<&str> = rows.iter().map(|r| r.model.id.as_str()).collect();
    assert_eq!(ids, vec!["zeta/big", "acme/foo", "acme/bar", "zeta/small"]);
}

#[test]
fn cost_table_without_total_sort_goes_by_group() {
    let rows = cost_table(offers(), Vec::new(), Some((SortBy::Name, false)), &request(None, 5)).unwrap();
    let ids: Vec<&str> = rows.iter().map(|r| r.model.id.as_str()).collect();
    assert_eq!(ids, vec!["acme/bar", "acme/foo", "zeta/big", "zeta/small"]);
    let rows = cost_table(offers(), Vec::new(), None, &request(None, 5)).unwrap();
    let ids: Vec<&str> = rows.iter().map(|r| r.model.id.as_str()).collect();
    assert_eq!(ids, vec!["zeta/big", "zeta/small", "acme/foo", "acme/bar"]);
}

#[test]
fn cost_table_rejects_unsupported_ttl_first() {
    let r = cost_table(offers(), Vec::new(), None, &request(Some(100), 10));
    assert!(matches!(r, Err(CalcError::UnsupportedTTL)));
    let r = cost_table(offers(), vec!["nothing".to_string()], None, &request(Some(100), 10));
    assert!(matches!(r, Err(CalcError::UnsupportedTTL)));
    let mut broken = offers();
    broken.push(offer("acme/broken", "?", "?"));
    let r = cost_table(broken, Vec::new(), None, &request(Some(100), 10));
    assert!(matches!(r, Err(CalcError::UnsupportedTTL)));
}

#[test]
fn cost_table_with_nothing_to_compute() {
    let r = cost_table(offers(), vec!["nothing".to_string()], None, &request(None, 5));
    assert!(matches!(r, Err(CalcError::EmptyResult)));
    let r = cost_table(Vec::new(), Vec::new(), None, &request(None, 60));
    assert!(matches!(r, Err(CalcError::EmptyResult)));
}

#[test]
fn cost_table_fails_on_an_invalid_price_of_a_kept_model() {
    let mut broken = offers();
    broken.push(offer("other/broken", "?", "0.1"));
    let r = cost_table(broken.clone(), Vec::new(), None, &request(None, 5));
    assert!(matches!(r, Err(CalcError::InvalidPrice)));
    // A model that the needles drop does not count.
    let rows = cost_table(broken, vec!["acme".to_string()], None, &request(None, 5)).unwrap();
    assert_eq!(rows.len(), 2);
}
