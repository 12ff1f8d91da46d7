use blue_bird::reconcile::{missing_tokens, reconcile, reconcile_from_sources};
use blue_bird::web::{client_agent, status_is_success, variables_url};

fn strings(items: &[&str]) -> Vec<String> {
    items.iter().map(|s| s.to_string()).collect()
}

#[test]
fn missing_is_the_asymmetric_difference() {
    let names = strings(&["BAR", "FOO"]);
    let tokens = strings(&["BAR", "BAZ", "QUX"]);
    let missing = missing_tokens(&names, &tokens);
    assert_eq!(missing, strings(&["BAZ", "QUX"]));
}

#[test]
fn missing_is_a_subset_of_tokens_and_disjoint_from_names() {
    let names = strings(&["A", "C"]);
    let tokens = strings(&["A", "B", "C", "D"]);
    let missing = missing_tokens(&names, &tokens);
    for m in &missing {
        assert!(tokens.contains(m));
        assert!(!names.contains(m));
    }
    assert_eq!(missing, strings(&["B", "D"]));
}

#[test]
fn empty_tokens_leave_nothing_missing() {
    let names = strings(&["A", "B"]);
    let tokens: Vec<String> = Vec::new();
    let missing = missing_tokens(&names, &tokens);
    assert!(missing.is_empty());
}

#[test]
fn empty_names_leave_every_token_missing() {
    let names: Vec<String> = Vec::new();
    let tokens = strings(&["A", "B"]);
    let missing = missing_tokens(&names, &tokens);
    assert_eq!(missing, tokens);
}

#[test]
fn report_bundles_the_three_sequences() {
    let report = reconcile(strings(&["FOO"]), strings(&["BAR", "FOO"]));
    assert_eq!(report.names, strings(&["FOO"]));
    assert_eq!(report.tokens, strings(&["BAR", "FOO"]));
    assert_eq!(report.missing, strings(&["BAR"]));
}

#[test]
fn end_to_end_reconciliation() {
    let body = "[{\"name\": \"FOO\"}]";
    let file_text = "$FOO $BAR";
    let report = reconcile_from_sources(body, file_text).expect("body should decode");
    assert_eq!(report.names, strings(&["FOO"]));
    assert_eq!(report.tokens, strings(&["BAR", "FOO"]));
    assert_eq!(report.missing, strings(&["BAR"]));
}

#[test]
fn end_to_end_rejects_a_non_array_body() {
    let result = reconcile_from_sources("{\"error\": \"401 Unauthorized\"}", "$FOO");
    assert!(result.is_err());
}

#[test]
fn endpoint_address_is_assembled_exactly() {
    let url = variables_url("https://example.test", "42", "SECRET-REDACTED");
    assert_eq!(
        url,
        "https://example.test/api/v4/projects/42/variables?private_token=SECRET-REDACTED"
    );
}

#[test]
fn client_agent_is_fixed() {
    assert_eq!(client_agent(), "blue.bird");
}

#[test]
fn success_statuses_are_the_2xx_range() {
    assert!(status_is_success(200));
    assert!(status_is_success(201));
    assert!(status_is_success(299));
    assert!(!status_is_success(199));
    assert!(!status_is_success(300));
    assert!(!status_is_success(404));
    assert!(!status_is_success(500));
}
