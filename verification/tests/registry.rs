use bulkseed::index::load_index;
use bulkseed::reconcile::{reconcile, Report};
use bulkseed::registry::{registry_query_body, verify_transfer};
use bulkseed::SeedError;

fn ids(v: &[&str]) -> Vec<String> {
    v.iter().map(|s| s.to_string()).collect()
}

fn sorted(mut v: Vec<String>) -> Vec<String> {
    v.sort();
    v
}

fn subject_entry(id: &str) -> String {
    format!(
        "{{\"resource\": {{\"resourceType\": \"Patient\", \"identifier\": [{{\"value\": \"{}\"}}]}}}}",
        id
    )
}

fn registry_response(subject_ids: &[&str]) -> String {
    let other = "{\"resource\": {\"resourceType\": \"Consent\", \"status\": \"active\"}}";
    let mut inner: Vec<String> = vec![other.to_string()];
    for id in subject_ids {
        inner.push(subject_entry(id));
    }
    format!(
        "{{\"resourceType\": \"Bundle\", \"entry\": [{{\"resource\": {{\"entry\": [{}]}}}}]}}",
        inner.join(", ")
    )
}

#[test]
fn reconciliation_partitions_expected_and_found() {
    let expected = ids(&["p1", "p2", "p3"]);
    let response = registry_response(&["p1", "p2", "p4"]);
    let report = verify_transfer(&response, &expected).expect("well-formed response");
    assert_eq!(sorted(report.confirmed.clone()), ids(&["p1", "p2"]));
    assert_eq!(sorted(report.missing.clone()), ids(&["p3"]));
    assert_eq!(sorted(report.unexpected.clone()), ids(&["p4"]));

    let mut confirmed_and_missing = report.confirmed.clone();
    confirmed_and_missing.extend(report.missing.clone());
    assert_eq!(sorted(confirmed_and_missing), sorted(expected));

    let mut confirmed_and_unexpected = report.confirmed.clone();
    confirmed_and_unexpected.extend(report.unexpected.clone());
    assert_eq!(sorted(confirmed_and_unexpected), ids(&["p1", "p2", "p4"]));
}

#[test]
fn non_subject_entries_are_ignored() {
    let expected = ids(&["p1"]);
    let response = registry_response(&["p1"]);
    let report = verify_transfer(&response, &expected).expect("well-formed response");
    assert_eq!(report.confirmed, ids(&["p1"]));
    assert!(report.missing.is_empty());
    assert!(report.unexpected.is_empty());
}

#[test]
fn unparseable_response_is_fatal() {
    let r = verify_transfer("not json at all {", &ids(&["p1"]));
    assert_eq!(r.err(), Some(SeedError::RegistryUnparseable));
}

#[test]
fn response_without_outer_entries_is_structural_error() {
    let r = verify_transfer("{\"resourceType\": \"Bundle\"}", &ids(&["p1"]));
    assert_eq!(r.err(), Some(SeedError::RegistryStructure));
}

#[test]
fn bundle_without_inner_entries_is_structural_error() {
    let text = "{\"entry\": [{\"resource\": {\"resourceType\": \"Bundle\"}}]}";
    let r = verify_transfer(text, &ids(&["p1"]));
    assert_eq!(r.err(), Some(SeedError::RegistryStructure));
}

#[test]
fn subject_with_malformed_identifier_is_fatal() {
    let text = "{\"entry\": [{\"resource\": {\"entry\": [{\"resource\": {\"resourceType\": \"Patient\", \"identifier\": [{\"value\": 17}]}}]}}]}";
    let r = verify_transfer(text, &ids(&["p1"]));
    assert_eq!(r.err(), Some(SeedError::RegistryIdentifier));
}

#[test]
fn reconcile_diffs_with_per_occurrence_unexpected() {
    let report: Report = reconcile(&ids(&["a", "a", "b"]), &ids(&["b", "c", "c"]));
    assert_eq!(sorted(report.confirmed), ids(&["b"]));
    assert_eq!(sorted(report.missing), ids(&["a"]));
    // every occurrence that confirms nothing is reported, in scan order
    assert_eq!(report.unexpected, ids(&["c", "c"]));
}

#[test]
fn repeated_expected_identifier_confirms_once_then_is_unexpected() {
    let report: Report = reconcile(&ids(&["p1"]), &ids(&["p1", "p1"]));
    assert_eq!(report.confirmed, ids(&["p1"]));
    assert!(report.missing.is_empty());
    assert_eq!(report.unexpected, ids(&["p1"]));
}

#[test]
fn repeated_subject_identifier_in_registry_confirms_once() {
    let response = registry_response(&["p1", "p1"]);
    let report = verify_transfer(&response, &ids(&["p1"])).expect("well-formed response");
    assert_eq!(report.confirmed, ids(&["p1"]));
    assert!(report.missing.is_empty());
    assert_eq!(report.unexpected, ids(&["p1"]));
}

#[test]
fn reconcile_of_empty_sets_is_empty() {
    let report = reconcile(&Vec::new(), &Vec::new());
    assert!(report.confirmed.is_empty());
    assert!(report.missing.is_empty());
    assert!(report.unexpected.is_empty());
}

#[test]
fn query_body_names_the_domain() {
    assert_eq!(
        registry_query_body("MII"),
        "{\"resourceType\": \"Parameters\", \"parameter\": [{\"name\": \"domain\", \"valueString\": \"MII\"}]}"
    );
}

#[test]
fn load_index_reads_object_of_strings() {
    let idx = load_index("{\"b\": \"2022-02-02\", \"a\": \"2021-01-01\"}").expect("well-formed");
    assert_eq!(idx.entries.len(), 2);
    assert_eq!(idx.date_of(&"a".to_string()), Some("2021-01-01".to_string()));
    assert_eq!(idx.date_of(&"b".to_string()), Some("2022-02-02".to_string()));
    assert_eq!(idx.date_of(&"c".to_string()), None);
}

#[test]
fn load_index_rejects_non_object_and_non_string_values() {
    assert_eq!(load_index("[1, 2]").err(), Some(SeedError::MalformedIndex));
    assert_eq!(load_index("{\"a\": 3}").err(), Some(SeedError::MalformedIndex));
    assert_eq!(load_index("nonsense").err(), Some(SeedError::MalformedIndex));
}
