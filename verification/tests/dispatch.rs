use bulkseed::dispatch::{
    consent_payload, count_successes, fresh_consent_payload, plan_consent_uploads,
    record_file_name, ConsentJob, UploadOutcome,
};
use bulkseed::select::AuthoredIndex;
use bulkseed::SeedError;

fn index_of(pairs: &[(&str, &str)]) -> AuthoredIndex {
    AuthoredIndex {
        entries: pairs.iter().map(|(k, v)| (k.to_string(), v.to_string())).collect(),
    }
}

fn looks_like_token(s: &str) -> bool {
    s.len() == 36
        && s.chars().enumerate().all(|(i, c)| {
            if i == 8 || i == 13 || i == 18 || i == 23 {
                c == '-'
            } else {
                c.is_ascii_hexdigit() && !c.is_ascii_uppercase()
            }
        })
}

#[test]
fn counter_equals_number_of_successes() {
    let outcomes = vec![
        UploadOutcome::Success,
        UploadOutcome::TransportFailed,
        UploadOutcome::Success,
        UploadOutcome::BodyUnreadable,
        UploadOutcome::Success,
    ];
    assert_eq!(count_successes(&outcomes), 3);
}

#[test]
fn counter_is_interleaving_independent() {
    let one = vec![UploadOutcome::Success, UploadOutcome::TransportFailed, UploadOutcome::Success];
    let two = vec![UploadOutcome::TransportFailed, UploadOutcome::Success, UploadOutcome::Success];
    assert_eq!(count_successes(&one), count_successes(&two));
}

#[test]
fn zero_entities_tally_zero() {
    let outcomes: Vec<UploadOutcome> = Vec::new();
    assert_eq!(count_successes(&outcomes), 0);
}

#[test]
fn all_failures_tally_zero() {
    let outcomes = vec![UploadOutcome::TransportFailed, UploadOutcome::BodyUnreadable];
    assert_eq!(count_successes(&outcomes), 0);
}

#[test]
fn consent_payload_substitutes_all_four_bindings() {
    let t = "id=$PATIENT_ID qr=$QUESTIONNAIRE_RESPONSE_UUID rs=$RESEARCH_STUDY_UUID at=$AUTHORED";
    let r = consent_payload(t, "p1", "2021-03-04", "token-a", "token-b");
    assert_eq!(r, "id=p1 qr=token-a rs=token-b at=2021-03-04");
}

#[test]
fn fresh_payload_mints_valid_distinct_tokens() {
    let t = "$QUESTIONNAIRE_RESPONSE_UUID|$RESEARCH_STUDY_UUID";
    let r = fresh_consent_payload(t, "p1", "2021-01-01");
    let parts: Vec<&str> = r.split('|').collect();
    assert_eq!(parts.len(), 2);
    assert!(looks_like_token(parts[0]));
    assert!(looks_like_token(parts[1]));
    assert_ne!(parts[0], parts[1]);
}

#[test]
fn record_file_name_appends_suffix() {
    assert_eq!(record_file_name("p1"), "p1.json");
    assert_eq!(record_file_name(""), ".json");
}

#[test]
fn plan_reports_missing_date_per_entity() {
    let index = index_of(&[("a", "2021-01-01")]);
    let ids = vec!["a".to_string(), "ghost".to_string()];
    let plan = plan_consent_uploads("ID=$PATIENT_ID", &index, &ids);
    assert_eq!(plan.len(), 2);
    assert!(plan[0].is_ok());
    match &plan[1] {
        Err(SeedError::MissingAuthoredDate(id)) => assert_eq!(id, "ghost"),
        other => panic!("expected a missing-date error, got {:?}", other.is_ok()),
    }
}

#[test]
fn end_to_end_three_entities_all_accepted() {
    let index = index_of(&[
        ("a", "2021-01-01"),
        ("b", "2021-01-02"),
        ("c", "2021-01-03"),
    ]);
    let ids = vec!["a".to_string(), "b".to_string(), "c".to_string()];
    let template = "ID=$PATIENT_ID DATE=$AUTHORED Q=$QUESTIONNAIRE_RESPONSE_UUID R=$RESEARCH_STUDY_UUID";
    let plan = plan_consent_uploads(template, &index, &ids);
    assert_eq!(plan.len(), 3);
    let jobs: Vec<&ConsentJob> = plan.iter().map(|p| p.as_ref().expect("planned")).collect();

    // a mock endpoint that accepts everything: every dispatch succeeds
    let outcomes: Vec<UploadOutcome> = jobs.iter().map(|_| UploadOutcome::Success).collect();
    assert_eq!(count_successes(&outcomes), 3);

    let mut bodies: Vec<String> = Vec::new();
    let mut tokens: Vec<String> = Vec::new();
    for (k, job) in jobs.iter().enumerate() {
        let id = &ids[k];
        let date = index.date_of(id).expect("date");
        assert_eq!(job.id, *id);
        let body = &job.payload;
        assert!(body.starts_with(&format!("ID={} DATE={} Q=", id, date)));
        let after_q = body.split(" Q=").nth(1).expect("Q part");
        let mut halves = after_q.split(" R=");
        let q = halves.next().expect("q token");
        let r = halves.next().expect("r token");
        assert!(looks_like_token(q));
        assert!(looks_like_token(r));
        tokens.push(q.to_string());
        tokens.push(r.to_string());
        assert!(!bodies.contains(body));
        bodies.push(body.clone());
    }
    // the six minted tokens are mutually distinct
    for x in 0..tokens.len() {
        for y in (x + 1)..tokens.len() {
            assert_ne!(tokens[x], tokens[y]);
        }
    }
}
