use bulkseed::select::{select, AuthoredIndex};

fn index_of(pairs: &[(&str, &str)]) -> AuthoredIndex {
    AuthoredIndex {
        entries: pairs.iter().map(|(k, v)| (k.to_string(), v.to_string())).collect(),
    }
}

#[test]
fn selection_limit_takes_sorted_prefix() {
    let index = index_of(&[("c", "1"), ("a", "2"), ("b", "3"), ("d", "4")]);
    let r = select(&index, None, Some(3));
    assert_eq!(r, vec!["a".to_string(), "b".to_string(), "c".to_string()]);
}

#[test]
fn selection_is_independent_of_enumeration_order() {
    let one = index_of(&[("c", "1"), ("a", "2"), ("b", "3"), ("d", "4")]);
    let two = index_of(&[("d", "4"), ("b", "3"), ("a", "2"), ("c", "1")]);
    assert_eq!(select(&one, None, Some(3)), select(&two, None, Some(3)));
    assert_eq!(select(&one, None, None), select(&two, None, None));
}

#[test]
fn selection_without_limit_takes_all_sorted() {
    let index = index_of(&[("c", "1"), ("a", "2"), ("b", "3")]);
    let r = select(&index, None, None);
    assert_eq!(r, vec!["a".to_string(), "b".to_string(), "c".to_string()]);
}

#[test]
fn explicit_ids_win_unchanged() {
    let index = index_of(&[("a", "1")]);
    let explicit = vec!["z".to_string(), "y".to_string(), "y".to_string()];
    let r = select(&index, Some(explicit.clone()), Some(1));
    assert_eq!(r, explicit);
}

#[test]
fn empty_index_selects_nothing() {
    let index = index_of(&[]);
    assert!(select(&index, None, None).is_empty());
    assert!(select(&index, None, Some(5)).is_empty());
}

#[test]
fn limit_beyond_size_takes_everything() {
    let index = index_of(&[("b", "1"), ("a", "2")]);
    let r = select(&index, None, Some(10));
    assert_eq!(r, vec!["a".to_string(), "b".to_string()]);
}

#[test]
fn selection_orders_by_code_point() {
    let index = index_of(&[("a", "1"), ("B", "2"), ("b", "3"), ("A", "4")]);
    let r = select(&index, None, None);
    assert_eq!(
        r,
        vec!["A".to_string(), "B".to_string(), "a".to_string(), "b".to_string()]
    );
}

#[test]
fn date_of_finds_known_and_rejects_unknown() {
    let index = index_of(&[("p1", "2021-01-01"), ("p2", "2022-02-02")]);
    assert_eq!(index.date_of(&"p2".to_string()), Some("2022-02-02".to_string()));
    assert_eq!(index.date_of(&"p3".to_string()), None);
}
