use bulkseed::text::{render, replace_all, str_eq, Binding};

fn binding(name: &str, value: &str) -> Binding {
    Binding { name: name.to_string(), value: value.to_string() }
}

#[test]
fn replace_all_replaces_every_occurrence() {
    let r = replace_all("ID=$P and again $P.", "$P", "p1");
    assert_eq!(r, "ID=p1 and again p1.");
}

#[test]
fn replace_all_empty_pattern_changes_nothing() {
    let r = replace_all("unchanged", "", "x");
    assert_eq!(r, "unchanged");
}

#[test]
fn replace_all_absent_pattern_changes_nothing() {
    let r = replace_all("nothing to see", "$MISSING", "x");
    assert_eq!(r, "nothing to see");
}

#[test]
fn render_substitutes_bound_placeholders() {
    let t = "ID=$PATIENT_ID DATE=$AUTHORED";
    let bs = vec![binding("$PATIENT_ID", "a"), binding("$AUTHORED", "2021-01-01")];
    assert_eq!(render(t, &bs), "ID=a DATE=2021-01-01");
}

#[test]
fn render_twice_same_inputs_identical() {
    let t = "ID=$PATIENT_ID DATE=$AUTHORED";
    let bs = vec![binding("$PATIENT_ID", "b"), binding("$AUTHORED", "2020-05-05")];
    let first = render(t, &bs);
    let second = render(t, &bs);
    assert_eq!(first, second);
}

#[test]
fn render_does_not_cross_contaminate_entities() {
    let t = "ID=$PATIENT_ID DATE=$AUTHORED";
    let for_a = render(t, &vec![binding("$PATIENT_ID", "alpha"), binding("$AUTHORED", "2021-01-01")]);
    let for_b = render(t, &vec![binding("$PATIENT_ID", "bravo"), binding("$AUTHORED", "2022-02-02")]);
    assert!(for_a.contains("alpha"));
    assert!(!for_a.contains("bravo"));
    assert!(for_b.contains("bravo"));
    assert!(!for_b.contains("alpha"));
}

#[test]
fn unknown_placeholder_passes_through_verbatim() {
    let t = "keep $UNKNOWN_TOKEN here, bind $PATIENT_ID there";
    let bs = vec![binding("$PATIENT_ID", "p9")];
    let r = render(t, &bs);
    assert_eq!(r, "keep $UNKNOWN_TOKEN here, bind p9 there");
    assert!(r.contains("$UNKNOWN_TOKEN"));
}

#[test]
fn render_with_no_bindings_returns_template() {
    let t = "a $B c";
    let r = render(t, &Vec::new());
    assert_eq!(r, t);
}

#[test]
fn replace_all_is_left_to_right_non_overlapping() {
    assert_eq!(replace_all("aaa", "aa", "b"), "ba");
    assert_eq!(replace_all("aaaa", "aa", "b"), "bb");
}

#[test]
fn replace_all_handles_multibyte_text() {
    assert_eq!(replace_all("prénom: $N", "$N", "Zoë"), "prénom: Zoë");
}

#[test]
fn str_eq_agrees_with_equality() {
    assert!(str_eq("Patient", "Patient"));
    assert!(!str_eq("Patient", "patient"));
    assert!(!str_eq("Patient", "Patien"));
    assert!(str_eq("", ""));
}
