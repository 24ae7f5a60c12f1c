//! Registry traversal and verification: the registry's response is a
//! two-level nested document — an outer list of bundles, each holding an
//! inner list of resource entries. Subject entries contribute an identifier
//! read from a fixed path; the identifiers are then diffed against the
//! expected ID set.

use crate::jsonval::{
    as_array, as_str, get_field, json_of, json_parses, obj_lookup, parse_json, value_model, Json,
};
use crate::order::seq_views;
use crate::reconcile::{reconcile, views_set, Report};
use crate::text::str_eq;
use crate::SeedError;
use vstd::prelude::*;

verus! {

/// The field of `j` named `k`: None when `j` is not an object or lacks it.
pub open spec fn field_of(j: Json, k: Seq<char>) -> Option<Json> {
    match j {
        Json::Obj(es) => obj_lookup(es, k),
        _ => None,
    }
}

/// One resource entry's contribution to the identifier list: `Ok(None)`
/// when the entry's resource is not of the subject kind, `Ok(Some(id))`
/// for a subject resource with a plain string identifier at the fixed
/// path, and an error for a subject resource whose identifier is not so.
pub open spec fn spec_subject_id(entry: Json) -> Result<Option<Seq<char>>, SeedError> {
    match field_of(entry, "resource"@) {
        Some(res) => if field_of(res, "resourceType"@) == Some(Json::Str("Patient"@)) {
            match field_of(res, "identifier"@) {
                Some(Json::Arr(ids)) => if ids.len() == 0 {
                    Err(SeedError::RegistryIdentifier)
                } else {
                    match field_of(ids[0], "value"@) {
                        Some(Json::Str(s)) => Ok(Some(s)),
                        _ => Err(SeedError::RegistryIdentifier),
                    }
                },
                _ => Err(SeedError::RegistryIdentifier),
            }
        } else {
            Ok(None)
        },
        None => Ok(None),
    }
}

/// The subject identifiers contributed by an inner entry list, in order;
/// the first malformed subject entry aborts the traversal.
pub open spec fn spec_entry_ids(entries: Seq<Json>) -> Result<Seq<Seq<char>>, SeedError>
    decreases entries.len(),
{
    if entries.len() == 0 {
        Ok(Seq::empty())
    } else {
        match spec_subject_id(entries[0]) {
            Err(e) => Err(e),
            Ok(opt) => match spec_entry_ids(entries.skip(1)) {
                Err(e) => Err(e),
                Ok(rest) => Ok(
                    match opt {
                        Some(s) => seq![s] + rest,
                        None => rest,
                    },
                ),
            },
        }
    }
}

/// A bundle's inner entry list, found under its resource; anything else is
/// a structural error.
pub open spec fn spec_bundle_entries(bundle: Json) -> Result<Seq<Json>, SeedError> {
    match field_of(bundle, "resource"@) {
        Some(res) => match field_of(res, "entry"@) {
            Some(Json::Arr(es)) => Ok(es),
            _ => Err(SeedError::RegistryStructure),
        },
        None => Err(SeedError::RegistryStructure),
    }
}

/// The subject identifiers of a bundle list, bundle by bundle.
pub open spec fn spec_bundles_ids(bundles: Seq<Json>) -> Result<Seq<Seq<char>>, SeedError>
    decreases bundles.len(),
{
    if bundles.len() == 0 {
        Ok(Seq::empty())
    } else {
        match spec_bundle_entries(bundles[0]) {
            Err(e) => Err(e),
            Ok(es) => match spec_entry_ids(es) {
                Err(e) => Err(e),
                Ok(ids) => match spec_bundles_ids(bundles.skip(1)) {
                    Err(e) => Err(e),
                    Ok(rest) => Ok(ids + rest),
                },
            },
        }
    }
}

/// The subject identifiers of a whole registry response document.
pub open spec fn spec_registry_ids(j: Json) -> Result<Seq<Seq<char>>, SeedError> {
    match field_of(j, "entry"@) {
        Some(Json::Arr(bs)) => spec_bundles_ids(bs),
        _ => Err(SeedError::RegistryStructure),
    }
}

/// The models of a vector of parsed values.
pub open spec fn models_of(arr: Seq<serde_json::Value>) -> Seq<Json> {
    arr.map_values(|v: serde_json::Value| value_model(v))
}

/// Reads one entry's subject identifier, if the entry is a subject entry.
fn subject_id_of(entry: &serde_json::Value) -> (r: Result<Option<String>, SeedError>)
    ensures
        match spec_subject_id(value_model(*entry)) {
            Ok(opt) => r is Ok && (match opt {
                Some(s) => r->Ok_0 is Some && r->Ok_0->Some_0@ == s,
                None => r->Ok_0 is None,
            }),
            Err(e) => r == Err::<Option<String>, SeedError>(e),
        },
{
    let resource = match get_field(entry, "resource") {
        Some(res) => res,
        None => {
            return Ok(None);
        },
    };
    let is_subject = match get_field(resource, "resourceType") {
        Some(t) => match as_str(t) {
            Some(s) => str_eq(s, "Patient"),
            None => false,
        },
        None => false,
    };
    if !is_subject {
        return Ok(None);
    }
    let ids_val = match get_field(resource, "identifier") {
        Some(x) => x,
        None => {
            return Err(SeedError::RegistryIdentifier);
        },
    };
    let ids_arr = match as_array(ids_val) {
        Some(x) => x,
        None => {
            return Err(SeedError::RegistryIdentifier);
        },
    };
    if ids_arr.len() == 0 {
        return Err(SeedError::RegistryIdentifier);
    }
    let val = match get_field(&ids_arr[0], "value") {
        Some(x) => x,
        None => {
            return Err(SeedError::RegistryIdentifier);
        },
    };
    match as_str(val) {
        Some(s) => Ok(Some(String::from_str(s))),
        None => Err(SeedError::RegistryIdentifier),
    }
}

/// Collects the subject identifiers of one inner entry list.
fn entry_ids(arr: &Vec<serde_json::Value>) -> (r: Result<Vec<String>, SeedError>)
    ensures
        match spec_entry_ids(models_of(arr@)) {
            Ok(ids) => r is Ok && seq_views(r->Ok_0@) == ids,
            Err(e) => r == Err::<Vec<String>, SeedError>(e),
        },
{
    let ghost ms = models_of(arr@);
    let mut acc: Vec<String> = Vec::new();
    let mut i: usize = 0;
    proof {
        assert(ms.skip(0) =~= ms);
        assert(seq_views(acc@) =~= Seq::<Seq<char>>::empty());
    }
    while i < arr.len()
        invariant
            i <= arr@.len(),
            ms == models_of(arr@),
            ms.len() == arr@.len(),
            match spec_entry_ids(ms.skip(i as int)) {
                Ok(rest) => spec_entry_ids(ms) == Ok::<Seq<Seq<char>>, SeedError>(
                    seq_views(acc@) + rest,
                ),
                Err(e) => spec_entry_ids(ms) == Err::<Seq<Seq<char>>, SeedError>(e),
            },
        decreases arr@.len() - i,
    {
        let ghost rest = ms.skip(i as int);
        proof {
            assert(rest[0] == ms[i as int]);
            assert(ms[i as int] == value_model(arr@[i as int]));
            assert(rest.skip(1) =~= ms.skip(i + 1));
        }
        match subject_id_of(&arr[i]) {
            Err(e) => {
                return Err(e);
            },
            Ok(opt) => match opt {
                Some(s) => {
                    let ghost old_views = seq_views(acc@);
                    acc.push(s);
                    proof {
                        assert(seq_views(acc@) =~= old_views.push(s@));
                        assert forall|more: Seq<Seq<char>>|
                            old_views + (seq![s@] + more) =~= seq_views(acc@) + more by {}
                    }
                },
                None => {},
            },
        }
        i += 1;
    }
    proof {
        assert(ms.skip(ms.len() as int) =~= Seq::<Json>::empty());
        assert(seq_views(acc@) + Seq::<Seq<char>>::empty() =~= seq_views(acc@));
    }
    Ok(acc)
}

/// Collects the subject identifiers of a whole registry response.
pub fn registry_subject_ids(response: &serde_json::Value) -> (r: Result<Vec<String>, SeedError>)
    ensures
        match spec_registry_ids(value_model(*response)) {
            Ok(ids) => r is Ok && seq_views(r->Ok_0@) == ids,
            Err(e) => r == Err::<Vec<String>, SeedError>(e),
        },
{
    let ghost jm = value_model(*response);
    let entry_val = match get_field(response, "entry") {
        Some(x) => x,
        None => {
            proof {
                assert(spec_registry_ids(jm) == Err::<Seq<Seq<char>>, SeedError>(
                    SeedError::RegistryStructure,
                ));
            }
            return Err(SeedError::RegistryStructure);
        },
    };
    let bundles = match as_array(entry_val) {
        Some(x) => x,
        None => {
            proof {
                assert(spec_registry_ids(jm) == Err::<Seq<Seq<char>>, SeedError>(
                    SeedError::RegistryStructure,
                ));
            }
            return Err(SeedError::RegistryStructure);
        },
    };
    let ghost bs = models_of(bundles@);
    proof {
        assert(value_model(*entry_val) is Arr);
        assert forall|k: int|
            0 <= k < bs.len() implies bs[k] == value_model(*entry_val)->Arr_0[k] by {
            assert(bs[k] == value_model(bundles@[k]));
        }
        assert(bs =~= value_model(*entry_val)->Arr_0);
        assert(spec_registry_ids(jm) == spec_bundles_ids(bs));
    }
    let mut acc: Vec<String> = Vec::new();
    let mut i: usize = 0;
    proof {
        assert(bs.skip(0) =~= bs);
        assert(seq_views(acc@) =~= Seq::<Seq<char>>::empty());
    }
    while i < bundles.len()
        invariant
            i <= bundles@.len(),
            bs == models_of(bundles@),
            bs.len() == bundles@.len(),
            forall|k: int|
                0 <= k < bundles@.len() ==> value_model(#[trigger] bundles@[k]) == bs[k],
            spec_registry_ids(value_model(*response)) == spec_bundles_ids(bs),
            match spec_bundles_ids(bs.skip(i as int)) {
                Ok(rest) => spec_bundles_ids(bs) == Ok::<Seq<Seq<char>>, SeedError>(
                    seq_views(acc@) + rest,
                ),
                Err(e) => spec_bundles_ids(bs) == Err::<Seq<Seq<char>>, SeedError>(e),
            },
        decreases bundles@.len() - i,
    {
        let ghost brest = bs.skip(i as int);
        proof {
            assert(brest[0] == bs[i as int]);
            assert(brest.skip(1) =~= bs.skip(i + 1));
        }
        let bundle = &bundles[i];
        let resource = match get_field(bundle, "resource") {
            Some(x) => x,
            None => {
                proof {
                    assert(spec_bundle_entries(bs[i as int]) == Err::<Seq<Json>, SeedError>(
                        SeedError::RegistryStructure,
                    ));
                }
                return Err(SeedError::RegistryStructure);
            },
        };
        let inner_val = match get_field(resource, "entry") {
            Some(x) => x,
            None => {
                proof {
                    assert(spec_bundle_entries(bs[i as int]) == Err::<Seq<Json>, SeedError>(
                        SeedError::RegistryStructure,
                    ));
                }
                return Err(SeedError::RegistryStructure);
            },
        };
        let inner = match as_array(inner_val) {
            Some(x) => x,
            None => {
                proof {
                    assert(spec_bundle_entries(bs[i as int]) == Err::<Seq<Json>, SeedError>(
                        SeedError::RegistryStructure,
                    ));
                }
                return Err(SeedError::RegistryStructure);
            },
        };
        proof {
            assert(value_model(*inner_val) is Arr);
            assert forall|k: int|
                0 <= k < models_of(inner@).len() implies models_of(inner@)[k] == value_model(
                *inner_val,
            )->Arr_0[k] by {
                assert(models_of(inner@)[k] == value_model(inner@[k]));
            }
            assert(models_of(inner@) =~= value_model(*inner_val)->Arr_0);
            assert(spec_bundle_entries(bs[i as int]) == Ok::<Seq<Json>, SeedError>(
                models_of(inner@),
            ));
        }
        let mut ids = match entry_ids(inner) {
            Ok(x) => x,
            Err(e) => {
                return Err(e);
            },
        };
        let ghost old_views = seq_views(acc@);
        let ghost ids_views = seq_views(ids@);
        acc.append(&mut ids);
        proof {
            assert(seq_views(acc@) =~= old_views + ids_views);
            assert forall|more: Seq<Seq<char>>|
                old_views + (ids_views + more) =~= seq_views(acc@) + more by {}
        }
        i += 1;
    }
    proof {
        assert(bs.skip(bs.len() as int) =~= Seq::<Json>::empty());
        assert(seq_views(acc@) + Seq::<Seq<char>>::empty() =~= seq_views(acc@));
    }
    Ok(acc)
}

/// A subject entry's error is always the identifier error.
proof fn lemma_entry_ids_err_kind(entries: Seq<Json>)
    ensures
        spec_entry_ids(entries) is Err ==> spec_entry_ids(entries)->Err_0
            == SeedError::RegistryIdentifier,
    decreases entries.len(),
{
    if entries.len() > 0 {
        lemma_entry_ids_err_kind(entries.skip(1));
    }
}

/// A bundle list's error is always structural or an identifier error.
proof fn lemma_bundles_ids_err_kind(bundles: Seq<Json>)
    ensures
        spec_bundles_ids(bundles) is Err ==> (spec_bundles_ids(bundles)->Err_0
            == SeedError::RegistryStructure || spec_bundles_ids(bundles)->Err_0
            == SeedError::RegistryIdentifier),
    decreases bundles.len(),
{
    if bundles.len() > 0 {
        match spec_bundle_entries(bundles[0]) {
            Ok(es) => {
                lemma_entry_ids_err_kind(es);
                lemma_bundles_ids_err_kind(bundles.skip(1));
            },
            Err(_) => {},
        }
    }
}

/// A registry response's traversal error is never the parse error.
pub proof fn lemma_registry_err_kind(j: Json)
    ensures
        spec_registry_ids(j) is Err ==> (spec_registry_ids(j)->Err_0
            == SeedError::RegistryStructure || spec_registry_ids(j)->Err_0
            == SeedError::RegistryIdentifier),
{
    match field_of(j, "entry"@) {
        Some(Json::Arr(bs)) => {
            lemma_bundles_ids_err_kind(bs);
        },
        _ => {},
    }
}

/// Verifies the transfer: parses the registry's response text, extracts the
/// subject identifiers, and diffs them against the expected ID set. A
/// report is owed exactly when the text parses and has the expected
/// two-level structure; an unparseable text, and only such a text, is the
/// parse error; a structural or identifier fault is its own error.
pub fn verify_transfer(text: &str, expected: &Vec<String>) -> (r: Result<Report, SeedError>)
    ensures
        r is Ok <==> (json_parses(text@) && spec_registry_ids(json_of(text@)) is Ok),
        r is Ok ==> r->Ok_0.wf(
            views_set(expected@),
            spec_registry_ids(json_of(text@))->Ok_0,
        ),
        (r is Err && r->Err_0 == SeedError::RegistryUnparseable) <==> !json_parses(text@),
        json_parses(text@) && spec_registry_ids(json_of(text@)) is Err ==> r == Err::<
            Report,
            SeedError,
        >(spec_registry_ids(json_of(text@))->Err_0),
{
    let parsed = match parse_json(text) {
        Some(v) => v,
        None => {
            return Err(SeedError::RegistryUnparseable);
        },
    };
    let found = match registry_subject_ids(&parsed) {
        Ok(ids) => ids,
        Err(e) => {
            proof {
                lemma_registry_err_kind(json_of(text@));
            }
            return Err(e);
        },
    };
    Ok(reconcile(expected, &found))
}

/// The fixed parameter document that asks the registry for every consent
/// of one domain.
pub fn registry_query_body(domain: &str) -> (r: String)
    ensures
        r@ == "{\"resourceType\": \"Parameters\", \"parameter\": [{\"name\": \"domain\", \"valueString\": \""@
            + domain@ + "\"}]}"@,
{
    let mut body = String::from_str(
        "{\"resourceType\": \"Parameters\", \"parameter\": [{\"name\": \"domain\", \"valueString\": \"",
    );
    body.append(domain);
    body.append("\"}]}");
    body
}

} // verus!
