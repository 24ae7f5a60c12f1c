//! Loading the authored-date index: a single JSON object mapping entity ID
//! to a date string, read wholesale; anything else is malformed.

use crate::jsonval::{json_of, json_parses, object_entries, parse_json, value_model, Json};
use crate::select::AuthoredIndex;
use crate::SeedError;
use vstd::prelude::*;

verus! {

/// The view pairs of an index's entries.
pub open spec fn index_views(entries: Seq<(String, String)>) -> Seq<(Seq<char>, Seq<char>)> {
    entries.map_values(|p: (String, String)| (p.0@, p.1@))
}

/// The date entries of an object's pair list: Some exactly when every
/// value is a string.
pub open spec fn spec_index_entries(es: Seq<(Seq<char>, Json)>) -> Option<
    Seq<(Seq<char>, Seq<char>)>,
>
    decreases es.len(),
{
    if es.len() == 0 {
        Some(Seq::empty())
    } else {
        match es[0].1 {
            Json::Str(s) => match spec_index_entries(es.skip(1)) {
                Some(rest) => Some(seq![(es[0].0, s)] + rest),
                None => None,
            },
            _ => None,
        }
    }
}

/// The index a parsed document describes: Some exactly when the document
/// is an object all of whose values are strings.
pub open spec fn spec_index_model(j: Json) -> Option<Seq<(Seq<char>, Seq<char>)>> {
    match j {
        Json::Obj(es) => spec_index_entries(es),
        _ => None,
    }
}

/// Keys carried over from the object to the index, position by position.
proof fn lemma_index_entries_keys(es: Seq<(Seq<char>, Json)>)
    requires
        spec_index_entries(es) is Some,
    ensures
        spec_index_entries(es)->Some_0.len() == es.len(),
        forall|k: int|
            0 <= k < es.len() ==> #[trigger] spec_index_entries(es)->Some_0[k].0 == es[k].0,
    decreases es.len(),
{
    if es.len() > 0 {
        lemma_index_entries_keys(es.skip(1));
        assert forall|k: int|
            0 <= k < es.len() implies #[trigger] spec_index_entries(es)->Some_0[k].0
            == es[k].0 by {
            if k > 0 {
                assert(spec_index_entries(es.skip(1))->Some_0[k - 1].0 == es.skip(1)[k - 1].0);
            }
        }
    }
}

/// Builds the authored-date index from a parsed document. Succeeds exactly
/// when the document is an object of strings; the keys stay unique.
pub fn index_from_value(v: &serde_json::Value) -> (r: Result<AuthoredIndex, SeedError>)
    ensures
        match spec_index_model(value_model(*v)) {
            Some(entries) => r is Ok && index_views(r->Ok_0.entries@) == entries
                && r->Ok_0.wf(),
            None => r == Err::<AuthoredIndex, SeedError>(SeedError::MalformedIndex),
        },
{
    let ghost jm = value_model(*v);
    let pairs = match object_entries(v) {
        Some(p) => p,
        None => {
            return Err(SeedError::MalformedIndex);
        },
    };
    let ghost es = jm->Obj_0;
    let mut entries: Vec<(String, String)> = Vec::new();
    let mut i: usize = 0;
    proof {
        assert(es.skip(0) =~= es);
        assert(index_views(entries@) =~= Seq::<(Seq<char>, Seq<char>)>::empty());
        assert forall|k: int|
            0 <= k < es.len() implies value_model(#[trigger] pairs@[k].1) == es[k].1 by {
            assert(pairs@[k].0@ == es[k].0);
        }
    }
    while i < pairs.len()
        invariant
            i <= pairs@.len(),
            jm == value_model(*v),
            jm is Obj,
            es == jm->Obj_0,
            pairs@.len() == es.len(),
            forall|k: int| 0 <= k < es.len() ==> #[trigger] pairs@[k].0@ == es[k].0,
            forall|k: int|
                0 <= k < es.len() ==> value_model(#[trigger] pairs@[k].1) == es[k].1,
            match spec_index_entries(es.skip(i as int)) {
                Some(rest) => spec_index_entries(es) == Some(index_views(entries@) + rest),
                None => spec_index_entries(es) is None,
            },
        decreases pairs@.len() - i,
    {
        let ghost erest = es.skip(i as int);
        proof {
            assert(erest[0] == es[i as int]);
            assert(erest.skip(1) =~= es.skip(i + 1));
        }
        let date = match crate::jsonval::as_str(&pairs[i].1) {
            Some(s) => s,
            None => {
                proof {
                    assert(!(es[i as int].1 is Str));
                    assert(spec_index_entries(es.skip(i as int)) is None);
                }
                return Err(SeedError::MalformedIndex);
            },
        };
        let key = pairs[i].0.clone();
        let ghost old_views = index_views(entries@);
        entries.push((key, String::from_str(date)));
        proof {
            assert(index_views(entries@) =~= old_views.push((es[i as int].0, es[i as int].1->Str_0)));
            assert forall|more: Seq<(Seq<char>, Seq<char>)>|
                old_views + (seq![(es[i as int].0, es[i as int].1->Str_0)] + more) =~= index_views(
                entries@,
            ) + more by {}
        }
        i += 1;
    }
    proof {
        assert(es.skip(es.len() as int) =~= Seq::<(Seq<char>, Json)>::empty());
        assert(index_views(entries@) + Seq::<(Seq<char>, Seq<char>)>::empty() =~= index_views(
            entries@,
        ));
    }
    let index = AuthoredIndex { entries };
    proof {
        lemma_index_entries_keys(es);
        assert forall|p: int, q: int|
            0 <= p < q < index.key_views().len() implies index.key_views()[p]
            != index.key_views()[q] by {
            assert(index.key_views()[p] == index.entries@[p].0@);
            assert(index.key_views()[q] == index.entries@[q].0@);
            assert(index_views(index.entries@)[p].0 == index.entries@[p].0@);
            assert(index_views(index.entries@)[q].0 == index.entries@[q].0@);
            assert(spec_index_entries(es)->Some_0[p].0 == es[p].0);
            assert(spec_index_entries(es)->Some_0[q].0 == es[q].0);
            assert(es[p].0 != es[q].0);
        }
    }
    Ok(index)
}

/// Loads the authored-date index from its file's text. The index is owed
/// exactly when the text parses to an object of strings; a text that does
/// not parse, or parses to anything else, is malformed and fatal.
pub fn load_index(text: &str) -> (r: Result<AuthoredIndex, SeedError>)
    ensures
        r is Ok <==> (json_parses(text@) && spec_index_model(json_of(text@)) is Some),
        r is Ok ==> r->Ok_0.wf() && index_views(r->Ok_0.entries@) == spec_index_model(
            json_of(text@),
        )->Some_0,
        r is Err ==> r->Err_0 == SeedError::MalformedIndex,
{
    let parsed = match parse_json(text) {
        Some(v) => v,
        None => {
            return Err(SeedError::MalformedIndex);
        },
    };
    index_from_value(&parsed)
}

} // verus!
