//! Selection policy: which entity IDs are in scope for a run. Either an
//! explicit list, or a deterministic lexicographically sorted prefix of the
//! authored-date index's keys.

use crate::order::{lex_le, seq_views, sorted_lex, spec_sort};
use crate::order::{
    lemma_sort_contains, lemma_sort_deterministic, lemma_sort_ensures, sort_strings,
};
use vstd::prelude::*;

verus! {

/// The authored-date index: one date string per entity ID, unique keys.
/// Its key set is the universe the selection policy draws from.
pub struct AuthoredIndex {
    pub entries: Vec<(String, String)>,
}

impl AuthoredIndex {
    /// The key views, in entry order.
    pub open spec fn key_views(self) -> Seq<Seq<char>> {
        self.entries@.map_values(|p: (String, String)| p.0@)
    }

    /// Well-formed: the index is a mapping, so its keys are unique.
    pub open spec fn wf(self) -> bool {
        self.key_views().no_duplicates()
    }

    pub open spec fn has_key(self, id: Seq<char>) -> bool {
        self.key_views().contains(id)
    }

    pub open spec fn key_index(self, id: Seq<char>) -> int {
        choose|k: int| 0 <= k < self.entries@.len() && self.entries@[k].0@ == id
    }

    /// The date bound to `id`, meaningful when `has_key(id)`.
    pub open spec fn spec_date(self, id: Seq<char>) -> Seq<char> {
        self.entries@[self.key_index(id)].1@
    }

    /// Looks up the authored date of an entity. Returns the date exactly
    /// when the ID is a key of the index.
    pub fn date_of(&self, id: &String) -> (r: Option<String>)
        requires
            self.wf(),
        ensures
            match r {
                Some(d) => self.has_key(id@) && d@ == self.spec_date(id@),
                None => !self.has_key(id@),
            },
    {
        let mut i: usize = 0;
        while i < self.entries.len()
            invariant
                self.wf(),
                i <= self.entries@.len(),
                forall|k: int| 0 <= k < i ==> #[trigger] self.entries@[k].0@ != id@,
            decreases self.entries@.len() - i,
        {
            if self.entries[i].0.eq(id) {
                proof {
                    assert(self.key_views()[i as int] == id@);
                    let ki = self.key_index(id@);
                    assert(self.entries@[ki].0@ == id@);
                    assert(self.key_views()[ki] == id@);
                    if ki != i {
                        assert(self.key_views()[ki] != self.key_views()[i as int]);
                    }
                }
                return Some(self.entries[i].1.clone());
            }
            i += 1;
        }
        proof {
            if self.has_key(id@) {
                let k = choose|k: int|
                    0 <= k < self.key_views().len() && self.key_views()[k] == id@;
                assert(self.entries@[k].0@ == id@);
            }
        }
        None
    }

    /// The index's keys, cloned in entry order.
    pub fn keys(&self) -> (r: Vec<String>)
        ensures
            seq_views(r@) == self.key_views(),
    {
        let mut r: Vec<String> = Vec::new();
        let mut i: usize = 0;
        while i < self.entries.len()
            invariant
                i <= self.entries@.len(),
                seq_views(r@) == self.key_views().take(i as int),
            decreases self.entries@.len() - i,
        {
            let ghost old_r = r@;
            proof {
                assert(seq_views(old_r).len() == old_r.len());
                assert(old_r.len() == i);
            }
            r.push(self.entries[i].0.clone());
            proof {
                assert(r@ == old_r.push(r@[i as int]));
                assert forall|k: int| 0 <= k < i + 1 implies seq_views(r@)[k] == self.key_views(
                ).take(i + 1)[k] by {
                    assert(seq_views(r@)[k] == r@[k]@);
                    if k < i {
                        assert(r@[k] == old_r[k]);
                        assert(seq_views(old_r)[k] == old_r[k]@);
                        assert(self.key_views().take(i as int)[k] == self.key_views()[k]);
                    } else {
                        assert(r@[k]@ == self.entries@[i as int].0@);
                        assert(self.key_views()[k] == self.entries@[k].0@);
                    }
                }
                assert(seq_views(r@) =~= self.key_views().take(i + 1));
            }
            i += 1;
        }
        proof {
            assert(self.key_views().take(self.entries@.len() as int) =~= self.key_views());
        }
        r
    }
}

/// How many IDs a limited selection takes: the limit, capped by the number
/// of known keys.
pub open spec fn selection_size(n: nat, limit: Option<usize>) -> int {
    match limit {
        Some(l) => if l < n {
            l as int
        } else {
            n as int
        },
        None => n as int,
    }
}

/// The selection drawn from a key sequence: the keys in ascending
/// lexicographic order, truncated to the limit if one is given.
pub open spec fn spec_select(keys: Seq<Seq<char>>, limit: Option<usize>) -> Seq<Seq<char>> {
    spec_sort(keys).take(selection_size(keys.len(), limit))
}

/// Resolves the IDs in scope for a run. An explicit list wins unchanged;
/// otherwise the index's keys are sorted lexicographically ascending and,
/// when a limit is given, the first `limit` of them are taken.
pub fn select(index: &AuthoredIndex, explicit: Option<Vec<String>>, limit: Option<usize>) -> (r:
    Vec<String>)
    ensures
        match explicit {
            Some(ids) => r == ids,
            None => seq_views(r@) == spec_select(index.key_views(), limit),
        },
{
    match explicit {
        Some(ids) => ids,
        None => {
            let keys = index.keys();
            let mut sorted = sort_strings(&keys);
            proof {
                lemma_sort_ensures(index.key_views());
            }
            if let Some(l) = limit {
                if l < sorted.len() {
                    sorted.truncate(l);
                }
            }
            proof {
                assert(seq_views(sorted@) =~= spec_select(index.key_views(), limit));
            }
            sorted
        },
    }
}

/// Law: the selection is determined by the key set alone. Two well-formed
/// indexes whose keys enumerate the same set, in whatever order, yield the
/// same selection for the same limit.
pub proof fn lemma_select_deterministic(
    a: Seq<Seq<char>>,
    b: Seq<Seq<char>>,
    limit: Option<usize>,
)
    requires
        a.no_duplicates(),
        b.no_duplicates(),
        a.to_set() == b.to_set(),
    ensures
        spec_select(a, limit) == spec_select(b, limit),
{
    lemma_sort_deterministic(a, b);
    a.unique_seq_to_set();
    b.unique_seq_to_set();
}

/// Law: every selected ID is a key of the index it was drawn from.
pub proof fn lemma_selection_in_index(keys: Seq<Seq<char>>, limit: Option<usize>, x: Seq<char>)
    requires
        spec_select(keys, limit).contains(x),
    ensures
        keys.contains(x),
{
    lemma_sort_ensures(keys);
    let sel = spec_select(keys, limit);
    let k = choose|k: int| 0 <= k < sel.len() && sel[k] == x;
    assert(spec_sort(keys)[k] == x);
    assert(spec_sort(keys).contains(x));
    lemma_sort_contains(keys, x);
}

/// Law: the selection is sorted and no longer than the limit allows.
pub proof fn lemma_selection_shape(keys: Seq<Seq<char>>, limit: Option<usize>)
    ensures
        sorted_lex(spec_select(keys, limit)),
        spec_select(keys, limit).len() == selection_size(keys.len(), limit),
        limit is Some ==> spec_select(keys, limit).len() <= limit->0,
{
    lemma_sort_ensures(keys);
    let sel = spec_select(keys, limit);
    assert forall|i: int, j: int| 0 <= i < j < sel.len() implies lex_le(
        #[trigger] sel[i],
        #[trigger] sel[j],
    ) by {
        assert(sel[i] == spec_sort(keys)[i]);
        assert(sel[j] == spec_sort(keys)[j]);
    }
}

} // verus!
