//! Reconciliation: the diff between the entity IDs we expected a registry
//! to accept and the identifiers it reports, computed the way the scan
//! runs: a remaining set starts as the expected set; each reported
//! identifier still in it confirms it and removes it; each reported
//! identifier not (or no longer) in it is recorded as unexpected; whatever
//! remains at the end is missing.

use crate::order::seq_views;
use vstd::prelude::*;

verus! {

/// The set of identifier views in a vector of strings.
pub open spec fn views_set(v: Seq<String>) -> Set<Seq<char>> {
    seq_views(v).to_set()
}

/// The identifiers the remaining-based scan records as unexpected, in scan
/// order, one entry per occurrence. A repeated expected identifier
/// confirms once and is unexpected on every further occurrence.
pub open spec fn spec_unexpected(found: Seq<Seq<char>>, remaining: Set<Seq<char>>) -> Seq<
    Seq<char>,
>
    decreases found.len(),
{
    if found.len() == 0 {
        Seq::empty()
    } else if remaining.contains(found[0]) {
        spec_unexpected(found.skip(1), remaining.remove(found[0]))
    } else {
        seq![found[0]] + spec_unexpected(found.skip(1), remaining)
    }
}

/// The outcome of a reconciliation run. Confirmed holds each expected ID
/// the registry reported, once; missing holds each expected ID it never
/// reported, once; unexpected holds every reported occurrence that
/// confirmed nothing, in report order.
pub struct Report {
    pub confirmed: Vec<String>,
    pub missing: Vec<String>,
    pub unexpected: Vec<String>,
}

impl Report {
    pub open spec fn wf(self, expected: Set<Seq<char>>, found: Seq<Seq<char>>) -> bool {
        &&& views_set(self.confirmed@) == expected.intersect(found.to_set())
        &&& views_set(self.missing@) == expected.difference(found.to_set())
        &&& seq_views(self.unexpected@) == spec_unexpected(found, expected)
        &&& seq_views(self.confirmed@).no_duplicates()
        &&& seq_views(self.missing@).no_duplicates()
    }
}

/// Pushing an element onto a sequence inserts it into the element set.
pub proof fn lemma_to_set_push(vs: Seq<Seq<char>>, x: Seq<char>)
    ensures
        vs.push(x).to_set() == vs.to_set().insert(x),
{
    assert forall|y: Seq<char>| vs.push(x).to_set().contains(y) implies vs.to_set().insert(
        x,
    ).contains(y) by {
        let k = choose|k: int| 0 <= k < vs.push(x).len() && vs.push(x)[k] == y;
        if k < vs.len() {
            assert(vs[k] == y);
        }
    }
    assert forall|y: Seq<char>| vs.to_set().insert(x).contains(y) implies vs.push(
        x,
    ).to_set().contains(y) by {
        if y == x {
            assert(vs.push(x)[vs.len() as int] == y);
        } else {
            let k = choose|k: int| 0 <= k < vs.len() && vs[k] == y;
            assert(vs.push(x)[k] == y);
        }
    }
    assert(vs.push(x).to_set() =~= vs.to_set().insert(x));
}

/// Pushing a fresh element keeps a sequence duplicate-free.
pub proof fn lemma_push_fresh_no_duplicates(vs: Seq<Seq<char>>, x: Seq<char>)
    requires
        vs.no_duplicates(),
        !vs.contains(x),
    ensures
        vs.push(x).no_duplicates(),
{
    assert forall|p: int, q: int|
        0 <= p < q < vs.push(x).len() implies vs.push(x)[p] != vs.push(x)[q] by {
        if q < vs.len() {
            assert(vs[p] != vs[q]);
        } else {
            assert(vs.push(x)[q] == x);
            assert(vs.push(x)[p] == vs[p]);
            assert(vs.contains(vs[p]));
        }
    }
}

/// Removing an element of a duplicate-free sequence removes it from the
/// element set and keeps the rest duplicate-free.
pub proof fn lemma_to_set_remove(vs: Seq<Seq<char>>, k: int)
    requires
        vs.no_duplicates(),
        0 <= k < vs.len(),
    ensures
        vs.remove(k).to_set() == vs.to_set().remove(vs[k]),
        vs.remove(k).no_duplicates(),
{
    vs.remove_ensures(k);
    assert forall|y: Seq<char>| vs.remove(k).to_set().contains(y) implies vs.to_set().remove(
        vs[k],
    ).contains(y) by {
        let j = choose|j: int| 0 <= j < vs.remove(k).len() && vs.remove(k)[j] == y;
        if j < k {
            assert(vs[j] == y);
            assert(vs[j] != vs[k]);
        } else {
            assert(vs[j + 1] == y);
            assert(vs[j + 1] != vs[k]);
        }
    }
    assert forall|y: Seq<char>| vs.to_set().remove(vs[k]).contains(y) implies vs.remove(
        k,
    ).to_set().contains(y) by {
        let j = choose|j: int| 0 <= j < vs.len() && vs[j] == y;
        if j < k {
            assert(vs.remove(k)[j] == y);
        } else {
            assert(j != k);
            assert(vs.remove(k)[j - 1] == y);
        }
    }
    assert(vs.remove(k).to_set() =~= vs.to_set().remove(vs[k]));
    assert forall|p: int, q: int|
        0 <= p < q < vs.remove(k).len() implies vs.remove(k)[p] != vs.remove(k)[q] by {
        let p0: int = if p < k {
            p
        } else {
            p + 1
        };
        let q0: int = if q < k {
            q
        } else {
            q + 1
        };
        assert(vs.remove(k)[p] == vs[p0]);
        assert(vs.remove(k)[q] == vs[q0]);
        assert(vs[p0] != vs[q0]);
    }
}

/// True iff the view of `x` is the view of some element of `v`.
pub fn contains_id(v: &Vec<String>, x: &String) -> (r: bool)
    ensures
        r == seq_views(v@).contains(x@),
{
    let mut i: usize = 0;
    while i < v.len()
        invariant
            i <= v@.len(),
            forall|k: int| 0 <= k < i ==> seq_views(v@)[k] != x@,
        decreases v@.len() - i,
    {
        proof {
            assert(seq_views(v@)[i as int] == v@[i as int]@);
        }
        if v[i].eq(x) {
            assert(seq_views(v@)[i as int] == x@);
            return true;
        }
        i += 1;
    }
    proof {
        if seq_views(v@).contains(x@) {
            let k = choose|k: int| 0 <= k < seq_views(v@).len() && seq_views(v@)[k] == x@;
            assert(seq_views(v@)[k] != x@);
        }
    }
    false
}

/// Removes the one element of a duplicate-free `v` whose view is `x`'s.
fn remove_id(v: &mut Vec<String>, x: &String)
    requires
        seq_views(old(v)@).no_duplicates(),
        seq_views(old(v)@).contains(x@),
    ensures
        seq_views(final(v)@).no_duplicates(),
        views_set(final(v)@) == views_set(old(v)@).remove(x@),
{
    let mut k: usize = 0;
    while k < v.len()
        invariant
            k <= v@.len(),
            v@ == old(v)@,
            seq_views(v@).no_duplicates(),
            forall|j: int| 0 <= j < k ==> seq_views(v@)[j] != x@,
        decreases v@.len() - k,
    {
        proof {
            assert(seq_views(v@)[k as int] == v@[k as int]@);
        }
        if v[k].eq(x) {
            let ghost old_views = seq_views(v@);
            proof {
                assert(old_views[k as int] == x@);
                assert(old_views == seq_views(old(v)@));
                assert(old_views.no_duplicates());
            }
            v.remove(k);
            proof {
                old_views.remove_ensures(k as int);
                assert forall|j: int|
                    0 <= j < seq_views(v@).len() implies seq_views(v@)[j] == old_views.remove(
                    k as int,
                )[j] by {
                    assert(seq_views(v@)[j] == v@[j]@);
                    if j < k {
                        assert(v@[j] == old(v)@[j]);
                        assert(old_views[j] == old(v)@[j]@);
                    } else {
                        assert(v@[j] == old(v)@[j + 1]);
                        assert(old_views[j + 1] == old(v)@[j + 1]@);
                    }
                }
                assert(seq_views(v@) =~= old_views.remove(k as int));
                lemma_to_set_remove(old_views, k as int);
            }
            return ;
        }
        k += 1;
    }
    proof {
        let j = choose|j: int|
            0 <= j < seq_views(old(v)@).len() && seq_views(old(v)@)[j] == x@;
        assert(seq_views(v@)[j] != x@);
        assert(false);
    }
}

/// Diffs the expected ID set against the identifiers the registry reported,
/// in report order. Every expected ID is confirmed or missing; every
/// reported occurrence that confirms nothing is recorded as unexpected.
pub fn reconcile(expected: &Vec<String>, found: &Vec<String>) -> (r: Report)
    ensures
        r.wf(views_set(expected@), seq_views(found@)),
{
    let ghost exp_set = views_set(expected@);
    let ghost found_set = views_set(found@);
    let ghost fv = seq_views(found@);

    // each expected ID the registry reported, once
    let mut confirmed: Vec<String> = Vec::new();
    let mut i: usize = 0;
    proof {
        assert(seq_views(expected@.take(0)) =~= Seq::<Seq<char>>::empty());
        assert(views_set(confirmed@) =~= views_set(expected@.take(0)).intersect(found_set));
    }
    while i < expected.len()
        invariant
            i <= expected@.len(),
            found_set == views_set(found@),
            views_set(confirmed@) == views_set(expected@.take(i as int)).intersect(found_set),
            seq_views(confirmed@).no_duplicates(),
        decreases expected@.len() - i,
    {
        let ghost pre = views_set(expected@.take(i as int));
        let e = &expected[i];
        let in_found = contains_id(found, e);
        let in_confirmed = contains_id(&confirmed, e);
        proof {
            assert(in_found == found_set.contains(e@));
            assert(in_confirmed == views_set(confirmed@).contains(e@));
        }
        if in_found && !in_confirmed {
            let ghost old_views = seq_views(confirmed@);
            confirmed.push(e.clone());
            proof {
                assert(seq_views(confirmed@) =~= old_views.push(e@));
                lemma_to_set_push(old_views, e@);
                lemma_push_fresh_no_duplicates(old_views, e@);
            }
        }
        proof {
            assert(seq_views(expected@.take(i + 1)) =~= seq_views(expected@.take(i as int)).push(
                expected@[i as int]@,
            ));
            lemma_to_set_push(seq_views(expected@.take(i as int)), expected@[i as int]@);
            assert(views_set(expected@.take(i + 1)) == pre.insert(expected@[i as int]@));
            assert(views_set(confirmed@) =~= views_set(expected@.take(i + 1)).intersect(
                found_set,
            ));
        }
        i += 1;
    }
    proof {
        assert(expected@.take(expected@.len() as int) =~= expected@);
    }

    // the remaining set: the expected IDs, deduplicated
    let mut remaining: Vec<String> = Vec::new();
    let mut d: usize = 0;
    proof {
        assert(seq_views(expected@.take(0)) =~= Seq::<Seq<char>>::empty());
        assert(views_set(remaining@) =~= views_set(expected@.take(0)));
    }
    while d < expected.len()
        invariant
            d <= expected@.len(),
            seq_views(remaining@).no_duplicates(),
            views_set(remaining@) == views_set(expected@.take(d as int)),
        decreases expected@.len() - d,
    {
        let e = &expected[d];
        let already = contains_id(&remaining, e);
        proof {
            assert(already == views_set(remaining@).contains(e@));
        }
        if !already {
            let ghost old_views = seq_views(remaining@);
            remaining.push(e.clone());
            proof {
                assert(seq_views(remaining@) =~= old_views.push(e@));
                lemma_to_set_push(old_views, e@);
                lemma_push_fresh_no_duplicates(old_views, e@);
            }
        }
        proof {
            assert(seq_views(expected@.take(d + 1)) =~= seq_views(expected@.take(d as int)).push(
                expected@[d as int]@,
            ));
            lemma_to_set_push(seq_views(expected@.take(d as int)), expected@[d as int]@);
            assert(views_set(remaining@) =~= views_set(expected@.take(d + 1)));
        }
        d += 1;
    }
    proof {
        assert(expected@.take(expected@.len() as int) =~= expected@);
    }

    // the scan: confirm by removal, record each other occurrence
    let mut unexpected: Vec<String> = Vec::new();
    let mut j: usize = 0;
    proof {
        assert(fv.skip(0) =~= fv);
        assert(seq_views(found@.take(0)) =~= Seq::<Seq<char>>::empty());
        assert(views_set(remaining@) =~= exp_set.difference(seq_views(found@.take(0)).to_set()));
        assert(seq_views(unexpected@) =~= Seq::<Seq<char>>::empty());
        assert(seq_views(unexpected@) + spec_unexpected(fv, views_set(remaining@))
            =~= spec_unexpected(fv, exp_set));
    }
    while j < found.len()
        invariant
            j <= found@.len(),
            fv == seq_views(found@),
            exp_set == views_set(expected@),
            seq_views(remaining@).no_duplicates(),
            views_set(remaining@) == exp_set.difference(seq_views(found@.take(j as int)).to_set()),
            spec_unexpected(fv, exp_set) == seq_views(unexpected@) + spec_unexpected(
                fv.skip(j as int),
                views_set(remaining@),
            ),
        decreases found@.len() - j,
    {
        let ghost rest = fv.skip(j as int);
        let ghost rem_set = views_set(remaining@);
        proof {
            assert(rest[0] == fv[j as int]);
            assert(fv[j as int] == found@[j as int]@);
            assert(rest.skip(1) =~= fv.skip(j + 1));
            assert(seq_views(found@.take(j + 1)) =~= seq_views(found@.take(j as int)).push(
                fv[j as int],
            ));
            lemma_to_set_push(seq_views(found@.take(j as int)), fv[j as int]);
        }
        let f = &found[j];
        let in_remaining = contains_id(&remaining, f);
        proof {
            assert(in_remaining == rem_set.contains(f@));
        }
        if in_remaining {
            remove_id(&mut remaining, f);
            proof {
                assert(views_set(remaining@) == rem_set.remove(fv[j as int]));
                assert(spec_unexpected(rest, rem_set) == spec_unexpected(
                    fv.skip(j + 1),
                    rem_set.remove(fv[j as int]),
                ));
                assert(views_set(remaining@) =~= exp_set.difference(
                    seq_views(found@.take(j + 1)).to_set(),
                ));
            }
        } else {
            let ghost old_views = seq_views(unexpected@);
            unexpected.push(f.clone());
            proof {
                assert(seq_views(unexpected@) =~= old_views.push(fv[j as int]));
                assert(spec_unexpected(rest, rem_set) == seq![fv[j as int]] + spec_unexpected(
                    fv.skip(j + 1),
                    rem_set,
                ));
                assert forall|more: Seq<Seq<char>>|
                    old_views + (seq![fv[j as int]] + more) =~= seq_views(unexpected@)
                    + more by {}
                assert(views_set(remaining@) =~= exp_set.difference(
                    seq_views(found@.take(j + 1)).to_set(),
                ));
            }
        }
        j += 1;
    }
    proof {
        assert(found@.take(found@.len() as int) =~= found@);
        assert(fv.skip(fv.len() as int) =~= Seq::<Seq<char>>::empty());
        assert(spec_unexpected(fv.skip(fv.len() as int), views_set(remaining@))
            =~= Seq::<Seq<char>>::empty());
        assert(seq_views(unexpected@) + Seq::<Seq<char>>::empty() =~= seq_views(unexpected@));
        assert(fv.to_set() == found_set);
    }
    Report { confirmed, missing: remaining, unexpected }
}

/// The unexpected occurrences lie within the reported identifiers, and
/// every reported identifier outside the remaining set is among them.
pub proof fn lemma_unexpected_bounds(found: Seq<Seq<char>>, remaining: Set<Seq<char>>)
    ensures
        forall|x: Seq<char>|
            #[trigger] spec_unexpected(found, remaining).contains(x) ==> found.contains(x),
        forall|x: Seq<char>|
            found.contains(x) && !remaining.contains(x) ==> #[trigger] spec_unexpected(
                found,
                remaining,
            ).contains(x),
    decreases found.len(),
{
    if found.len() > 0 {
        let f0 = found[0];
        let tail = found.skip(1);
        if remaining.contains(f0) {
            lemma_unexpected_bounds(tail, remaining.remove(f0));
            let u = spec_unexpected(found, remaining);
            let ut = spec_unexpected(tail, remaining.remove(f0));
            assert(u == ut);
            assert forall|x: Seq<char>| #[trigger] u.contains(x) implies found.contains(x) by {
                assert(ut.contains(x));
                assert(tail.contains(x));
                let k = choose|k: int| 0 <= k < tail.len() && tail[k] == x;
                assert(found[k + 1] == x);
            }
            assert forall|x: Seq<char>|
                found.contains(x) && !remaining.contains(x) implies #[trigger] u.contains(x) by {
                assert(x != f0);
                let k = choose|k: int| 0 <= k < found.len() && found[k] == x;
                assert(tail[k - 1] == x);
                assert(tail.contains(x));
                assert(!remaining.remove(f0).contains(x));
                assert(ut.contains(x));
            }
        } else {
            lemma_unexpected_bounds(tail, remaining);
            let u = spec_unexpected(found, remaining);
            let ut = spec_unexpected(tail, remaining);
            assert(u == seq![f0] + ut);
            assert forall|x: Seq<char>| #[trigger] u.contains(x) implies found.contains(x) by {
                let k = choose|k: int| 0 <= k < u.len() && u[k] == x;
                if k == 0 {
                    assert(found[0] == x);
                } else {
                    assert(ut[k - 1] == x);
                    assert(ut.contains(x));
                    assert(tail.contains(x));
                    let k2 = choose|k2: int| 0 <= k2 < tail.len() && tail[k2] == x;
                    assert(found[k2 + 1] == x);
                }
            }
            assert forall|x: Seq<char>|
                found.contains(x) && !remaining.contains(x) implies #[trigger] u.contains(x) by {
                if x == f0 {
                    assert(u[0] == x);
                } else {
                    let k = choose|k: int| 0 <= k < found.len() && found[k] == x;
                    assert(tail[k - 1] == x);
                    assert(ut.contains(x));
                    let k2 = choose|k2: int| 0 <= k2 < ut.len() && ut[k2] == x;
                    assert(u[k2 + 1] == x);
                }
            }
        }
    }
}

/// When no identifier is reported twice, the unexpected occurrences are
/// exactly the reported identifiers outside the remaining set.
pub proof fn lemma_unexpected_no_repeats(found: Seq<Seq<char>>, remaining: Set<Seq<char>>)
    requires
        found.no_duplicates(),
    ensures
        spec_unexpected(found, remaining).to_set() == found.to_set().difference(remaining),
    decreases found.len(),
{
    if found.len() == 0 {
        assert(spec_unexpected(found, remaining).to_set() =~= found.to_set().difference(
            remaining,
        ));
    } else {
        let f0 = found[0];
        let tail = found.skip(1);
        assert forall|p: int, q: int|
            0 <= p < q < tail.len() implies tail[p] != tail[q] by {
            assert(found[p + 1] != found[q + 1]);
        }
        assert(!tail.contains(f0)) by {
            if tail.contains(f0) {
                let k = choose|k: int| 0 <= k < tail.len() && tail[k] == f0;
                assert(found[k + 1] == found[0]);
            }
        }
        assert forall|y: Seq<char>|
            #[trigger] found.to_set().contains(y) implies y == f0 || tail.to_set().contains(
            y,
        ) by {
            let k = choose|k: int| 0 <= k < found.len() && found[k] == y;
            if k > 0 {
                assert(tail[k - 1] == y);
            }
        }
        assert forall|y: Seq<char>|
            #[trigger] tail.to_set().contains(y) implies found.to_set().contains(y) by {
            let k = choose|k: int| 0 <= k < tail.len() && tail[k] == y;
            assert(found[k + 1] == y);
        }
        assert(found.to_set().contains(f0));
        if remaining.contains(f0) {
            lemma_unexpected_no_repeats(tail, remaining.remove(f0));
            let u = spec_unexpected(found, remaining);
            let ut = spec_unexpected(tail, remaining.remove(f0));
            assert(u == ut);
            assert(ut.to_set() == tail.to_set().difference(remaining.remove(f0)));
            assert forall|y: Seq<char>|
                #[trigger] u.to_set().contains(y) implies found.to_set().difference(
                remaining,
            ).contains(y) by {
                assert(ut.to_set().contains(y));
                assert(tail.to_set().contains(y));
                assert(found.to_set().contains(y));
                assert(y != f0);
            }
            assert forall|y: Seq<char>|
                found.to_set().difference(remaining).contains(y) implies #[trigger] u.to_set(
                ).contains(y) by {
                assert(y != f0);
                assert(tail.to_set().contains(y));
                assert(!remaining.remove(f0).contains(y));
                assert(ut.to_set().contains(y));
            }
            assert(u.to_set() =~= found.to_set().difference(remaining));
        } else {
            lemma_unexpected_no_repeats(tail, remaining);
            let u = spec_unexpected(found, remaining);
            let ut = spec_unexpected(tail, remaining);
            assert(u == seq![f0] + ut);
            assert(ut.to_set() == tail.to_set().difference(remaining));
            assert forall|y: Seq<char>|
                #[trigger] u.to_set().contains(y) implies y == f0 || ut.to_set().contains(y) by {
                let k = choose|k: int| 0 <= k < u.len() && u[k] == y;
                if k > 0 {
                    assert(ut[k - 1] == y);
                }
            }
            assert forall|y: Seq<char>|
                #[trigger] ut.to_set().contains(y) implies u.to_set().contains(y) by {
                let k = choose|k: int| 0 <= k < ut.len() && ut[k] == y;
                assert(u[k + 1] == y);
            }
            assert(u.to_set().contains(f0)) by {
                assert(u[0] == f0);
            }
            assert forall|y: Seq<char>|
                #[trigger] u.to_set().contains(y) implies found.to_set().difference(
                remaining,
            ).contains(y) by {
                if y == f0 {
                    assert(found.to_set().contains(f0));
                } else {
                    assert(ut.to_set().contains(y));
                    assert(tail.to_set().contains(y));
                    assert(found.to_set().contains(y));
                }
            }
            assert forall|y: Seq<char>|
                found.to_set().difference(remaining).contains(y) implies #[trigger] u.to_set(
                ).contains(y) by {
                if y != f0 {
                    assert(tail.to_set().contains(y));
                    assert(ut.to_set().contains(y));
                }
            }
            assert(u.to_set() =~= found.to_set().difference(remaining));
        }
    }
}

/// Law: a well-formed report partitions the expected set into confirmed
/// and missing, and covers the reported identifiers with confirmed and
/// unexpected; missing meets neither of the other two.
pub proof fn lemma_report_is_partition(
    rep: Report,
    expected: Set<Seq<char>>,
    found: Seq<Seq<char>>,
)
    requires
        rep.wf(expected, found),
    ensures
        views_set(rep.confirmed@).union(views_set(rep.missing@)) == expected,
        views_set(rep.confirmed@).intersect(views_set(rep.missing@)) == Set::<Seq<char>>::empty(),
        views_set(rep.confirmed@).union(views_set(rep.unexpected@)) == found.to_set(),
        views_set(rep.missing@).intersect(views_set(rep.unexpected@)) == Set::<Seq<char>>::empty(),
{
    lemma_unexpected_bounds(found, expected);
    assert(views_set(rep.confirmed@).union(views_set(rep.missing@)) =~= expected);
    assert(views_set(rep.confirmed@).intersect(views_set(rep.missing@)) =~= Set::<
        Seq<char>,
    >::empty());
    assert forall|y: Seq<char>|
        #[trigger] found.to_set().contains(y) implies views_set(rep.confirmed@).union(
        views_set(rep.unexpected@),
    ).contains(y) by {
        assert(found.contains(y));
        if expected.contains(y) {
            assert(views_set(rep.confirmed@).contains(y));
        } else {
            assert(spec_unexpected(found, expected).contains(y));
        }
    }
    assert forall|y: Seq<char>|
        views_set(rep.confirmed@).union(views_set(rep.unexpected@)).contains(
        y,
    ) implies #[trigger] found.to_set().contains(y) by {
        if views_set(rep.unexpected@).contains(y) {
            assert(spec_unexpected(found, expected).contains(y));
            assert(found.contains(y));
        }
    }
    assert(views_set(rep.confirmed@).union(views_set(rep.unexpected@)) =~= found.to_set());
    assert forall|y: Seq<char>|
        !(#[trigger] views_set(rep.missing@).intersect(views_set(rep.unexpected@)).contains(
            y,
        )) by {
        if views_set(rep.unexpected@).contains(y) {
            assert(spec_unexpected(found, expected).contains(y));
            assert(found.contains(y));
            assert(found.to_set().contains(y));
        }
    }
    assert(views_set(rep.missing@).intersect(views_set(rep.unexpected@)) =~= Set::<
        Seq<char>,
    >::empty());
}

/// Law: when the registry reports no identifier twice, the unexpected set
/// is exactly found minus expected, and all three sets are disjoint. With
/// a repeated expected identifier the second occurrence is unexpected, so
/// confirmed and unexpected can meet.
pub proof fn lemma_report_disjoint_without_repeats(
    rep: Report,
    expected: Set<Seq<char>>,
    found: Seq<Seq<char>>,
)
    requires
        rep.wf(expected, found),
        found.no_duplicates(),
    ensures
        views_set(rep.unexpected@) == found.to_set().difference(expected),
        views_set(rep.confirmed@).intersect(views_set(rep.unexpected@)) == Set::<
            Seq<char>,
        >::empty(),
{
    lemma_unexpected_no_repeats(found, expected);
    assert(views_set(rep.confirmed@).intersect(views_set(rep.unexpected@)) =~= Set::<
        Seq<char>,
    >::empty());
}

} // verus!
