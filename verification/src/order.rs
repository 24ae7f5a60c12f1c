//! Lexicographic ordering of identifiers by character code point, with a
//! verified insertion sort. Deterministic ordering is what makes repeated
//! selections reproducible.

use vstd::multiset::Multiset;
use vstd::prelude::*;

verus! {

/// Lexicographic "less or equal" on character sequences, by code point.
pub open spec fn lex_le(a: Seq<char>, b: Seq<char>) -> bool
    decreases a.len(),
{
    if a.len() == 0 {
        true
    } else if b.len() == 0 {
        false
    } else if a[0] == b[0] {
        lex_le(a.skip(1), b.skip(1))
    } else {
        (a[0] as u32) < (b[0] as u32)
    }
}

pub proof fn lemma_lex_refl(a: Seq<char>)
    ensures
        lex_le(a, a),
    decreases a.len(),
{
    if a.len() > 0 {
        lemma_lex_refl(a.skip(1));
    }
}

/// Distinct characters have distinct code points.
proof fn lemma_char_distinct(c: char, d: char)
    requires
        c != d,
    ensures
        (c as u32) != (d as u32),
{
}

pub proof fn lemma_lex_total(a: Seq<char>, b: Seq<char>)
    ensures
        lex_le(a, b) || lex_le(b, a),
    decreases a.len(),
{
    if a.len() > 0 && b.len() > 0 && a[0] == b[0] {
        lemma_lex_total(a.skip(1), b.skip(1));
    }
    if a.len() > 0 && b.len() > 0 && a[0] != b[0] {
        lemma_char_distinct(a[0], b[0]);
    }
}

pub proof fn lemma_lex_antisym(a: Seq<char>, b: Seq<char>)
    requires
        lex_le(a, b),
        lex_le(b, a),
    ensures
        a == b,
    decreases a.len(),
{
    if a.len() == 0 {
        assert(b.len() == 0);
        assert(a =~= b);
    } else {
        assert(b.len() > 0);
        assert(a[0] == b[0]);
        lemma_lex_antisym(a.skip(1), b.skip(1));
        assert(a.skip(1) == b.skip(1));
        assert(a.len() == b.len());
        assert forall|i: int| 0 <= i < a.len() implies a[i] == b[i] by {
            if i > 0 {
                assert(a.skip(1)[i - 1] == b.skip(1)[i - 1]);
                assert(a[i] == a.skip(1)[i - 1]);
                assert(b[i] == b.skip(1)[i - 1]);
            }
        }
        assert(a =~= b);
    }
}

pub proof fn lemma_lex_trans(a: Seq<char>, b: Seq<char>, c: Seq<char>)
    requires
        lex_le(a, b),
        lex_le(b, c),
    ensures
        lex_le(a, c),
    decreases a.len(),
{
    if a.len() == 0 {
    } else {
        assert(b.len() > 0);
        if c.len() == 0 {
        } else {
            if a[0] == b[0] && b[0] == c[0] {
                lemma_lex_trans(a.skip(1), b.skip(1), c.skip(1));
            }
        }
    }
}

/// Compares two strings in the lexicographic code-point order.
pub fn lex_le_exec(a: &str, b: &str) -> (r: bool)
    ensures
        r == lex_le(a@, b@),
{
    let na = a.unicode_len();
    let nb = b.unicode_len();
    let mut i: usize = 0;
    proof {
        assert(a@.skip(0) =~= a@);
        assert(b@.skip(0) =~= b@);
    }
    while i < na && i < nb
        invariant
            i <= na,
            i <= nb,
            na == a@.len(),
            nb == b@.len(),
            lex_le(a@, b@) == lex_le(a@.skip(i as int), b@.skip(i as int)),
        decreases na - i,
    {
        let ca = a.get_char(i);
        let cb = b.get_char(i);
        let ghost ra = a@.skip(i as int);
        let ghost rb = b@.skip(i as int);
        proof {
            assert(ra[0] == a@[i as int]);
            assert(rb[0] == b@[i as int]);
            assert(ra.skip(1) =~= a@.skip(i + 1));
            assert(rb.skip(1) =~= b@.skip(i + 1));
        }
        if ca != cb {
            return (ca as u32) < (cb as u32);
        }
        i += 1;
    }
    proof {
        if i == na {
            assert(a@.skip(i as int).len() == 0);
        } else {
            assert(i == nb);
            assert(b@.skip(i as int).len() == 0);
            assert(a@.skip(i as int).len() > 0);
        }
    }
    na <= nb
}

/// The views of a sequence of strings.
pub open spec fn seq_views(v: Seq<String>) -> Seq<Seq<char>> {
    v.map_values(|s: String| s@)
}

/// A sequence of character sequences in ascending lexicographic order.
pub open spec fn sorted_lex(v: Seq<Seq<char>>) -> bool {
    forall|i: int, j: int| 0 <= i < j < v.len() ==> lex_le(#[trigger] v[i], #[trigger] v[j])
}

/// Insertion of `x` into `s` before the first element not below `x`.
pub open spec fn spec_insert(x: Seq<char>, s: Seq<Seq<char>>) -> Seq<Seq<char>>
    decreases s.len(),
{
    if s.len() == 0 {
        seq![x]
    } else if lex_le(x, s[0]) {
        seq![x] + s
    } else {
        seq![s[0]] + spec_insert(x, s.skip(1))
    }
}

/// Insertion sort of a sequence of character sequences.
pub open spec fn spec_sort(s: Seq<Seq<char>>) -> Seq<Seq<char>>
    decreases s.len(),
{
    if s.len() == 0 {
        s
    } else {
        spec_insert(s.last(), spec_sort(s.drop_last()))
    }
}

pub proof fn lemma_insert_ensures(x: Seq<char>, s: Seq<Seq<char>>)
    requires
        sorted_lex(s),
    ensures
        sorted_lex(spec_insert(x, s)),
        spec_insert(x, s).to_multiset() == s.to_multiset().insert(x),
        spec_insert(x, s).len() == s.len() + 1,
    decreases s.len(),
{
    broadcast use vstd::seq_lib::group_to_multiset_ensures;

    if s.len() == 0 {
        assert(spec_insert(x, s) =~= Seq::<Seq<char>>::empty().push(x));
        assert(spec_insert(x, s).to_multiset() =~= s.to_multiset().insert(x));
    } else if lex_le(x, s[0]) {
        let r = seq![x] + s;
        assert forall|i: int, j: int| 0 <= i < j < r.len() implies lex_le(
            #[trigger] r[i],
            #[trigger] r[j],
        ) by {
            if i == 0 {
                if j == 1 {
                } else {
                    lemma_lex_trans(x, s[0], s[j - 1]);
                }
            }
        }
        assert(r =~= seq![x] + s);
        vstd::seq_lib::lemma_multiset_commutative(seq![x], s);
        assert(seq![x].to_multiset() =~= Multiset::<Seq<char>>::empty().insert(x));
        assert(r.to_multiset() =~= s.to_multiset().insert(x));
    } else {
        lemma_lex_total(x, s[0]);
        assert(lex_le(s[0], x));
        let tail = s.skip(1);
        assert forall|i: int, j: int| 0 <= i < j < tail.len() implies lex_le(
            #[trigger] tail[i],
            #[trigger] tail[j],
        ) by {
            assert(tail[i] == s[i + 1]);
            assert(tail[j] == s[j + 1]);
        }
        lemma_insert_ensures(x, tail);
        let rt = spec_insert(x, tail);
        let r = seq![s[0]] + rt;
        // every element of rt is either x or an element of tail, and both are >= s[0]
        assert forall|j: int| 0 <= j < rt.len() implies lex_le(s[0], #[trigger] rt[j]) by {
            assert(rt.to_multiset().contains(rt[j]));
            if rt[j] == x {
                assert(lex_le(s[0], x));
            } else {
                assert(tail.to_multiset().contains(rt[j]));
                assert(tail.contains(rt[j]));
                let k = choose|k: int| 0 <= k < tail.len() && tail[k] == rt[j];
                assert(s[k + 1] == tail[k]);
                if k + 1 > 0 {
                    assert(lex_le(s[0], s[k + 1]));
                }
            }
        }
        assert forall|i: int, j: int| 0 <= i < j < r.len() implies lex_le(
            #[trigger] r[i],
            #[trigger] r[j],
        ) by {
            if i > 0 {
                assert(r[i] == rt[i - 1]);
                assert(r[j] == rt[j - 1]);
                assert(sorted_lex(rt));
            } else {
                assert(r[j] == rt[j - 1]);
            }
        }
        vstd::seq_lib::lemma_multiset_commutative(seq![s[0]], rt);
        assert(seq![s[0]].to_multiset() =~= Multiset::<Seq<char>>::empty().insert(s[0]));
        assert(seq![s[0]] + tail =~= s);
        vstd::seq_lib::lemma_multiset_commutative(seq![s[0]], tail);
        assert(r.to_multiset() =~= s.to_multiset().insert(x));
    }
}

pub proof fn lemma_sort_ensures(s: Seq<Seq<char>>)
    ensures
        sorted_lex(spec_sort(s)),
        spec_sort(s).to_multiset() == s.to_multiset(),
        spec_sort(s).len() == s.len(),
    decreases s.len(),
{
    broadcast use vstd::seq_lib::group_to_multiset_ensures;

    if s.len() == 0 {
    } else {
        lemma_sort_ensures(s.drop_last());
        lemma_insert_ensures(s.last(), spec_sort(s.drop_last()));
        assert(s.drop_last().push(s.last()) =~= s);
        assert(s.drop_last().push(s.last()).to_multiset() == s.drop_last().to_multiset().insert(
            s.last(),
        ));
    }
}

/// Sorting keeps exactly the elements: membership is unchanged.
pub proof fn lemma_sort_contains(s: Seq<Seq<char>>, x: Seq<char>)
    ensures
        spec_sort(s).contains(x) <==> s.contains(x),
{
    broadcast use vstd::seq_lib::group_to_multiset_ensures;

    lemma_sort_ensures(s);
    assert(spec_sort(s).contains(x) <==> spec_sort(s).to_multiset().contains(x));
    assert(s.contains(x) <==> s.to_multiset().contains(x));
}

/// Sorting a duplicate-free sequence yields a duplicate-free sequence.
pub proof fn lemma_sort_no_duplicates(s: Seq<Seq<char>>)
    requires
        s.no_duplicates(),
    ensures
        spec_sort(s).no_duplicates(),
{
    lemma_sort_ensures(s);
    s.lemma_multiset_has_no_duplicates();
    spec_sort(s).lemma_multiset_has_no_duplicates_conv();
}

/// Two sorted, duplicate-free sequences over the same element set are equal.
pub proof fn lemma_sorted_unique(a: Seq<Seq<char>>, b: Seq<Seq<char>>)
    requires
        sorted_lex(a),
        sorted_lex(b),
        a.no_duplicates(),
        b.no_duplicates(),
        a.to_set() == b.to_set(),
    ensures
        a == b,
    decreases a.len(),
{
    if a.len() == 0 {
        if b.len() > 0 {
            assert(b.to_set().contains(b[0]));
            assert(a.contains(b[0]));
        }
        assert(a =~= b);
    } else {
        assert(a.to_set().contains(a[0]));
        assert(b.contains(a[0]));
        if b.len() == 0 {
            assert(b.to_set().contains(a[0]));
        }
        assert(b.to_set().contains(b[0]));
        assert(a.contains(b[0]));
        let ja = choose|j: int| 0 <= j < a.len() && a[j] == b[0];
        let jb = choose|j: int| 0 <= j < b.len() && b[j] == a[0];
        if ja > 0 {
            assert(lex_le(a[0], a[ja]));
        } else {
            lemma_lex_refl(a[0]);
        }
        if jb > 0 {
            assert(lex_le(b[0], b[jb]));
        } else {
            lemma_lex_refl(b[0]);
        }
        lemma_lex_antisym(a[0], b[0]);
        let at = a.skip(1);
        let bt = b.skip(1);
        assert forall|x: Seq<char>| at.contains(x) implies bt.contains(x) by {
            let k = choose|k: int| 0 <= k < at.len() && at[k] == x;
            assert(a[k + 1] == x);
            assert(x != a[0]);
            assert(a.to_set().contains(x));
            assert(b.contains(x));
            let k2 = choose|k2: int| 0 <= k2 < b.len() && b[k2] == x;
            assert(k2 != 0);
            assert(bt[k2 - 1] == x);
        }
        assert forall|x: Seq<char>| bt.contains(x) implies at.contains(x) by {
            let k = choose|k: int| 0 <= k < bt.len() && bt[k] == x;
            assert(b[k + 1] == x);
            assert(x != b[0]);
            assert(b.to_set().contains(x));
            assert(a.contains(x));
            let k2 = choose|k2: int| 0 <= k2 < a.len() && a[k2] == x;
            assert(k2 != 0);
            assert(at[k2 - 1] == x);
        }
        assert forall|i: int, j: int| 0 <= i < j < at.len() implies lex_le(
            #[trigger] at[i],
            #[trigger] at[j],
        ) by {
            assert(at[i] == a[i + 1]);
            assert(at[j] == a[j + 1]);
        }
        assert forall|i: int, j: int| 0 <= i < j < bt.len() implies lex_le(
            #[trigger] bt[i],
            #[trigger] bt[j],
        ) by {
            assert(bt[i] == b[i + 1]);
            assert(bt[j] == b[j + 1]);
        }
        assert(at.to_set() =~= bt.to_set());
        lemma_sorted_unique(at, bt);
        assert forall|i: int| 0 <= i < a.len() implies a[i] == b[i] by {
            if i > 0 {
                assert(at[i - 1] == bt[i - 1]);
            }
        }
        assert(a =~= b);
    }
}

/// Law: sorting is determined by the element set alone. Two duplicate-free
/// key sequences over the same set of identifiers sort to the same sequence,
/// whatever order they were enumerated in.
pub proof fn lemma_sort_deterministic(a: Seq<Seq<char>>, b: Seq<Seq<char>>)
    requires
        a.no_duplicates(),
        b.no_duplicates(),
        a.to_set() == b.to_set(),
    ensures
        spec_sort(a) == spec_sort(b),
{
    lemma_sort_ensures(a);
    lemma_sort_ensures(b);
    lemma_sort_no_duplicates(a);
    lemma_sort_no_duplicates(b);
    assert forall|x: Seq<char>| spec_sort(a).to_set().contains(x) implies spec_sort(
        b,
    ).to_set().contains(x) by {
        lemma_sort_contains(a, x);
        assert(a.to_set().contains(x));
        assert(b.contains(x));
        lemma_sort_contains(b, x);
    }
    assert forall|x: Seq<char>| spec_sort(b).to_set().contains(x) implies spec_sort(
        a,
    ).to_set().contains(x) by {
        lemma_sort_contains(b, x);
        assert(b.to_set().contains(x));
        assert(a.contains(x));
        lemma_sort_contains(a, x);
    }
    assert(spec_sort(a).to_set() =~= spec_sort(b).to_set());
    lemma_sorted_unique(spec_sort(a), spec_sort(b));
}

/// Inserts a clone of `x` into the sorted vector `v`, keeping it sorted.
fn insert_sorted(v: &mut Vec<String>, x: &String)
    ensures
        seq_views(final(v)@) == spec_insert(x@, seq_views(old(v)@)),
{
    let ghost orig = seq_views(old(v)@);
    let mut p: usize = 0;
    let mut found = false;
    proof {
        assert(orig.take(0) =~= Seq::<Seq<char>>::empty());
        assert(orig.skip(0) =~= orig);
        assert(orig.take(0) + spec_insert(x@, orig.skip(0)) =~= spec_insert(x@, orig));
    }
    while !found && p < v.len()
        invariant
            p <= v@.len(),
            seq_views(v@) == orig,
            spec_insert(x@, orig) == orig.take(p as int) + spec_insert(x@, orig.skip(p as int)),
            found ==> p < v@.len() && lex_le(x@, orig[p as int]),
        decreases v@.len() - p + (if found {
            0int
        } else {
            1int
        }),
    {
        let ghost rest = orig.skip(p as int);
        proof {
            assert(rest[0] == orig[p as int]);
            assert(rest.skip(1) =~= orig.skip(p + 1));
        }
        if lex_le_exec(x.as_str(), v[p].as_str()) {
            found = true;
        } else {
            proof {
                assert(spec_insert(x@, rest) == seq![orig[p as int]] + spec_insert(
                    x@,
                    orig.skip(p + 1),
                ));
                assert(orig.take(p as int) + (seq![orig[p as int]] + spec_insert(
                    x@,
                    orig.skip(p + 1),
                )) =~= orig.take(p + 1) + spec_insert(x@, orig.skip(p + 1)));
            }
            p += 1;
        }
    }
    let ghost rest = orig.skip(p as int);
    proof {
        if found {
            assert(lex_le(x@, rest[0]));
            assert(spec_insert(x@, rest) == seq![x@] + rest);
        } else {
            assert(p == v@.len());
            assert(rest.len() == 0);
            assert(spec_insert(x@, rest) =~= seq![x@] + rest);
        }
    }
    v.insert(p, x.clone());
    proof {
        assert(seq_views(v@) =~= orig.take(p as int) + (seq![x@] + orig.skip(p as int)));
    }
}

/// Returns the elements of `v` in ascending lexicographic order of their views.
pub fn sort_strings(v: &Vec<String>) -> (r: Vec<String>)
    ensures
        seq_views(r@) == spec_sort(seq_views(v@)),
{
    let mut out: Vec<String> = Vec::new();
    let mut i: usize = 0;
    proof {
        assert(seq_views(v@).take(0) =~= Seq::<Seq<char>>::empty());
        assert(seq_views(out@) =~= spec_sort(seq_views(v@).take(0)));
    }
    while i < v.len()
        invariant
            i <= v@.len(),
            seq_views(out@) == spec_sort(seq_views(v@).take(i as int)),
        decreases v@.len() - i,
    {
        let ghost pre = seq_views(v@).take(i as int);
        let ghost pre1 = seq_views(v@).take(i + 1);
        insert_sorted(&mut out, &v[i]);
        proof {
            assert(pre1.drop_last() =~= pre);
            assert(pre1.last() == seq_views(v@)[i as int]);
            assert(spec_sort(pre1) == spec_insert(v@[i as int]@, spec_sort(pre)));
        }
        i += 1;
    }
    proof {
        assert(seq_views(v@).take(v@.len() as int) =~= seq_views(v@));
    }
    out
}

} // verus!
