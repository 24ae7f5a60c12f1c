//! Template rendering: literal placeholder substitution over character
//! sequences, verified against a recursive replacement specification.

use vstd::prelude::*;

verus! {

/// The result of replacing, left to right, every non-overlapping occurrence
/// of `from` in `s` by `to`. An empty pattern replaces nothing.
pub open spec fn spec_replace(s: Seq<char>, from: Seq<char>, to: Seq<char>) -> Seq<char>
    decreases s.len(),
{
    if from.len() == 0 || s.len() < from.len() {
        s
    } else if s.subrange(0, from.len() as int) == from {
        to + spec_replace(s.skip(from.len() as int), from, to)
    } else {
        seq![s[0]] + spec_replace(s.skip(1), from, to)
    }
}

/// `pat` occurs as a contiguous subsequence of `s`.
pub open spec fn occurs(s: Seq<char>, pat: Seq<char>) -> bool {
    exists|k: int|
        0 <= k && k + pat.len() <= s.len() && #[trigger] s.subrange(k, k + pat.len() as int)
            == pat
}

/// True of `s` at position `i` iff the next `from.len()` characters equal `from`.
fn matches_at(s: &str, from: &str, i: usize, m: usize) -> (r: bool)
    requires
        m == from@.len(),
        i + m <= s@.len(),
        s@.len() <= usize::MAX,
    ensures
        r <==> s@.subrange(i as int, i + m) == from@,
{
    let mut j: usize = 0;
    while j < m
        invariant
            j <= m,
            m == from@.len(),
            i + m <= s@.len(),
            s@.len() <= usize::MAX,
            forall|k: int| 0 <= k < j ==> s@[i + k] == from@[k],
        decreases m - j,
    {
        let sc = s.get_char(i + j);
        let fc = from.get_char(j);
        if sc != fc {
            proof {
                assert(s@.subrange(i as int, i + m)[j as int] == s@[i + j]);
            }
            return false;
        }
        j += 1;
    }
    proof {
        assert(s@.subrange(i as int, i + m) =~= from@);
    }
    true
}

/// Replaces every non-overlapping occurrence of `from` in `s` by `to`,
/// scanning left to right.
pub fn replace_all(s: &str, from: &str, to: &str) -> (r: String)
    ensures
        r@ == spec_replace(s@, from@, to@),
{
    let n = s.unicode_len();
    let m = from.unicode_len();
    if m == 0 {
        return String::from_str(s);
    }
    let mut out = String::new();
    let mut i: usize = 0;
    proof {
        assert(s@.skip(0) =~= s@);
        assert(Seq::<char>::empty() + spec_replace(s@, from@, to@) =~= spec_replace(
            s@,
            from@,
            to@,
        ));
    }
    while i < n
        invariant
            i <= n,
            n == s@.len(),
            m == from@.len(),
            m > 0,
            spec_replace(s@, from@, to@) == out@ + spec_replace(
                s@.skip(i as int),
                from@,
                to@,
            ),
        decreases n - i,
    {
        let ghost rest = s@.skip(i as int);
        if m <= n - i && matches_at(s, from, i, m) {
            out.append(to);
            proof {
                assert(rest.subrange(0, m as int) =~= s@.subrange(i as int, i + m));
                assert(rest.skip(m as int) =~= s@.skip(i + m));
                assert(spec_replace(rest, from@, to@) == to@ + spec_replace(
                    s@.skip(i + m),
                    from@,
                    to@,
                ));
            }
            i += m;
        } else {
            let piece = s.substring_char(i, i + 1);
            out.append(piece);
            proof {
                assert(piece@ =~= seq![s@[i as int]]);
                assert(rest.skip(1) =~= s@.skip(i + 1));
                if i + m <= n {
                    assert(rest.subrange(0, m as int) =~= s@.subrange(i as int, i + m));
                    assert(spec_replace(rest, from@, to@) == seq![s@[i as int]] + spec_replace(
                        s@.skip(i + 1),
                        from@,
                        to@,
                    ));
                } else {
                    assert(rest.len() < m);
                    assert(spec_replace(rest, from@, to@) == rest);
                    assert(s@.skip(i + 1).len() < m);
                    assert(spec_replace(s@.skip(i + 1), from@, to@) == s@.skip(i + 1));
                    assert(rest =~= seq![s@[i as int]] + s@.skip(i + 1));
                }
            }
            i += 1;
        }
    }
    proof {
        assert(s@.skip(n as int) =~= Seq::<char>::empty());
        assert(spec_replace(s@.skip(n as int), from@, to@) == s@.skip(n as int));
        assert(out@ + Seq::<char>::empty() =~= out@);
    }
    out
}

/// Character-wise string equality: true iff the views are equal.
pub fn str_eq(a: &str, b: &str) -> (r: bool)
    ensures
        r == (a@ == b@),
{
    let na = a.unicode_len();
    let nb = b.unicode_len();
    if na != nb {
        return false;
    }
    let mut i: usize = 0;
    while i < na
        invariant
            i <= na,
            na == a@.len(),
            na == b@.len(),
            forall|k: int| 0 <= k < i ==> a@[k] == b@[k],
        decreases na - i,
    {
        if a.get_char(i) != b.get_char(i) {
            return false;
        }
        i += 1;
    }
    proof {
        assert(a@ =~= b@);
    }
    true
}

/// One placeholder binding: occurrences of `name` are replaced by `value`.
pub struct Binding {
    pub name: String,
    pub value: String,
}

impl Binding {
    pub open spec fn view_pair(self) -> (Seq<char>, Seq<char>) {
        (self.name@, self.value@)
    }
}

/// The bindings of a render call, as pairs of character sequences.
pub open spec fn bindings_view(bs: Seq<Binding>) -> Seq<(Seq<char>, Seq<char>)> {
    bs.map_values(|b: Binding| b.view_pair())
}

/// The result of applying each binding's replacement to `t`, in order.
pub open spec fn spec_render(t: Seq<char>, bs: Seq<(Seq<char>, Seq<char>)>) -> Seq<char>
    decreases bs.len(),
{
    if bs.len() == 0 {
        t
    } else {
        spec_render(spec_replace(t, bs[0].0, bs[0].1), bs.skip(1))
    }
}

/// Renders a template: for each binding, in order, every occurrence of its
/// placeholder name is replaced by its value. A placeholder with no binding
/// is left verbatim (see `lemma_render_unmatched`).
pub fn render(template: &str, bindings: &Vec<Binding>) -> (r: String)
    ensures
        r@ == spec_render(template@, bindings_view(bindings@)),
{
    let ghost bv = bindings_view(bindings@);
    let mut cur = String::from_str(template);
    let mut i: usize = 0;
    proof {
        assert(bv.skip(0) =~= bv);
    }
    while i < bindings.len()
        invariant
            i <= bindings@.len(),
            bv == bindings_view(bindings@),
            spec_render(template@, bv) == spec_render(cur@, bv.skip(i as int)),
        decreases bindings@.len() - i,
    {
        let ghost tail = bv.skip(i as int);
        let next = replace_all(cur.as_str(), bindings[i].name.as_str(), bindings[i].value.as_str());
        proof {
            assert(tail[0] == bv[i as int]);
            assert(tail.skip(1) =~= bv.skip(i + 1));
            assert(spec_render(cur@, tail) == spec_render(next@, bv.skip(i + 1)));
        }
        cur = next;
        i += 1;
    }
    proof {
        assert(bv.skip(i as int) =~= Seq::<(Seq<char>, Seq<char>)>::empty());
    }
    cur
}

/// A pattern that does not occur in `s` leaves `s` unchanged under replacement.
pub proof fn lemma_replace_absent(s: Seq<char>, from: Seq<char>, to: Seq<char>)
    requires
        !occurs(s, from),
    ensures
        spec_replace(s, from, to) == s,
    decreases s.len(),
{
    if from.len() == 0 {
        let k: int = 0;
        assert(s.subrange(k, k + from.len() as int) =~= from);
        assert(occurs(s, from));
    } else if s.len() < from.len() {
    } else if s.subrange(0, from.len() as int) == from {
        let k: int = 0;
        assert(s.subrange(k, k + from.len() as int) == from);
        assert(occurs(s, from));
    } else {
        assert forall|k: int|
            0 <= k && k + from.len() <= s.skip(1).len() implies #[trigger] s.skip(1).subrange(
            k,
            k + from.len() as int,
        ) != from by {
            assert(s.skip(1).subrange(k, k + from.len() as int) =~= s.subrange(
                k + 1,
                k + 1 + from.len() as int,
            ));
            assert(!(s.subrange(k + 1, k + 1 + from.len() as int) == from));
        }
        lemma_replace_absent(s.skip(1), from, to);
        assert(seq![s[0]] + s.skip(1) =~= s);
    }
}

/// Law: rendering is deterministic. Two render calls given equal template
/// and binding views produce equal output.
pub proof fn lemma_render_deterministic(
    t1: Seq<char>,
    bs1: Seq<(Seq<char>, Seq<char>)>,
    t2: Seq<char>,
    bs2: Seq<(Seq<char>, Seq<char>)>,
)
    requires
        t1 == t2,
        bs1 == bs2,
    ensures
        spec_render(t1, bs1) == spec_render(t2, bs2),
{
}

/// Law: unknown placeholders pass through. When no binding's placeholder
/// name occurs in the template, rendering returns the template verbatim; in
/// particular a token bound by no binding is left untouched.
pub proof fn lemma_render_unmatched(t: Seq<char>, bs: Seq<(Seq<char>, Seq<char>)>)
    requires
        forall|j: int| 0 <= j < bs.len() ==> !occurs(t, #[trigger] bs[j].0),
    ensures
        spec_render(t, bs) == t,
    decreases bs.len(),
{
    if bs.len() > 0 {
        lemma_replace_absent(t, bs[0].0, bs[0].1);
        assert(forall|j: int| 0 <= j < bs.skip(1).len() ==> bs.skip(1)[j] == bs[j + 1]);
        lemma_render_unmatched(t, bs.skip(1));
    }
}

} // verus!
