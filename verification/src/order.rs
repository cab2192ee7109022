//! Sorting candidate lists: lexicographic order is a strict total order, and
//! a strictly sorted list is determined by the set of its elements.

use vstd::prelude::*;
use crate::text::{chars_eq, chars_of, lex_less, lex_lt};

verus! {

/// Each element comes strictly before every later one.
pub open spec fn strictly_sorted(s: Seq<Seq<char>>) -> bool {
    forall|i: int, j: int| 0 <= i < j < s.len() ==> lex_less(#[trigger] s[i], #[trigger] s[j])
}

pub proof fn lemma_lex_irreflexive(a: Seq<char>)
    ensures
        !lex_less(a, a),
    decreases a.len(),
{
    if a.len() > 0 {
        lemma_lex_irreflexive(a.drop_first());
    }
}

pub proof fn lemma_lex_transitive(a: Seq<char>, b: Seq<char>, c: Seq<char>)
    requires
        lex_less(a, b),
        lex_less(b, c),
    ensures
        lex_less(a, c),
    decreases a.len(),
{
    if a.len() > 0 && b.len() > 0 && c.len() > 0 && a[0] == b[0] && b[0] == c[0] {
        lemma_lex_transitive(a.drop_first(), b.drop_first(), c.drop_first());
    }
}

pub proof fn lemma_lex_total(a: Seq<char>, b: Seq<char>)
    ensures
        a == b || lex_less(a, b) || lex_less(b, a),
    decreases a.len(),
{
    if a.len() > 0 && b.len() > 0 {
        if a[0] == b[0] {
            lemma_lex_total(a.drop_first(), b.drop_first());
            if a.drop_first() == b.drop_first() {
                assert(a =~= seq![a[0]] + a.drop_first());
                assert(b =~= seq![b[0]] + b.drop_first());
            }
        }
    } else if a.len() == 0 && b.len() == 0 {
        assert(a =~= b);
    }
}

pub proof fn lemma_lex_asymmetric(a: Seq<char>, b: Seq<char>)
    requires
        lex_less(a, b),
    ensures
        !lex_less(b, a),
{
    if lex_less(b, a) {
        lemma_lex_transitive(a, b, a);
        lemma_lex_irreflexive(a);
    }
}

/// Two strictly sorted lists with the same elements are the same list.
pub proof fn lemma_sorted_unique(s: Seq<Seq<char>>, t: Seq<Seq<char>>)
    requires
        strictly_sorted(s),
        strictly_sorted(t),
        s.to_set() == t.to_set(),
    ensures
        s == t,
    decreases s.len(),
{
    if s.len() == 0 {
        if t.len() > 0 {
            assert(t.to_set().contains(t[0]));
            assert(!s.to_set().contains(t[0]));
        }
        assert(s =~= t);
    } else if t.len() == 0 {
        assert(s.to_set().contains(s[0]));
    } else {
        // The first elements are the least elements of the same set.
        assert(s.to_set().contains(s[0]));
        assert(t.to_set().contains(t[0]));
        let i = choose|i: int| 0 <= i < t.len() && t[i] == s[0];
        let j = choose|j: int| 0 <= j < s.len() && s[j] == t[0];
        if s[0] != t[0] {
            assert(i > 0);
            assert(j > 0);
            assert(lex_less(t[0], t[i]));
            assert(lex_less(s[0], s[j]));
            lemma_lex_asymmetric(s[0], t[0]);
        }
        let s1 = s.drop_first();
        let t1 = t.drop_first();
        assert forall|x: Seq<char>| s1.to_set().contains(x) implies t1.to_set().contains(x) by {
            let k = choose|k: int| 0 <= k < s1.len() && s1[k] == x;
            assert(s[k + 1] == x);
            assert(t.to_set().contains(x));
            let m = choose|m: int| 0 <= m < t.len() && t[m] == x;
            if m == 0 {
                assert(lex_less(s[0], s[k + 1]));
                lemma_lex_irreflexive(x);
            }
            assert(t1[m - 1] == x);
        }
        assert forall|x: Seq<char>| t1.to_set().contains(x) implies s1.to_set().contains(x) by {
            let k = choose|k: int| 0 <= k < t1.len() && t1[k] == x;
            assert(t[k + 1] == x);
            assert(s.to_set().contains(x));
            let m = choose|m: int| 0 <= m < s.len() && s[m] == x;
            if m == 0 {
                assert(lex_less(t[0], t[k + 1]));
                lemma_lex_irreflexive(x);
            }
            assert(s1[m - 1] == x);
        }
        assert(s1.to_set() =~= t1.to_set());
        lemma_sorted_unique(s1, t1);
        assert(s =~= seq![s[0]] + s1);
        assert(t =~= seq![t[0]] + t1);
    }
}

/// Where `cc` belongs in the strictly sorted `out`: the first position whose
/// element does not come before it, and whether that element equals it.
fn find_slot(out: &Vec<String>, cc: &Vec<char>) -> (r: (usize, bool))
    ensures
        r.0 <= out.len(),
        forall|i: int| 0 <= i < r.0 ==> lex_less(#[trigger] out.deep_view()[i], cc@),
        r.0 < out.len() ==> !lex_less(out.deep_view()[r.0 as int], cc@) && r.1 == (
        out.deep_view()[r.0 as int] == cc@),
        r.0 == out.len() ==> !r.1,
{
    let mut pos: usize = 0;
    while pos < out.len()
        invariant
            pos <= out.len(),
            forall|i: int| 0 <= i < pos ==> lex_less(#[trigger] out.deep_view()[i], cc@),
        decreases out.len() - pos,
    {
        let oc = chars_of(out[pos].as_str());
        assert(oc@ == out.deep_view()[pos as int]);
        if !lex_lt(&oc, cc) {
            return (pos, chars_eq(&oc, cc));
        }
        pos = pos + 1;
    }
    (pos, false)
}

/// The candidates sorted, each once.
pub fn sort_unique(candidates: &Vec<String>) -> (r: Vec<String>)
    ensures
        strictly_sorted(r.deep_view()),
        r.deep_view().to_set() == candidates.deep_view().to_set(),
{
    let ghost cv = candidates.deep_view();
    let mut out: Vec<String> = Vec::new();
    let mut k: usize = 0;
    assert(out.deep_view().to_set() =~= cv.take(0).to_set());
    while k < candidates.len()
        invariant
            k <= candidates.len(),
            cv == candidates.deep_view(),
            strictly_sorted(out.deep_view()),
            out.deep_view().to_set() == cv.take(k as int).to_set(),
        decreases candidates.len() - k,
    {
        let c = &candidates[k];
        let cc = chars_of(c.as_str());
        let ghost x = c@;
        let ghost ov = out.deep_view();
        let (pos, same) = find_slot(&out, &cc);
        let ghost prev = cv.take(k as int);
        let ghost next = cv.take(k + 1);
        assert(next =~= prev.push(x));
        if same {
            assert(ov[pos as int] == x);
            assert(ov.to_set() =~= next.to_set()) by {
                assert forall|y: Seq<char>| next.to_set().contains(y) implies ov.to_set().contains(y) by {
                    if y != x {
                        let m = choose|m: int| 0 <= m < next.len() && #[trigger] next[m] == y;
                        assert(prev[m] == y);
                        assert(prev.to_set().contains(y));
                    }
                }
                assert forall|y: Seq<char>| ov.to_set().contains(y) implies next.to_set().contains(y) by {
                    assert(prev.to_set().contains(y));
                    let m = choose|m: int| 0 <= m < prev.len() && #[trigger] prev[m] == y;
                    assert(next[m] == y);
                }
            }
        } else {
            proof {
                if pos < ov.len() {
                    lemma_lex_total(ov[pos as int], x);
                }
            }
            out.insert(pos, c.clone());
            let ghost nv = out.deep_view();
            assert(nv =~= ov.insert(pos as int, x));
            assert forall|i: int, j: int| 0 <= i < j < nv.len() implies lex_less(
                #[trigger] nv[i],
                #[trigger] nv[j],
            ) by {
                if j < pos {
                    assert(lex_less(ov[i], ov[j]));
                } else if j == pos {
                } else if i < pos {
                    assert(lex_less(ov[i], x));
                    assert(lex_less(x, ov[pos as int]));
                    if j - 1 > pos {
                        assert(lex_less(ov[pos as int], ov[j - 1]));
                        lemma_lex_transitive(x, ov[pos as int], ov[j - 1]);
                    }
                    lemma_lex_transitive(ov[i], x, ov[j - 1]);
                } else if i == pos {
                    assert(lex_less(x, ov[pos as int]));
                    if j - 1 > pos {
                        assert(lex_less(ov[pos as int], ov[j - 1]));
                        lemma_lex_transitive(x, ov[pos as int], ov[j - 1]);
                    }
                } else {
                    assert(lex_less(ov[i - 1], ov[j - 1]));
                }
            }
            assert(nv.to_set() =~= next.to_set()) by {
                assert forall|y: Seq<char>| next.to_set().contains(y) implies nv.to_set().contains(y) by {
                    if y == x {
                        assert(nv[pos as int] == x);
                    } else {
                        let m = choose|m: int| 0 <= m < next.len() && #[trigger] next[m] == y;
                        assert(prev[m] == y);
                        assert(prev.to_set().contains(y));
                        assert(ov.to_set().contains(y));
                        let q = choose|q: int| 0 <= q < ov.len() && #[trigger] ov[q] == y;
                        if q < pos {
                            assert(nv[q] == y);
                        } else {
                            assert(nv[q + 1] == y);
                        }
                    }
                }
                assert forall|y: Seq<char>| nv.to_set().contains(y) implies next.to_set().contains(y) by {
                    let q = choose|q: int| 0 <= q < nv.len() && #[trigger] nv[q] == y;
                    if q == pos {
                        assert(next[k as int] == y);
                    } else {
                        let q2: int = if q < pos { q } else { q - 1 };
                        assert(ov[q2] == y);
                        assert(ov.to_set().contains(y));
                        assert(prev.to_set().contains(y));
                        let m = choose|m: int| 0 <= m < prev.len() && #[trigger] prev[m] == y;
                        assert(next[m] == y);
                    }
                }
            }
        }
        k = k + 1;
    }
    assert(cv.take(candidates.len() as int) =~= cv);
    out
}

} // verus!
