//! Character-level helpers on strings: conversion between `&str`, `String`
//! and character vectors, comparison, prefixes, joining and ordering.

use vstd::prelude::*;

verus! {

/// `p` is a prefix of `s`.
pub open spec fn is_prefix_of(p: Seq<char>, s: Seq<char>) -> bool {
    p.len() <= s.len() && s.subrange(0, p.len() as int) == p
}

/// The parts joined with `sep` between neighbours (and nothing around them).
pub open spec fn join_seqs(parts: Seq<Seq<char>>, sep: Seq<char>) -> Seq<char>
    decreases parts.len(),
{
    if parts.len() == 0 {
        seq![]
    } else if parts.len() == 1 {
        parts[0]
    } else {
        join_seqs(parts.drop_last(), sep) + sep + parts.last()
    }
}

/// Lexicographic order on character sequences, compared code point by code
/// point; a proper prefix comes first.  For UTF-8 strings this is the order
/// of `str`'s `Ord`, which compares the encoded bytes.
pub open spec fn lex_less(a: Seq<char>, b: Seq<char>) -> bool
    decreases a.len(),
{
    if a.len() == 0 {
        b.len() > 0
    } else if b.len() == 0 {
        false
    } else if a[0] != b[0] {
        (a[0] as int) < (b[0] as int)
    } else {
        lex_less(a.drop_first(), b.drop_first())
    }
}

/// Appends one character; `String::push` of std.
#[verifier::external_body]
pub(crate) fn push_char(s: &mut String, c: char)
    ensures
        final(s)@ == old(s)@.push(c),
{
    s.push(c);
}

/// The characters of `s`, in order.
pub fn chars_of(s: &str) -> (out: Vec<char>)
    ensures
        out@ == s@,
{
    let mut out: Vec<char> = Vec::new();
    for c in it: s.chars()
        invariant
            out@ == it.seq().take(it.index() as int),
            it.seq() == s@,
    {
        out.push(c);
    }
    out
}

/// The string made of the characters `v[from..to]`.
pub fn string_of_range(v: &Vec<char>, from: usize, to: usize) -> (s: String)
    requires
        from <= to <= v.len(),
    ensures
        s@ == v@.subrange(from as int, to as int),
{
    let mut s = String::new();
    let mut i: usize = from;
    while i < to
        invariant
            from <= i <= to <= v.len(),
            s@ == v@.subrange(from as int, i as int),
        decreases to - i,
    {
        push_char(&mut s, v[i]);
        i = i + 1;
        assert(s@ =~= v@.subrange(from as int, i as int));
    }
    s
}

/// The string made of all characters of `v`.
pub fn string_of(v: &Vec<char>) -> (s: String)
    ensures
        s@ == v@,
{
    let s = string_of_range(v, 0, v.len());
    assert(v@.subrange(0, v@.len() as int) =~= v@);
    s
}

/// Whether two character vectors are equal.
pub fn chars_eq(a: &Vec<char>, b: &Vec<char>) -> (r: bool)
    ensures
        r == (a@ == b@),
{
    if a.len() != b.len() {
        return false;
    }
    let mut i: usize = 0;
    while i < a.len()
        invariant
            a.len() == b.len(),
            i <= a.len(),
            forall|j: int| 0 <= j < i ==> a@[j] == b@[j],
        decreases a.len() - i,
    {
        if a[i] != b[i] {
            return false;
        }
        i = i + 1;
    }
    assert(a@ =~= b@);
    true
}

/// Whether two strings are equal.
pub fn str_eq(a: &str, b: &str) -> (r: bool)
    ensures
        r == (a@ == b@),
{
    let va = chars_of(a);
    let vb = chars_of(b);
    chars_eq(&va, &vb)
}

/// Whether `p` is a prefix of `s`.
pub fn starts_with(s: &str, p: &str) -> (r: bool)
    ensures
        r == is_prefix_of(p@, s@),
{
    let vs = chars_of(s);
    let vp = chars_of(p);
    if vp.len() > vs.len() {
        return false;
    }
    let mut i: usize = 0;
    while i < vp.len()
        invariant
            vs@ == s@,
            vp@ == p@,
            vp.len() <= vs.len(),
            i <= vp.len(),
            forall|j: int| 0 <= j < i ==> vs@[j] == vp@[j],
        decreases vp.len() - i,
    {
        if vs[i] != vp[i] {
            proof {
                if vs@.subrange(0, vp@.len() as int) == vp@ {
                    assert(vs@.subrange(0, vp@.len() as int)[i as int] == vp@[i as int]);
                }
            }
            return false;
        }
        i = i + 1;
    }
    assert(vs@.subrange(0, vp@.len() as int) =~= vp@);
    true
}

/// The parts joined by `sep`.
pub fn join_with(parts: &Vec<String>, sep: &str) -> (s: String)
    ensures
        s@ == join_seqs(parts.deep_view(), sep@),
{
    let ghost dv = parts.deep_view();
    let mut s = String::new();
    let mut i: usize = 0;
    while i < parts.len()
        invariant
            i <= parts.len(),
            dv == parts.deep_view(),
            dv.len() == parts.len(),
            s@ == join_seqs(dv.take(i as int), sep@),
        decreases parts.len() - i,
    {
        if i != 0 {
            s.append(sep);
        }
        s.append(parts[i].as_str());
        assert(dv.take(i + 1).drop_last() =~= dv.take(i as int));
        i = i + 1;
    }
    assert(dv.take(parts.len() as int) =~= dv);
    s
}

/// Whether `a` comes strictly before `b` in lexicographic order.
pub fn lex_lt(a: &Vec<char>, b: &Vec<char>) -> (r: bool)
    ensures
        r == lex_less(a@, b@),
{
    let mut i: usize = 0;
    assert(a@.skip(0) =~= a@);
    assert(b@.skip(0) =~= b@);
    while i < a.len() && i < b.len() && a[i] == b[i]
        invariant
            i <= a.len(),
            i <= b.len(),
            lex_less(a@, b@) == lex_less(a@.skip(i as int), b@.skip(i as int)),
        decreases a.len() - i,
    {
        assert(a@.skip(i as int).drop_first() =~= a@.skip(i + 1));
        assert(b@.skip(i as int).drop_first() =~= b@.skip(i + 1));
        i = i + 1;
    }
    if i == a.len() {
        i < b.len()
    } else if i == b.len() {
        false
    } else {
        a[i] < b[i]
    }
}

/// The index of the last `/` in `s`, or -1 when there is none.
pub open spec fn last_slash(s: Seq<char>) -> int
    decreases s.len(),
{
    if s.len() == 0 {
        -1
    } else if s.last() == '/' {
        s.len() - 1
    } else {
        last_slash(s.drop_last())
    }
}

/// What comes before the last `/` of `s`; empty when `s` has no `/`.
/// This is the parts of `s` split at `/`, all but the last, joined by `/`.
pub open spec fn before_last_slash(s: Seq<char>) -> Seq<char> {
    if last_slash(s) < 0 {
        seq![]
    } else {
        s.subrange(0, last_slash(s))
    }
}

/// What comes after the last `/` of `s`; all of `s` when it has no `/`.
/// This is the last of the parts of `s` split at `/`.
pub open spec fn after_last_slash(s: Seq<char>) -> Seq<char> {
    s.subrange(last_slash(s) + 1, s.len() as int)
}

pub proof fn lemma_last_slash(s: Seq<char>)
    ensures
        -1 <= last_slash(s) < s.len(),
        last_slash(s) >= 0 ==> s[last_slash(s)] == '/',
        forall|k: int| last_slash(s) < k < s.len() ==> s[k] != '/',
    decreases s.len(),
{
    if s.len() > 0 && s.last() != '/' {
        lemma_last_slash(s.drop_last());
        assert forall|k: int| last_slash(s) < k < s.len() implies s[k] != '/' by {
            if k < s.len() - 1 {
                assert(s.drop_last()[k] == s[k]);
            }
        }
    }
}

/// A path with a `/` is what comes before its last `/`, the `/`, and what
/// comes after it; a path without one is all "after".
pub proof fn lemma_split_at_last_slash(s: Seq<char>)
    ensures
        last_slash(s) >= 0 ==> s == before_last_slash(s) + seq!['/'] + after_last_slash(s),
        last_slash(s) < 0 ==> after_last_slash(s) == s && before_last_slash(s) == Seq::<char>::empty(),
        !after_last_slash(s).contains('/'),
{
    lemma_last_slash(s);
    if last_slash(s) >= 0 {
        assert(s =~= before_last_slash(s) + seq!['/'] + after_last_slash(s));
    } else {
        assert(after_last_slash(s) =~= s);
    }
    assert forall|k: int| 0 <= k < after_last_slash(s).len() implies after_last_slash(s)[k] != '/' by {
        assert(after_last_slash(s)[k] == s[last_slash(s) + 1 + k]);
    }
}

/// The index of the last `/` in `v`, if any.
fn last_slash_index(v: &Vec<char>) -> (r: Option<usize>)
    ensures
        match r {
            Some(k) => k as int == last_slash(v@),
            None => last_slash(v@) == -1,
        },
        r matches Some(k) ==> k < v.len(),
{
    let mut j: usize = v.len();
    assert(v@.take(v.len() as int) =~= v@);
    while j > 0 && v[j - 1] != '/'
        invariant
            j <= v.len(),
            last_slash(v@) == last_slash(v@.take(j as int)),
        decreases j,
    {
        assert(v@.take(j as int).drop_last() =~= v@.take(j - 1));
        j = j - 1;
    }
    if j == 0 {
        assert(v@.take(0) =~= seq![]);
        None
    } else {
        Some(j - 1)
    }
}

/// What comes before the last `/` of `s` (empty when there is none).
pub fn before_last_slash_of(s: &str) -> (r: String)
    ensures
        r@ == before_last_slash(s@),
{
    let v = chars_of(s);
    match last_slash_index(&v) {
        Some(k) => string_of_range(&v, 0, k),
        None => String::new(),
    }
}

/// What comes after the last `/` of `s` (all of it when there is none).
pub fn after_last_slash_of(s: &str) -> (r: String)
    ensures
        r@ == after_last_slash(s@),
{
    let v = chars_of(s);
    proof {
        lemma_last_slash(v@);
    }
    match last_slash_index(&v) {
        Some(k) => string_of_range(&v, k + 1, v.len()),
        None => string_of_range(&v, 0, v.len()),
    }
}

} // verus!
