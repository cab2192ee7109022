//! Finding programs on the search path.

use vstd::prelude::*;
use crate::text::{is_prefix_of, push_char, starts_with};

verus! {

/// The path of `name` inside the directory `dir`.
pub open spec fn in_dir(dir: Seq<char>, name: Seq<char>) -> Seq<char> {
    dir + seq!['/'] + name
}

/// `is_executable::is_executable`: whether there is a file at `path` and it
/// is executable.  What it returns depends on the file system at the time of
/// the call, so nothing is stated of it.
#[verifier::external_body]
fn is_executable_file(path: &str) -> (r: bool) {
    is_executable::is_executable(path)
}

/// The path of `name` inside `dir`.
pub fn path_in_dir(dir: &str, name: &str) -> (r: String)
    ensures
        r@ == in_dir(dir@, name@),
{
    let mut r = String::from_str(dir);
    push_char(&mut r, '/');
    r.append(name);
    r
}

/// The answers of the file system, in order, to whether each path is an
/// executable file.  Nothing is stated of the answers themselves.
fn probe_all(paths: &Vec<String>) -> (r: Vec<bool>)
    ensures
        r.len() == paths.len(),
{
    let mut r: Vec<bool> = Vec::new();
    let mut i: usize = 0;
    while i < paths.len()
        invariant
            i <= paths.len(),
            r.len() == i,
        decreases paths.len() - i,
    {
        r.push(is_executable_file(paths[i].as_str()));
        i = i + 1;
    }
    r
}

/// The paths of `name` inside each directory, in order.
pub open spec fn candidate_paths_of(dirs: Seq<Seq<char>>, name: Seq<char>) -> Seq<Seq<char>> {
    Seq::new(dirs.len(), |i: int| in_dir(dirs[i], name))
}

/// The path of `name` inside each directory, in order.
pub fn candidate_paths(dirs: &Vec<String>, name: &str) -> (r: Vec<String>)
    ensures
        r.deep_view() == candidate_paths_of(dirs.deep_view(), name@),
{
    let mut r: Vec<String> = Vec::new();
    let mut i: usize = 0;
    while i < dirs.len()
        invariant
            i <= dirs.len(),
            r.len() == i,
            forall|k: int| 0 <= k < i ==> (#[trigger] r@[k])@ == in_dir(dirs@[k]@, name@),
        decreases dirs.len() - i,
    {
        r.push(path_in_dir(dirs[i].as_str(), name));
        i = i + 1;
    }
    assert(r.deep_view() =~= candidate_paths_of(dirs.deep_view(), name@));
    r
}

/// The position of the first yes among the answers, if there is one.
pub fn first_answered(names: &Vec<String>, answers: &Vec<bool>) -> (r: Option<usize>)
    requires
        answers.len() == names.len(),
    ensures
        match r {
            Some(i) => i < names.len() && answers@[i as int] && forall|k: int|
                0 <= k < i ==> !answers@[k],
            None => forall|k: int| 0 <= k < names.len() ==> !answers@[k],
        },
{
    let mut i: usize = 0;
    while i < answers.len()
        invariant
            i <= answers.len(),
            answers.len() == names.len(),
            forall|k: int| 0 <= k < i ==> !answers@[k],
        decreases answers.len() - i,
    {
        if answers[i] {
            return Some(i);
        }
        i = i + 1;
    }
    None
}

/// What the search finds among the candidate paths, given the file
/// system's answer for each: the first path answered yes.
pub open spec fn first_found(paths: Seq<Seq<char>>, answers: Seq<bool>, r: Option<Seq<char>>) -> bool {
    match r {
        Some(p) => exists|i: int|
            0 <= i < paths.len() && answers[i] && (forall|k: int| 0 <= k < i ==> !answers[k])
                && p == paths[i],
        None => forall|k: int| 0 <= k < paths.len() ==> !answers[k],
    }
}

/// Looks for `name` in the directories of the search path, in order, and
/// returns the first `dir/name` that is an executable file.  Which paths
/// are executable depends on the file system: the result is the first
/// candidate path for the answers it gave, one per directory, in order.
pub fn executable(dirs: &Vec<String>, name: &str) -> (r: Option<String>)
    ensures
        exists|answers: Seq<bool>|
            answers.len() == dirs.len() && first_found(
                candidate_paths_of(dirs.deep_view(), name@),
                answers,
                match r {
                    Some(p) => Some(p@),
                    None => None,
                },
            ),
{
    let paths = candidate_paths(dirs, name);
    let answers = probe_all(&paths);
    let ghost pv = paths.deep_view();
    assert(pv.len() == dirs.len());
    assert(answers@.len() == dirs.len());
    match first_answered(&paths, &answers) {
        Some(i) => {
            let p = paths[i].clone();
            assert(first_found(pv, answers@, Some(p@)));
            Some(p)
        },
        None => {
            assert(first_found(pv, answers@, None));
            None
        },
    }
}

/// A directory of the search path and the names of the entries in it.
pub struct PathDir {
    pub dir: String,
    pub names: Vec<String>,
}

/// The elements of `s` whose flag in `keep` is set, in order.
pub open spec fn kept(s: Seq<Seq<char>>, keep: Seq<bool>) -> Seq<Seq<char>>
    decreases s.len(),
{
    if s.len() == 0 || keep.len() == 0 {
        seq![]
    } else if keep.last() {
        kept(s.drop_last(), keep.drop_last()).push(s.last())
    } else {
        kept(s.drop_last(), keep.drop_last())
    }
}

/// The names whose answer is yes, in order.
pub fn select_kept(names: &Vec<String>, answers: &Vec<bool>) -> (r: Vec<String>)
    requires
        answers.len() == names.len(),
    ensures
        r.deep_view() == kept(names.deep_view(), answers@),
        forall|i: int|
            0 <= i < names.len() && answers@[i] ==> r.deep_view().contains(#[trigger] names@[i]@),
        forall|x: Seq<char>|
            #![trigger r.deep_view().contains(x)]
            r.deep_view().contains(x) ==> exists|i: int|
                0 <= i < names.len() && answers@[i] && #[trigger] names@[i]@ == x,
{
    let ghost nv = names.deep_view();
    let mut r: Vec<String> = Vec::new();
    let mut i: usize = 0;
    assert(nv.take(0) =~= seq![]);
    while i < names.len()
        invariant
            i <= names.len(),
            answers.len() == names.len(),
            nv == names.deep_view(),
            r.deep_view() == kept(nv.take(i as int), answers@.take(i as int)),
        decreases names.len() - i,
    {
        assert(nv.take(i + 1).drop_last() =~= nv.take(i as int));
        assert(answers@.take(i + 1).drop_last() =~= answers@.take(i as int));
        assert(nv.take(i + 1).last() == names@[i as int]@);
        if answers[i] {
            let ghost before = r.deep_view();
            r.push(names[i].clone());
            assert(r.deep_view() =~= before.push(names@[i as int]@));
        }
        i = i + 1;
    }
    assert(nv.take(names.len() as int) =~= nv);
    assert(answers@.take(names.len() as int) =~= answers@);
    proof {
        law_kept_exactly_answered(nv, answers@);
        assert forall|i: int| 0 <= i < names.len() && answers@[i] implies r.deep_view().contains(
            #[trigger] names@[i]@,
        ) by {
            assert(nv[i] == names@[i]@);
        }
        assert forall|x: Seq<char>| r.deep_view().contains(x) implies exists|i: int|
            0 <= i < names.len() && answers@[i] && #[trigger] names@[i]@ == x by {
            let i = choose|i: int| 0 <= i < nv.len() && answers@[i] && nv[i] == x;
            assert(nv[i] == names@[i]@);
        }
    }
    r
}

/// The elements of `names` that start with `start`, in order.
pub open spec fn prefixed(names: Seq<Seq<char>>, start: Seq<char>) -> Seq<Seq<char>>
    decreases names.len(),
{
    if names.len() == 0 {
        seq![]
    } else if is_prefix_of(start, names.last()) {
        prefixed(names.drop_last(), start).push(names.last())
    } else {
        prefixed(names.drop_last(), start)
    }
}

/// The paths inside `dir` of the elements of `names` that start with
/// `start`, in order.
pub open spec fn prefixed_paths(dir: Seq<char>, names: Seq<Seq<char>>, start: Seq<char>) -> Seq<
    Seq<char>,
>
    decreases names.len(),
{
    if names.len() == 0 {
        seq![]
    } else if is_prefix_of(start, names.last()) {
        prefixed_paths(dir, names.drop_last(), start).push(in_dir(dir, names.last()))
    } else {
        prefixed_paths(dir, names.drop_last(), start)
    }
}

/// The entry names of all directories, in order, that start with `start`.
pub open spec fn names_with_prefix(dirs: Seq<PathDir>, start: Seq<char>) -> Seq<Seq<char>>
    decreases dirs.len(),
{
    if dirs.len() == 0 {
        seq![]
    } else {
        names_with_prefix(dirs.drop_last(), start) + prefixed(dirs.last().names.deep_view(), start)
    }
}

/// The paths of the entries of all directories, in order, whose names
/// start with `start`.
pub open spec fn paths_with_prefix(dirs: Seq<PathDir>, start: Seq<char>) -> Seq<Seq<char>>
    decreases dirs.len(),
{
    if dirs.len() == 0 {
        seq![]
    } else {
        paths_with_prefix(dirs.drop_last(), start) + prefixed_paths(
            dirs.last().dir@,
            dirs.last().names.deep_view(),
            start,
        )
    }
}

/// The entries of the search path whose names start with `start`: their
/// names and, in the same order, their paths.
pub fn executable_candidates(dirs: &Vec<PathDir>, start: &str) -> (r: (Vec<String>, Vec<String>))
    ensures
        r.0.deep_view() == names_with_prefix(dirs@, start@),
        r.1.deep_view() == paths_with_prefix(dirs@, start@),
{
    let mut names: Vec<String> = Vec::new();
    let mut paths: Vec<String> = Vec::new();
    let mut i: usize = 0;
    assert(dirs@.take(0) =~= seq![]);
    while i < dirs.len()
        invariant
            i <= dirs.len(),
            names.deep_view() == names_with_prefix(dirs@.take(i as int), start@),
            paths.deep_view() == paths_with_prefix(dirs@.take(i as int), start@),
        decreases dirs.len() - i,
    {
        let dir = &dirs[i];
        let ghost done_n = names_with_prefix(dirs@.take(i as int), start@);
        let ghost done_p = paths_with_prefix(dirs@.take(i as int), start@);
        let ghost nv = dir.names.deep_view();
        let mut j: usize = 0;
        assert(nv.take(0) =~= seq![]);
        assert(done_n + prefixed(nv.take(0), start@) =~= done_n);
        assert(done_p + prefixed_paths(dir.dir@, nv.take(0), start@) =~= done_p);
        while j < dir.names.len()
            invariant
                j <= dir.names.len(),
                nv == dir.names.deep_view(),
                names.deep_view() == done_n + prefixed(nv.take(j as int), start@),
                paths.deep_view() == done_p + prefixed_paths(dir.dir@, nv.take(j as int), start@),
            decreases dir.names.len() - j,
        {
            let name = &dir.names[j];
            assert(nv.take(j + 1).drop_last() =~= nv.take(j as int));
            assert(nv.take(j + 1).last() == name@);
            if starts_with(name.as_str(), start) {
                let ghost bn = names.deep_view();
                let ghost bp = paths.deep_view();
                names.push(name.clone());
                let path = path_in_dir(dir.dir.as_str(), name.as_str());
                let ghost pv = path@;
                paths.push(path);
                assert(names.deep_view() =~= bn.push(name@));
                assert(paths.deep_view() =~= bp.push(pv));
                assert(done_n + prefixed(nv.take(j + 1), start@) =~= bn.push(name@));
                assert(done_p + prefixed_paths(dir.dir@, nv.take(j + 1), start@) =~= bp.push(pv));
            }
            j = j + 1;
        }
        assert(nv.take(nv.len() as int) =~= nv);
        assert(dirs@.take(i + 1).drop_last() =~= dirs@.take(i as int));
        assert(dirs@.take(i + 1).last() == dirs@[i as int]);
        i = i + 1;
    }
    assert(dirs@.take(dirs.len() as int) =~= dirs@);
    (names, paths)
}

pub proof fn lemma_prefixed_paths_len(dir: Seq<char>, names: Seq<Seq<char>>, start: Seq<char>)
    ensures
        prefixed_paths(dir, names, start).len() == prefixed(names, start).len(),
    decreases names.len(),
{
    if names.len() > 0 {
        lemma_prefixed_paths_len(dir, names.drop_last(), start);
    }
}

pub proof fn lemma_paths_with_prefix_len(dirs: Seq<PathDir>, start: Seq<char>)
    ensures
        paths_with_prefix(dirs, start).len() == names_with_prefix(dirs, start).len(),
    decreases dirs.len(),
{
    if dirs.len() > 0 {
        lemma_paths_with_prefix_len(dirs.drop_last(), start);
        lemma_prefixed_paths_len(dirs.last().dir@, dirs.last().names.deep_view(), start);
    }
}

/// The entries of the search path directories that start with `start` and
/// are executable files, in the order of the directories and of their
/// entries.  Which entries are executable depends on the file system: the
/// result keeps the names whose paths it answered yes for, one answer per
/// entry that starts with `start`, in order.
pub fn find_executables_in_path(dirs: &Vec<PathDir>, start: &str) -> (r: Vec<String>)
    ensures
        exists|answers: Seq<bool>|
            answers.len() == paths_with_prefix(dirs@, start@).len() && r.deep_view() == kept(
                names_with_prefix(dirs@, start@),
                answers,
            ),
        forall|x: Seq<char>|
            #![trigger r.deep_view().contains(x)]
            r.deep_view().contains(x) ==> exists|i: int, j: int|
                0 <= i < dirs.len() && 0 <= j < dirs@[i].names.len() && is_prefix_of(
                    start@,
                    dirs@[i].names.deep_view()[j],
                ) && x == #[trigger] dirs@[i].names.deep_view()[j],
{
    let (names, paths) = executable_candidates(dirs, start);
    proof {
        lemma_paths_with_prefix_len(dirs@, start@);
    }
    let answers = probe_all(&paths);
    let r = select_kept(&names, &answers);
    proof {
        law_candidates_aligned(dirs@, start@);
        assert forall|x: Seq<char>| r.deep_view().contains(x) implies exists|i: int, j: int|
            0 <= i < dirs.len() && 0 <= j < dirs@[i].names.len() && is_prefix_of(
                start@,
                dirs@[i].names.deep_view()[j],
            ) && x == #[trigger] dirs@[i].names.deep_view()[j] by {
            let k = choose|k: int| 0 <= k < names.len() && answers@[k] && #[trigger] names@[k]@ == x;
            assert(names.deep_view()[k] == names@[k]@);
            assert(candidate_found(dirs@, start@, k));
            let (i, j) = choose|i: int, j: int| #[trigger] candidate_is(dirs@, start@, k, i, j);
        }
    }
    r
}

/// The answers that a file system gives for the paths, where `ok` says
/// which paths are executable files.
pub open spec fn answers_for(paths: Seq<Seq<char>>, ok: spec_fn(Seq<char>) -> bool) -> Seq<bool> {
    Seq::new(paths.len(), |i: int| ok(paths[i]))
}

proof fn lemma_prefix_transitive(a: Seq<char>, b: Seq<char>, c: Seq<char>)
    requires
        is_prefix_of(a, b),
        is_prefix_of(b, c),
    ensures
        is_prefix_of(a, c),
{
    assert(c.subrange(0, a.len() as int) =~= c.subrange(0, b.len() as int).subrange(0, a.len() as int));
}

proof fn lemma_kept_concat(a: Seq<Seq<char>>, ka: Seq<bool>, b: Seq<Seq<char>>, kb: Seq<bool>)
    requires
        a.len() == ka.len(),
        b.len() == kb.len(),
    ensures
        kept(a + b, ka + kb) == kept(a, ka) + kept(b, kb),
    decreases b.len(),
{
    if b.len() == 0 {
        assert(a + b =~= a);
        assert(ka + kb =~= ka);
        assert(kept(a, ka) + kept(b, kb) =~= kept(a, ka));
    } else {
        lemma_kept_concat(a, ka, b.drop_last(), kb.drop_last());
        assert((a + b).drop_last() =~= a + b.drop_last());
        assert((ka + kb).drop_last() =~= ka + kb.drop_last());
        assert((a + b).last() == b.last());
        assert((ka + kb).last() == kb.last());
        if kb.last() {
            assert(kept(a, ka) + kept(b, kb) =~= (kept(a, ka) + kept(b.drop_last(), kb.drop_last())).push(
                b.last(),
            ));
        }
    }
}

proof fn lemma_prefixed_concat(a: Seq<Seq<char>>, b: Seq<Seq<char>>, s: Seq<char>)
    ensures
        prefixed(a + b, s) == prefixed(a, s) + prefixed(b, s),
    decreases b.len(),
{
    if b.len() == 0 {
        assert(a + b =~= a);
        assert(prefixed(a, s) + prefixed(b, s) =~= prefixed(a, s));
    } else {
        lemma_prefixed_concat(a, b.drop_last(), s);
        assert((a + b).drop_last() =~= a + b.drop_last());
        assert((a + b).last() == b.last());
        if is_prefix_of(s, b.last()) {
            assert(prefixed(a, s) + prefixed(b, s) =~= (prefixed(a, s) + prefixed(b.drop_last(), s)).push(
                b.last(),
            ));
        }
    }
}

proof fn lemma_longer_prefix_in_dir(
    dir: Seq<char>,
    names: Seq<Seq<char>>,
    s1: Seq<char>,
    s2: Seq<char>,
    ok: spec_fn(Seq<char>) -> bool,
)
    requires
        is_prefix_of(s1, s2),
    ensures
        kept(prefixed(names, s2), answers_for(prefixed_paths(dir, names, s2), ok)) == prefixed(
            kept(prefixed(names, s1), answers_for(prefixed_paths(dir, names, s1), ok)),
            s2,
        ),
    decreases names.len(),
{
    lemma_prefixed_paths_len(dir, names, s1);
    lemma_prefixed_paths_len(dir, names, s2);
    if names.len() > 0 {
        let rest = names.drop_last();
        let n = names.last();
        let q = in_dir(dir, n);
        lemma_longer_prefix_in_dir(dir, rest, s1, s2, ok);
        lemma_prefixed_paths_len(dir, rest, s1);
        lemma_prefixed_paths_len(dir, rest, s2);
        let a1 = prefixed(rest, s1);
        let p1 = prefixed_paths(dir, rest, s1);
        let a2 = prefixed(rest, s2);
        let p2 = prefixed_paths(dir, rest, s2);
        let k1 = kept(a1, answers_for(p1, ok));
        if is_prefix_of(s2, n) {
            lemma_prefix_transitive(s1, s2, n);
            assert(answers_for(p1.push(q), ok) =~= answers_for(p1, ok).push(ok(q)));
            assert(answers_for(p2.push(q), ok) =~= answers_for(p2, ok).push(ok(q)));
            assert(a1.push(n).drop_last() =~= a1);
            assert(a2.push(n).drop_last() =~= a2);
            assert(answers_for(p1, ok).push(ok(q)).drop_last() =~= answers_for(p1, ok));
            assert(answers_for(p2, ok).push(ok(q)).drop_last() =~= answers_for(p2, ok));
            if ok(q) {
                assert(k1.push(n).drop_last() =~= k1);
            }
        } else if is_prefix_of(s1, n) {
            assert(answers_for(p1.push(q), ok) =~= answers_for(p1, ok).push(ok(q)));
            assert(a1.push(n).drop_last() =~= a1);
            assert(answers_for(p1, ok).push(ok(q)).drop_last() =~= answers_for(p1, ok));
            if ok(q) {
                assert(k1.push(n).drop_last() =~= k1);
            }
        } else {
            if is_prefix_of(s2, n) {
                lemma_prefix_transitive(s1, s2, n);
            }
        }
    }
}

/// A longer prefix keeps just those executables of a shorter one that start
/// with it, when the file system answers the same for the same path: in
/// particular the empty prefix lists every executable on the search path.
pub proof fn law_longer_prefix_filters(
    dirs: Seq<PathDir>,
    s1: Seq<char>,
    s2: Seq<char>,
    ok: spec_fn(Seq<char>) -> bool,
)
    requires
        is_prefix_of(s1, s2),
    ensures
        kept(names_with_prefix(dirs, s2), answers_for(paths_with_prefix(dirs, s2), ok)) == prefixed(
            kept(names_with_prefix(dirs, s1), answers_for(paths_with_prefix(dirs, s1), ok)),
            s2,
        ),
    decreases dirs.len(),
{
    if dirs.len() > 0 {
        let rest = dirs.drop_last();
        let d = dirs.last();
        let dir = d.dir@;
        let nv = d.names.deep_view();
        law_longer_prefix_filters(rest, s1, s2, ok);
        lemma_longer_prefix_in_dir(dir, nv, s1, s2, ok);
        lemma_paths_with_prefix_len(rest, s1);
        lemma_paths_with_prefix_len(rest, s2);
        lemma_prefixed_paths_len(dir, nv, s1);
        lemma_prefixed_paths_len(dir, nv, s2);
        let n1 = names_with_prefix(rest, s1);
        let p1 = paths_with_prefix(rest, s1);
        let n2 = names_with_prefix(rest, s2);
        let p2 = paths_with_prefix(rest, s2);
        let e1 = prefixed(nv, s1);
        let q1 = prefixed_paths(dir, nv, s1);
        let e2 = prefixed(nv, s2);
        let q2 = prefixed_paths(dir, nv, s2);
        assert(answers_for(p1 + q1, ok) =~= answers_for(p1, ok) + answers_for(q1, ok));
        assert(answers_for(p2 + q2, ok) =~= answers_for(p2, ok) + answers_for(q2, ok));
        lemma_kept_concat(n1, answers_for(p1, ok), e1, answers_for(q1, ok));
        lemma_kept_concat(n2, answers_for(p2, ok), e2, answers_for(q2, ok));
        lemma_prefixed_concat(
            kept(n1, answers_for(p1, ok)),
            kept(e1, answers_for(q1, ok)),
            s2,
        );
    } else {
        assert(kept(seq![], answers_for(seq![], ok)) =~= seq![]);
    }
}

/// The names kept are exactly those answered yes.
pub proof fn law_kept_exactly_answered(s: Seq<Seq<char>>, keep: Seq<bool>)
    requires
        s.len() == keep.len(),
    ensures
        forall|i: int| 0 <= i < s.len() && keep[i] ==> kept(s, keep).contains(#[trigger] s[i]),
        forall|x: Seq<char>|
            #![trigger kept(s, keep).contains(x)]
            kept(s, keep).contains(x) ==> exists|i: int| 0 <= i < s.len() && keep[i] && s[i] == x,
    decreases s.len(),
{
    if s.len() > 0 {
        let rs = s.drop_last();
        let rk = keep.drop_last();
        law_kept_exactly_answered(rs, rk);
        let k = kept(rs, rk);
        assert forall|i: int| 0 <= i < s.len() && keep[i] implies kept(s, keep).contains(
            #[trigger] s[i],
        ) by {
            if i < s.len() - 1 {
                assert(rs[i] == s[i]);
                assert(rk[i] == keep[i]);
                assert(k.contains(s[i]));
                let j = choose|j: int| 0 <= j < k.len() && k[j] == s[i];
                if keep.last() {
                    assert(kept(s, keep)[j] == s[i]);
                }
            } else {
                assert(kept(s, keep) == k.push(s.last()));
                assert(kept(s, keep)[k.len() as int] == s[i]);
            }
        }
        assert forall|x: Seq<char>| kept(s, keep).contains(x) implies exists|i: int|
            0 <= i < s.len() && keep[i] && s[i] == x by {
            let j = choose|j: int| 0 <= j < kept(s, keep).len() && kept(s, keep)[j] == x;
            if keep.last() && j == k.len() {
                assert(s[s.len() - 1] == x);
            } else {
                assert(k[j] == x);
                assert(k.contains(x));
                let i = choose|i: int| 0 <= i < rs.len() && rk[i] && rs[i] == x;
                assert(s[i] == rs[i]);
                assert(keep[i] == rk[i]);
            }
        }
    }
}

/// Candidate `k` of a directory is its entry `j`, which starts with
/// `start`, with its path in the directory.
pub open spec fn dir_candidate_is(dir: Seq<char>, names: Seq<Seq<char>>, start: Seq<char>, k: int, j: int) -> bool {
    &&& 0 <= k < prefixed(names, start).len()
    &&& 0 <= j < names.len()
    &&& is_prefix_of(start, names[j])
    &&& prefixed(names, start)[k] == names[j]
    &&& prefixed_paths(dir, names, start)[k] == in_dir(dir, names[j])
}

/// Candidate `k` of a directory is one of its entries.
pub open spec fn dir_candidate_found(dir: Seq<char>, names: Seq<Seq<char>>, start: Seq<char>, k: int) -> bool {
    exists|j: int| #[trigger] dir_candidate_is(dir, names, start, k, j)
}

/// Within one directory, the entries with the prefix are exactly the
/// entries whose names start with it, each with its path in the directory.
proof fn lemma_prefixed_aligned(dir: Seq<char>, names: Seq<Seq<char>>, start: Seq<char>)
    ensures
        prefixed(names, start).len() == prefixed_paths(dir, names, start).len(),
        forall|k: int|
            0 <= k < prefixed(names, start).len() ==> #[trigger] dir_candidate_found(
                dir,
                names,
                start,
                k,
            ),
        forall|j: int|
            #![trigger names[j]]
            0 <= j < names.len() && is_prefix_of(start, names[j]) ==> exists|k: int| #[trigger]
                dir_candidate_is(dir, names, start, k, j),
    decreases names.len(),
{
    lemma_prefixed_paths_len(dir, names, start);
    if names.len() > 0 {
        let rest = names.drop_last();
        let n = names.last();
        let last = names.len() - 1;
        lemma_prefixed_aligned(dir, rest, start);
        lemma_prefixed_paths_len(dir, rest, start);
        let a = prefixed(rest, start);
        assert forall|k: int|
            0 <= k < prefixed(names, start).len() implies #[trigger] dir_candidate_found(
                dir,
                names,
                start,
                k,
            ) by {
            if is_prefix_of(start, n) && k == a.len() {
                assert(dir_candidate_is(dir, names, start, k, last));
            } else {
                assert(dir_candidate_found(dir, rest, start, k));
                let j = choose|j: int| #[trigger] dir_candidate_is(dir, rest, start, k, j);
                assert(names[j] == rest[j]);
                assert(dir_candidate_is(dir, names, start, k, j));
            }
        }
        assert forall|j: int|
            #![trigger names[j]]
            0 <= j < names.len() && is_prefix_of(start, names[j]) implies exists|
            k: int,
        | #[trigger] dir_candidate_is(dir, names, start, k, j) by {
            if j == last {
                assert(dir_candidate_is(dir, names, start, a.len() as int, j));
            } else {
                assert(rest[j] == names[j]);
                let k = choose|k: int| #[trigger] dir_candidate_is(dir, rest, start, k, j);
                assert(dir_candidate_is(dir, names, start, k, j));
            }
        }
    } else {
        assert(prefixed(names, start).len() == 0);
    }
}

/// Candidate `k` of the search path is entry `j` of directory `i`, which
/// starts with `start`, with its path in that directory.
pub open spec fn candidate_is(dirs: Seq<PathDir>, start: Seq<char>, k: int, i: int, j: int) -> bool {
    &&& 0 <= k < names_with_prefix(dirs, start).len()
    &&& 0 <= i < dirs.len()
    &&& 0 <= j < dirs[i].names.len()
    &&& is_prefix_of(start, dirs[i].names.deep_view()[j])
    &&& names_with_prefix(dirs, start)[k] == dirs[i].names.deep_view()[j]
    &&& paths_with_prefix(dirs, start)[k] == in_dir(dirs[i].dir@, dirs[i].names.deep_view()[j])
}

/// Candidate `k` of the search path is one of the entries of a directory.
pub open spec fn candidate_found(dirs: Seq<PathDir>, start: Seq<char>, k: int) -> bool {
    exists|i: int, j: int| #[trigger] candidate_is(dirs, start, k, i, j)
}

/// The candidates of the search path are exactly the entries whose names
/// start with the prefix, each with its path inside its directory.
pub proof fn law_candidates_aligned(dirs: Seq<PathDir>, start: Seq<char>)
    ensures
        names_with_prefix(dirs, start).len() == paths_with_prefix(dirs, start).len(),
        forall|k: int|
            0 <= k < names_with_prefix(dirs, start).len() ==> #[trigger] candidate_found(
                dirs,
                start,
                k,
            ),
        forall|i: int, j: int|
            #![trigger dirs[i].names.deep_view()[j]]
            0 <= i < dirs.len() && 0 <= j < dirs[i].names.len() && is_prefix_of(
                start,
                dirs[i].names.deep_view()[j],
            ) ==> exists|k: int| #[trigger] candidate_is(dirs, start, k, i, j),
    decreases dirs.len(),
{
    lemma_paths_with_prefix_len(dirs, start);
    if dirs.len() > 0 {
        let rest = dirs.drop_last();
        let last = dirs.len() - 1;
        let d = dirs.last();
        let nv = d.names.deep_view();
        law_candidates_aligned(rest, start);
        lemma_prefixed_aligned(d.dir@, nv, start);
        lemma_paths_with_prefix_len(rest, start);
        let n0 = names_with_prefix(rest, start);
        let p0 = paths_with_prefix(rest, start);
        let e = prefixed(nv, start);
        let q = prefixed_paths(d.dir@, nv, start);
        let nn = names_with_prefix(dirs, start);
        let pp = paths_with_prefix(dirs, start);
        assert(nn == n0 + e);
        assert(pp == p0 + q);
        assert forall|k: int| 0 <= k < nn.len() implies #[trigger] candidate_found(
            dirs,
            start,
            k,
        ) by {
            if k < n0.len() {
                assert(nn[k] == n0[k] && pp[k] == p0[k]);
                assert(candidate_found(rest, start, k));
                let (i, j) = choose|i: int, j: int| #[trigger] candidate_is(rest, start, k, i, j);
                assert(dirs[i] == rest[i]);
                assert(candidate_is(dirs, start, k, i, j));
            } else {
                let m = k - n0.len();
                assert(nn[k] == e[m] && pp[k] == q[m]);
                assert(dir_candidate_found(d.dir@, nv, start, m));
                let j = choose|j: int| #[trigger] dir_candidate_is(d.dir@, nv, start, m, j);
                assert(dirs[last] == d);
                assert(candidate_is(dirs, start, k, last, j));
            }
        }
        assert forall|i: int, j: int|
            #![trigger dirs[i].names.deep_view()[j]]
            0 <= i < dirs.len() && 0 <= j < dirs[i].names.len() && is_prefix_of(
                start,
                dirs[i].names.deep_view()[j],
            ) implies exists|k: int| #[trigger] candidate_is(dirs, start, k, i, j) by {
            if i < last {
                assert(dirs[i] == rest[i]);
                let k = choose|k: int| #[trigger] candidate_is(rest, start, k, i, j);
                assert(nn[k] == n0[k] && pp[k] == p0[k]);
                assert(candidate_is(dirs, start, k, i, j));
            } else {
                assert(dirs[i] == d);
                let m = choose|m: int| #[trigger] dir_candidate_is(d.dir@, nv, start, m, j);
                let k = n0.len() + m;
                assert(nn[k] == e[m] && pp[k] == q[m]);
                assert(candidate_is(dirs, start, k, i, j));
            }
        }
    } else {
        assert(names_with_prefix(dirs, start).len() == 0);
    }
}

/// Where the file system says which paths are executable files (`ok`), the
/// executables found for a prefix are exactly the entries of the search
/// path directories whose names start with it and whose paths are
/// executable: every such entry is found, and nothing else is.
pub proof fn law_found_executables(dirs: Seq<PathDir>, start: Seq<char>, ok: spec_fn(Seq<char>) -> bool)
    ensures
        forall|i: int, j: int|
            #![trigger dirs[i].names.deep_view()[j]]
            0 <= i < dirs.len() && 0 <= j < dirs[i].names.len() && is_prefix_of(
                start,
                dirs[i].names.deep_view()[j],
            ) && ok(in_dir(dirs[i].dir@, dirs[i].names.deep_view()[j])) ==> kept(
                names_with_prefix(dirs, start),
                answers_for(paths_with_prefix(dirs, start), ok),
            ).contains(dirs[i].names.deep_view()[j]),
        forall|x: Seq<char>|
            #![trigger kept(names_with_prefix(dirs, start), answers_for(paths_with_prefix(dirs, start), ok)).contains(x)]
            kept(names_with_prefix(dirs, start), answers_for(paths_with_prefix(dirs, start), ok)).contains(
                x,
            ) ==> exists|i: int, j: int|
                0 <= i < dirs.len() && 0 <= j < dirs[i].names.len() && is_prefix_of(
                    start,
                    dirs[i].names.deep_view()[j],
                ) && ok(in_dir(dirs[i].dir@, dirs[i].names.deep_view()[j])) && x
                    == #[trigger] dirs[i].names.deep_view()[j],
{
    let nn = names_with_prefix(dirs, start);
    let pp = paths_with_prefix(dirs, start);
    let ans = answers_for(pp, ok);
    law_candidates_aligned(dirs, start);
    law_kept_exactly_answered(nn, ans);
    assert forall|i: int, j: int|
        #![trigger dirs[i].names.deep_view()[j]]
        0 <= i < dirs.len() && 0 <= j < dirs[i].names.len() && is_prefix_of(
            start,
            dirs[i].names.deep_view()[j],
        ) && ok(in_dir(dirs[i].dir@, dirs[i].names.deep_view()[j])) implies kept(nn, ans).contains(
        dirs[i].names.deep_view()[j],
    ) by {
        let k = choose|k: int| #[trigger] candidate_is(dirs, start, k, i, j);
        assert(ans[k] == ok(pp[k]));
        assert(nn[k] == dirs[i].names.deep_view()[j]);
    }
    assert forall|x: Seq<char>| kept(nn, ans).contains(x) implies exists|i: int, j: int|
        0 <= i < dirs.len() && 0 <= j < dirs[i].names.len() && is_prefix_of(
            start,
            dirs[i].names.deep_view()[j],
        ) && ok(in_dir(dirs[i].dir@, dirs[i].names.deep_view()[j])) && x
            == #[trigger] dirs[i].names.deep_view()[j] by {
        let k = choose|k: int| 0 <= k < nn.len() && ans[k] && nn[k] == x;
        assert(candidate_found(dirs, start, k));
        let (i, j) = choose|i: int, j: int| #[trigger] candidate_is(dirs, start, k, i, j);
        assert(ans[k] == ok(pp[k]));
    }
}

/// Given the file system's answers for the candidate paths, what the search
/// finds is determined: the first path answered yes, whatever way the
/// answers are read.
pub proof fn law_first_found_determined(
    paths: Seq<Seq<char>>,
    answers: Seq<bool>,
    f1: Option<Seq<char>>,
    f2: Option<Seq<char>>,
)
    requires
        answers.len() == paths.len(),
        first_found(paths, answers, f1),
        first_found(paths, answers, f2),
    ensures
        f1 == f2,
{
    match (f1, f2) {
        (Some(p1), Some(p2)) => {
            let i1 = choose|i: int|
                0 <= i < paths.len() && answers[i] && (forall|k: int| 0 <= k < i ==> !answers[k])
                    && p1 == paths[i];
            let i2 = choose|i: int|
                0 <= i < paths.len() && answers[i] && (forall|k: int| 0 <= k < i ==> !answers[k])
                    && p2 == paths[i];
            if i1 < i2 {
                assert(!answers[i1]);
            } else if i2 < i1 {
                assert(!answers[i2]);
            }
        },
        (Some(p1), None) => {
            let i1 = choose|i: int|
                0 <= i < paths.len() && answers[i] && (forall|k: int| 0 <= k < i ==> !answers[k])
                    && p1 == paths[i];
            assert(!answers[i1]);
        },
        (None, Some(p2)) => {
            let i2 = choose|i: int|
                0 <= i < paths.len() && answers[i] && (forall|k: int| 0 <= k < i ==> !answers[k])
                    && p2 == paths[i];
            assert(!answers[i2]);
        },
        (None, None) => {},
    }
}

/// Where the file system says which paths are executable files (`ok`), the
/// lookup of a name finds it in the first directory of the search path,
/// in order, where it is executable, and finds nothing when it is
/// executable in none of them.
pub proof fn law_lookup_in_path_order(dirs: Seq<Seq<char>>, name: Seq<char>, ok: spec_fn(Seq<char>) -> bool, f: Option<Seq<char>>)
    requires
        first_found(candidate_paths_of(dirs, name), answers_for(candidate_paths_of(dirs, name), ok), f),
    ensures
        f matches Some(p) ==> exists|i: int|
            0 <= i < dirs.len() && ok(in_dir(dirs[i], name)) && (forall|k: int|
                0 <= k < i ==> !ok(#[trigger] in_dir(dirs[k], name))) && p == in_dir(dirs[i], name),
        f is None ==> forall|k: int| 0 <= k < dirs.len() ==> !ok(#[trigger] in_dir(dirs[k], name)),
{
    let paths = candidate_paths_of(dirs, name);
    let ans = answers_for(paths, ok);
    match f {
        Some(p) => {
            let i = choose|i: int|
                0 <= i < paths.len() && ans[i] && (forall|k: int| 0 <= k < i ==> !ans[k]) && p == paths[i];
            assert forall|k: int| 0 <= k < i implies !ok(#[trigger] in_dir(dirs[k], name)) by {
                assert(!ans[k]);
            }
        },
        None => {
            assert forall|k: int| 0 <= k < dirs.len() implies !ok(#[trigger] in_dir(dirs[k], name)) by {
                assert(!ans[k]);
            }
        },
    }
}

} // verus!
