//! Completion of the word under the cursor: command names at the start of
//! a line, paths elsewhere.  The editor asks with the line and the cursor;
//! the caller lists what the file system holds, and these functions decide
//! what is offered.

use vstd::prelude::*;
use vstd::string::StringSliceAdditionalSpecFns;
use crate::order::{lemma_sorted_unique, sort_unique, strictly_sorted};
use crate::text::{
    after_last_slash, after_last_slash_of, before_last_slash, before_last_slash_of, is_prefix_of,
    push_char, starts_with,
};

verus! {

/// The editor helper of the shell.
pub struct ShellHelper {}

/// What the word under the cursor is completed as.
pub enum CompletionTarget {
    /// A command name (the word starts the line).
    Command(String),
    /// A path: entries of the directory `relative` (relative to the current
    /// directory; empty for the current directory itself) whose names start
    /// with `partial`.
    Path { relative: String, partial: String },
}

/// Where the completed word starts (a byte offset in the line) and what it
/// is completed as.
pub struct CompletionRequest {
    pub start: usize,
    pub target: CompletionTarget,
}

/// An entry of a directory: its name and whether it is a directory.
pub struct EntryInfo {
    pub name: String,
    pub is_dir: bool,
}

/// Characters that end a word for completion.
pub open spec fn is_word_break(c: char) -> bool {
    c == ' ' || c == '\t'
}

/// Whether `c` ends a word for completion.
pub fn word_break(c: char) -> (r: bool)
    ensures
        r == is_word_break(c),
{
    c == ' ' || c == '\t'
}

/// The characters before the cursor: the line's bytes up to the cursor,
/// decoded.
pub open spec fn text_before(line_bytes: Seq<u8>, pos: int) -> Seq<char> {
    vstd::utf8::decode_utf8(line_bytes.subrange(0, pos))
}

/// Where the word before position `j` of `t` starts (a character index):
/// just after the last space or tab before `j` that does not follow a
/// backslash, or at 0 when there is none.
pub open spec fn word_start(t: Seq<char>, j: int) -> int
    decreases j,
{
    if j <= 0 || j > t.len() {
        0
    } else if is_word_break(t[j - 1]) && (j - 1 == 0 || t[j - 2] != '\\') {
        j
    } else {
        word_start(t, j - 1)
    }
}

/// The word that ends at the end of `t`.
pub open spec fn word_before(t: Seq<char>) -> Seq<char> {
    t.subrange(word_start(t, t.len() as int), t.len() as int)
}

/// The byte offset at which the word that ends at the end of `t` starts.
pub open spec fn word_start_offset(t: Seq<char>) -> int {
    vstd::utf8::encode_utf8(t.take(word_start(t, t.len() as int))).len() as int
}

/// `rustyline::completion::extract_word`, with `\` as escape character and
/// `word_break` as break predicate: of the text before the cursor, looking
/// backwards, the word starts after the last space or tab that is not
/// escaped by a backslash before it (at 0 when there is none); it returns
/// the byte offset of that start and the word up to the cursor.  It slices
/// the line at the cursor, so the cursor must be on a character boundary.
#[verifier::external_body]
fn extract_word_at(line: &str, pos: usize) -> (r: (usize, &str))
    requires
        vstd::utf8::is_char_boundary(line.spec_bytes(), pos as int),
    ensures
        r.0 == word_start_offset(text_before(line.spec_bytes(), pos as int)),
        r.1@ == word_before(text_before(line.spec_bytes(), pos as int)),
        r.0 <= pos,
        r.1.spec_bytes() == line.spec_bytes().subrange(r.0 as int, pos as int),
{
    rustyline::completion::extract_word(line, pos, Some('\\'), word_break)
}

/// What a word is completed as: a command when it starts the line, else a
/// path split at its last `/` (a word without a `/`, or whose only `/`
/// leads it, is looked for in the current directory as it stands).
pub open spec fn target_of(start: usize, word: Seq<char>) -> TargetView {
    if start == 0 {
        TargetView::Command(word)
    } else if before_last_slash(word).len() > 0 {
        TargetView::Path { relative: before_last_slash(word), partial: after_last_slash(word) }
    } else {
        TargetView::Path { relative: seq![], partial: word }
    }
}

/// Where the word before the cursor starts (a byte offset) and what it is
/// completed as, for a line's bytes and the cursor.
pub open spec fn request_of(line_bytes: Seq<u8>, pos: int) -> (int, TargetView) {
    let t = text_before(line_bytes, pos);
    (word_start_offset(t), target_of(word_start_offset(t) as usize, word_before(t)))
}

/// A completion target as a spec value.
pub enum TargetView {
    Command(Seq<char>),
    Path { relative: Seq<char>, partial: Seq<char> },
}

impl View for CompletionTarget {
    type V = TargetView;

    open spec fn view(&self) -> TargetView {
        match self {
            CompletionTarget::Command(w) => TargetView::Command(w@),
            CompletionTarget::Path { relative, partial } => TargetView::Path {
                relative: relative@,
                partial: partial@,
            },
        }
    }
}

/// The builtin command names, in the order they are offered.
pub open spec fn builtin_names() -> Seq<Seq<char>> {
    seq!["echo"@, "type"@, "cd"@, "pwd"@, "exit"@]
}

/// The elements of `names` that start with `p`, in order.
pub open spec fn starting_with(names: Seq<Seq<char>>, p: Seq<char>) -> Seq<Seq<char>>
    decreases names.len(),
{
    if names.len() == 0 {
        seq![]
    } else if is_prefix_of(p, names.last()) {
        starting_with(names.drop_last(), p).push(names.last())
    } else {
        starting_with(names.drop_last(), p)
    }
}

/// What a directory entry is offered as: directories with the relative
/// directory in front (when there is one); files with it in front unless
/// the directory searched is the current one.
pub open spec fn entry_candidate(relative: Seq<char>, name: Seq<char>, is_dir: bool, same_dir: bool) -> Seq<char> {
    if is_dir {
        if relative.len() == 0 {
            name
        } else {
            relative + seq!['/'] + name
        }
    } else if !same_dir {
        relative + seq!['/'] + name
    } else {
        name
    }
}

/// The candidates for the entries whose names start with `partial`, in order.
pub open spec fn entry_candidates(
    relative: Seq<char>,
    partial: Seq<char>,
    entries: Seq<EntryInfo>,
    same_dir: bool,
) -> Seq<Seq<char>>
    decreases entries.len(),
{
    if entries.len() == 0 {
        seq![]
    } else {
        let e = entries.last();
        let rest = entry_candidates(relative, partial, entries.drop_last(), same_dir);
        if is_prefix_of(partial, e.name@) {
            rest.push(entry_candidate(relative, e.name@, e.is_dir, same_dir))
        } else {
            rest
        }
    }
}

/// The list offered in the end: a single candidate gets `/` after it when it
/// names a directory and a space otherwise; other lists stay as they are.
pub open spec fn offered(sorted: Seq<Seq<char>>, single_is_dir: bool) -> Seq<Seq<char>> {
    if sorted.len() == 1 {
        seq![sorted[0] + (if single_is_dir { seq!['/'] } else { seq![' '] })]
    } else {
        sorted
    }
}

impl ShellHelper {
    /// The word before the cursor and what it is completed as.
    pub fn request(&self, line: &str, pos: usize) -> (r: CompletionRequest)
        requires
            vstd::utf8::is_char_boundary(line.spec_bytes(), pos as int),
        ensures
            (r.start as int, r.target@) == request_of(line.spec_bytes(), pos as int),
            r.start <= pos,
    {
        let (start, word) = extract_word_at(line, pos);
        if start == 0 {
            CompletionRequest { start, target: CompletionTarget::Command(String::from_str(word)) }
        } else {
            let relative = before_last_slash_of(word);
            if relative.as_str().is_empty() {
                CompletionRequest {
                    start,
                    target: CompletionTarget::Path {
                        relative: String::new(),
                        partial: String::from_str(word),
                    },
                }
            } else {
                let partial = after_last_slash_of(word);
                CompletionRequest { start, target: CompletionTarget::Path { relative, partial } }
            }
        }
    }

    /// The candidates for a command name: the builtins that start with
    /// `word`, then the programs found on the search path.
    pub fn command_candidates(&self, word: &str, executables: Vec<String>) -> (r: Vec<String>)
        ensures
            r.deep_view() == starting_with(builtin_names(), word@) + executables.deep_view(),
    {
        let mut r: Vec<String> = Vec::new();
        let ghost names = builtin_names();
        let ghost mut done: Seq<Seq<char>> = seq![];
        let b0 = "echo";
        let b1 = "type";
        let b2 = "cd";
        let b3 = "pwd";
        let b4 = "exit";
        assert(names.take(0) =~= seq![]);
        assert(names.take(1).drop_last() =~= names.take(0));
        assert(names.take(1).last() == b0@);
        assert(starting_with(names.take(0), word@) =~= seq![]);
        if starts_with(b0, word) {
            r.push(String::from_str(b0));
            assert(r.deep_view() =~= seq![b0@]);
        }
        assert(r.deep_view() =~= starting_with(names.take(1), word@));
        assert(names.take(2).drop_last() =~= names.take(1));
        assert(names.take(2).last() == b1@);
        let ghost r1 = r.deep_view();
        if starts_with(b1, word) {
            r.push(String::from_str(b1));
            assert(r.deep_view() =~= r1.push(b1@));
        }
        assert(r.deep_view() =~= starting_with(names.take(2), word@));
        assert(names.take(3).drop_last() =~= names.take(2));
        assert(names.take(3).last() == b2@);
        let ghost r2 = r.deep_view();
        if starts_with(b2, word) {
            r.push(String::from_str(b2));
            assert(r.deep_view() =~= r2.push(b2@));
        }
        assert(r.deep_view() =~= starting_with(names.take(3), word@));
        assert(names.take(4).drop_last() =~= names.take(3));
        assert(names.take(4).last() == b3@);
        let ghost r3 = r.deep_view();
        if starts_with(b3, word) {
            r.push(String::from_str(b3));
            assert(r.deep_view() =~= r3.push(b3@));
        }
        assert(r.deep_view() =~= starting_with(names.take(4), word@));
        assert(names.take(5).drop_last() =~= names.take(4));
        assert(names.take(5).last() == b4@);
        let ghost r4 = r.deep_view();
        if starts_with(b4, word) {
            r.push(String::from_str(b4));
            assert(r.deep_view() =~= r4.push(b4@));
        }
        assert(r.deep_view() =~= starting_with(names.take(5), word@));
        assert(names.take(5) =~= names);
        let ghost before = r.deep_view();
        let mut executables = executables;
        let ghost ev = executables.deep_view();
        r.append(&mut executables);
        assert(r.deep_view() =~= before + ev);
        r
    }

    /// The candidates for a path: the entries of the searched directory
    /// whose names start with `partial`, in order; `same_dir` tells whether
    /// the searched directory is the current one.
    pub fn path_candidates(
        &self,
        relative: &str,
        partial: &str,
        entries: &Vec<EntryInfo>,
        same_dir: bool,
    ) -> (r: Vec<String>)
        ensures
            r.deep_view() == entry_candidates(relative@, partial@, entries@, same_dir),
            forall|k: int|
                0 <= k < entries.len() && is_prefix_of(partial@, #[trigger] entries@[k].name@)
                    ==> r.deep_view().contains(
                    entry_candidate(relative@, entries@[k].name@, entries@[k].is_dir, same_dir),
                ),
            forall|x: Seq<char>|
                #![trigger r.deep_view().contains(x)]
                r.deep_view().contains(x) ==> exists|k: int|
                    0 <= k < entries.len() && is_prefix_of(partial@, #[trigger] entries@[k].name@)
                        && x == entry_candidate(
                        relative@,
                        entries@[k].name@,
                        entries@[k].is_dir,
                        same_dir,
                    ),
    {
        let mut r: Vec<String> = Vec::new();
        let mut i: usize = 0;
        assert(entries@.take(0) =~= seq![]);
        while i < entries.len()
            invariant
                i <= entries.len(),
                r.deep_view() == entry_candidates(relative@, partial@, entries@.take(i as int), same_dir),
            decreases entries.len() - i,
        {
            let e = &entries[i];
            assert(entries@.take(i + 1).drop_last() =~= entries@.take(i as int));
            assert(entries@.take(i + 1).last() == *e);
            if starts_with(e.name.as_str(), partial) {
                let c = if e.is_dir {
                    if relative.is_empty() {
                        e.name.clone()
                    } else {
                        let mut c = String::from_str(relative);
                        push_char(&mut c, '/');
                        c.append(e.name.as_str());
                        c
                    }
                } else if !same_dir {
                    let mut c = String::from_str(relative);
                    push_char(&mut c, '/');
                    c.append(e.name.as_str());
                    c
                } else {
                    e.name.clone()
                };
                assert(c@ =~= entry_candidate(relative@, e.name@, e.is_dir, same_dir));
                let ghost before = r.deep_view();
                r.push(c);
                assert(r.deep_view() =~= before.push(c@));
            }
            i = i + 1;
        }
        assert(entries@.take(entries.len() as int) =~= entries@);
        proof {
            law_every_matching_entry_offered(relative@, partial@, entries@, same_dir);
        }
        r
    }

    /// The list offered from sorted candidates: when one is left, it is
    /// followed by `/` if it names a directory (`single_is_dir`) and by a
    /// space otherwise.
    pub fn offer(&self, sorted: Vec<String>, single_is_dir: bool) -> (r: Vec<String>)
        ensures
            r.deep_view() == offered(sorted.deep_view(), single_is_dir),
    {
        let ghost sv = sorted.deep_view();
        if sorted.len() == 1 {
            let mut c = sorted[0].clone();
            if single_is_dir {
                push_char(&mut c, '/');
            } else {
                push_char(&mut c, ' ');
            }
            assert(c@ =~= sv[0] + (if single_is_dir { seq!['/'] } else { seq![' '] }));
            let mut r: Vec<String> = Vec::new();
            r.push(c);
            assert(r.deep_view() =~= offered(sv, single_is_dir));
            r
        } else {
            sorted
        }
    }

    /// The candidates sorted, each once.
    pub fn sorted_candidates(&self, candidates: &Vec<String>) -> (r: Vec<String>)
        ensures
            strictly_sorted(r.deep_view()),
            r.deep_view().to_set() == candidates.deep_view().to_set(),
    {
        sort_unique(candidates)
    }
}

/// The sorted candidates do not depend on the order in which they were
/// found, nor on repeats: lists with the same elements give the same result.
pub proof fn law_candidates_ignore_order(
    a: Seq<Seq<char>>,
    b: Seq<Seq<char>>,
    sorted_a: Seq<Seq<char>>,
    sorted_b: Seq<Seq<char>>,
)
    requires
        a.to_set() == b.to_set(),
        strictly_sorted(sorted_a),
        sorted_a.to_set() == a.to_set(),
        strictly_sorted(sorted_b),
        sorted_b.to_set() == b.to_set(),
    ensures
        sorted_a == sorted_b,
{
    lemma_sorted_unique(sorted_a, sorted_b);
}

/// What is completed depends only on the text before the cursor.
pub proof fn law_request_ignores_text_after_cursor(line1: Seq<u8>, line2: Seq<u8>, pos: int)
    requires
        0 <= pos <= line1.len(),
        pos <= line2.len(),
        line1.subrange(0, pos) == line2.subrange(0, pos),
    ensures
        request_of(line1, pos) == request_of(line2, pos),
{
}

/// Every entry whose name starts with the partial word, the name equal to
/// it included, is offered, and nothing else is: each candidate comes from
/// such an entry.
pub proof fn law_every_matching_entry_offered(
    relative: Seq<char>,
    partial: Seq<char>,
    entries: Seq<EntryInfo>,
    same_dir: bool,
)
    ensures
        forall|k: int|
            0 <= k < entries.len() && is_prefix_of(partial, #[trigger] entries[k].name@)
                ==> entry_candidates(relative, partial, entries, same_dir).contains(
                entry_candidate(relative, entries[k].name@, entries[k].is_dir, same_dir),
            ),
        forall|x: Seq<char>|
            #![trigger entry_candidates(relative, partial, entries, same_dir).contains(x)]
            entry_candidates(relative, partial, entries, same_dir).contains(x) ==> exists|k: int|
                0 <= k < entries.len() && is_prefix_of(partial, #[trigger] entries[k].name@) && x
                    == entry_candidate(relative, entries[k].name@, entries[k].is_dir, same_dir),
    decreases entries.len(),
{
    if entries.len() > 0 {
        let rest = entries.drop_last();
        let e = entries.last();
        let rc = entry_candidates(relative, partial, rest, same_dir);
        let all = entry_candidates(relative, partial, entries, same_dir);
        law_every_matching_entry_offered(relative, partial, rest, same_dir);
        let c = entry_candidate(relative, e.name@, e.is_dir, same_dir);
        assert forall|k: int|
            0 <= k < entries.len() && is_prefix_of(partial, #[trigger] entries[k].name@)
                implies all.contains(
                entry_candidate(relative, entries[k].name@, entries[k].is_dir, same_dir),
            ) by {
            if k < entries.len() - 1 {
                assert(rest[k] == entries[k]);
                let y = entry_candidate(relative, entries[k].name@, entries[k].is_dir, same_dir);
                assert(rc.contains(y));
                let j = choose|j: int| 0 <= j < rc.len() && rc[j] == y;
                if is_prefix_of(partial, e.name@) {
                    assert(all == rc.push(c));
                    assert(all[j] == y);
                }
            } else {
                assert(all == rc.push(c));
                assert(all[rc.len() as int] == c);
            }
        }
        assert forall|x: Seq<char>| all.contains(x) implies exists|k: int|
            0 <= k < entries.len() && is_prefix_of(partial, #[trigger] entries[k].name@) && x
                == entry_candidate(relative, entries[k].name@, entries[k].is_dir, same_dir) by {
            let j = choose|j: int| 0 <= j < all.len() && all[j] == x;
            if is_prefix_of(partial, e.name@) && j == rc.len() {
                assert(x == c);
                assert(entries[entries.len() - 1] == e);
            } else {
                if is_prefix_of(partial, e.name@) {
                    assert(all == rc.push(c));
                }
                assert(rc[j] == x);
                assert(rc.contains(x));
                let k = choose|k: int|
                    0 <= k < rest.len() && is_prefix_of(partial, #[trigger] rest[k].name@) && x
                        == entry_candidate(relative, rest[k].name@, rest[k].is_dir, same_dir);
                assert(entries[k] == rest[k]);
            }
        }
    }
}

} // verus!
