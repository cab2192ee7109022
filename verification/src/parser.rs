//! The executable tokenizer and parser of command lines; each step is
//! proved to compute what `grammar` says.

use vstd::prelude::*;
use crate::command::{
    arguments, command_of, Command, CommandToken, StderrKind, StdoutKind, TokenView,
};
use crate::grammar::{
    CharClass, double_quoted, double_quoted_body, in_class, lemma_piece_advances, lemma_pieces_from,
    lemma_token_advances, line_tokens, piece, pieces_from, redirect_target, single_quoted, span_end,
    stderr_op_end, stdout_op_end, token, tokens_from, tokens_of, trim, unquoted, whitespace_back, word,
};
use crate::text::{chars_of, string_of};

verus! {

/// A line that does not follow the command-line grammar.
pub struct ParseError;

/// The spec value of a parsed piece: its characters and where it stops.
pub open spec fn piece_view(r: Option<(Vec<char>, usize)>) -> Option<(Seq<char>, int)> {
    match r {
        Some((v, j)) => Some((v@, j as int)),
        None => None,
    }
}

/// `acc` put in front of the characters of a result.
pub open spec fn prepend(acc: Seq<char>, r: Option<(Seq<char>, int)>) -> Option<(Seq<char>, int)> {
    match r {
        Some((v, e)) => Some((acc + v, e)),
        None => None,
    }
}

fn in_class_exec(c: char, k: CharClass) -> (r: bool)
    ensures
        r == in_class(c, k),
{
    match k {
        CharClass::Plain => !(c == ' ' || c == '\t' || c == '\r' || c == '\n' || c == '"' || c
            == '\'' || c == '\\'),
        CharClass::QuoteFree => c != '\'',
        CharClass::Blank => c == ' ' || c == '\t',
        CharClass::Whitespace => ('\u{9}' <= c && c <= '\u{d}') || c == ' ' || c == '\u{85}' || c
            == '\u{a0}' || c == '\u{1680}' || ('\u{2000}' <= c && c <= '\u{200a}') || c
            == '\u{2028}' || c == '\u{2029}' || c == '\u{202f}' || c == '\u{205f}' || c
            == '\u{3000}',
    }
}

fn span_end_exec(s: &Vec<char>, i: usize, k: CharClass) -> (r: usize)
    requires
        i <= s.len(),
    ensures
        r == span_end(s@, i as int, k),
        i <= r <= s.len(),
{
    let mut j: usize = i;
    while j < s.len() && in_class_exec(s[j], k)
        invariant
            i <= j <= s.len(),
            span_end(s@, i as int, k) == span_end(s@, j as int, k),
        decreases s.len() - j,
    {
        j = j + 1;
    }
    j
}

fn sub_chars(s: &Vec<char>, from: usize, to: usize) -> (r: Vec<char>)
    requires
        from <= to <= s.len(),
    ensures
        r@ == s@.subrange(from as int, to as int),
{
    let mut r: Vec<char> = Vec::new();
    let mut i: usize = from;
    while i < to
        invariant
            from <= i <= to <= s.len(),
            r@ == s@.subrange(from as int, i as int),
        decreases to - i,
    {
        r.push(s[i]);
        i = i + 1;
        assert(r@ =~= s@.subrange(from as int, i as int));
    }
    r
}

fn single_quoted_exec(s: &Vec<char>, i: usize) -> (r: Option<(Vec<char>, usize)>)
    requires
        i <= s.len(),
    ensures
        piece_view(r) == single_quoted(s@, i as int),
{
    if i < s.len() && s[i] == '\'' {
        let j: usize = span_end_exec(s, i + 1, CharClass::QuoteFree);
        if j < s.len() {
            Some((sub_chars(s, i + 1, j), j + 1))
        } else {
            None
        }
    } else {
        None
    }
}

fn double_quoted_body_exec(s: &Vec<char>, k0: usize) -> (r: Option<(Vec<char>, usize)>)
    requires
        k0 <= s.len(),
    ensures
        piece_view(r) == double_quoted_body(s@, k0 as int),
        r matches Some((v, e)) ==> e <= s.len(),
{
    let mut acc: Vec<char> = Vec::new();
    let mut k: usize = k0;
    assert(acc@ + seq![] =~= seq![]);
    loop
        invariant
            k0 <= k <= s.len(),
            double_quoted_body(s@, k0 as int) == prepend(acc@, double_quoted_body(s@, k as int)),
        decreases s.len() - k,
    {
        if k >= s.len() || s[k] == '"' {
            assert(acc@ + seq![] =~= acc@);
            return Some((acc, k));
        } else if s[k] == '\\' {
            if k + 1 < s.len() && (s[k + 1] == '\\' || s[k + 1] == '"') {
                let c = s[k + 1];
                proof {
                    match double_quoted_body(s@, k + 2) {
                        Some((v, e)) => {
                            assert(acc@ + (seq![c] + v) =~= acc@.push(c) + v);
                        },
                        None => {},
                    }
                }
                acc.push(c);
                k = k + 2;
            } else {
                return None;
            }
        } else {
            let c = s[k];
            proof {
                match double_quoted_body(s@, k + 1) {
                    Some((v, e)) => {
                        assert(acc@ + (seq![c] + v) =~= acc@.push(c) + v);
                    },
                    None => {},
                }
            }
            acc.push(c);
            k = k + 1;
        }
    }
}

fn double_quoted_exec(s: &Vec<char>, i: usize) -> (r: Option<(Vec<char>, usize)>)
    requires
        i <= s.len(),
    ensures
        piece_view(r) == double_quoted(s@, i as int),
{
    if i < s.len() && s[i] == '"' {
        match double_quoted_body_exec(s, i + 1) {
            Some((v, k)) => if k < s.len() {
                Some((v, k + 1))
            } else {
                None
            },
            None => None,
        }
    } else {
        None
    }
}

fn unquoted_exec(s: &Vec<char>, i: usize) -> (r: Option<(Vec<char>, usize)>)
    requires
        i <= s.len(),
    ensures
        piece_view(r) == unquoted(s@, i as int),
{
    if i < s.len() && in_class_exec(s[i], CharClass::Plain) {
        let j: usize = span_end_exec(s, i, CharClass::Plain);
        Some((sub_chars(s, i, j), j))
    } else if i < s.len() && i + 1 < s.len() && s[i] == '\\' {
        let mut v: Vec<char> = Vec::new();
        v.push(s[i + 1]);
        assert(v@ =~= seq![s@[i + 1]]);
        Some((v, i + 2))
    } else {
        None
    }
}

fn piece_exec(s: &Vec<char>, i: usize) -> (r: Option<(Vec<char>, usize)>)
    requires
        i <= s.len(),
    ensures
        piece_view(r) == piece(s@, i as int),
        r matches Some((v, j)) ==> i < j <= s.len(),
{
    proof {
        lemma_piece_advances(s@, i as int);
    }
    match single_quoted_exec(s, i) {
        Some(r) => Some(r),
        None => match double_quoted_exec(s, i) {
            Some(r) => Some(r),
            None => unquoted_exec(s, i),
        },
    }
}

fn pieces_from_exec(s: &Vec<char>, i0: usize) -> (r: (Vec<char>, usize))
    requires
        i0 <= s.len(),
    ensures
        (r.0@, r.1 as int) == pieces_from(s@, i0 as int),
        r.1 <= s.len(),
{
    let mut acc: Vec<char> = Vec::new();
    let mut i: usize = i0;
    assert(acc@ + pieces_from(s@, i as int).0 =~= pieces_from(s@, i as int).0);
    loop
        invariant
            i0 <= i <= s.len(),
            pieces_from(s@, i0 as int) == (acc@ + pieces_from(s@, i as int).0, pieces_from(
                s@,
                i as int,
            ).1),
        decreases s.len() - i,
    {
        match piece_exec(s, i) {
            Some((v, j)) => {
                let mut v = v;
                proof {
                    assert(acc@ + (v@ + pieces_from(s@, j as int).0) =~= (acc@ + v@) + pieces_from(
                        s@,
                        j as int,
                    ).0);
                }
                acc.append(&mut v);
                i = j;
            },
            None => {
                assert(acc@ + seq![] =~= acc@);
                return (acc, i);
            },
        }
    }
}

fn word_exec(s: &Vec<char>, i: usize) -> (r: Option<(Vec<char>, usize)>)
    requires
        i <= s.len(),
    ensures
        piece_view(r) == word(s@, i as int),
        r matches Some((v, j)) ==> i < j <= s.len(),
{
    proof {
        lemma_pieces_from(s@, i as int);
    }
    match piece_exec(s, i) {
        Some(_) => Some(pieces_from_exec(s, i)),
        None => None,
    }
}

/// The spec value of a parsed token and where it stops.
pub open spec fn token_view(r: Option<(CommandToken, usize)>) -> Option<(TokenView, int)> {
    match r {
        Some((t, j)) => Some((t@, j as int)),
        None => None,
    }
}

fn stdout_op_end_exec(s: &Vec<char>, i: usize) -> (r: Option<usize>)
    requires
        i <= s.len(),
    ensures
        r matches Some(k) ==> k <= s.len(),
        (match r {
            Some(k) => Some(k as int),
            None => None,
        }) == stdout_op_end(s@, i as int),
{
    if i < s.len() && s[i] == '>' {
        Some(i + 1)
    } else if i < s.len() && i + 1 < s.len() && s[i] == '1' && s[i + 1] == '>' {
        Some(i + 2)
    } else {
        None
    }
}

fn stderr_op_end_exec(s: &Vec<char>, i: usize) -> (r: Option<usize>)
    requires
        i <= s.len(),
    ensures
        r matches Some(k) ==> k <= s.len(),
        (match r {
            Some(k) => Some(k as int),
            None => None,
        }) == stderr_op_end(s@, i as int),
{
    if i < s.len() && i + 1 < s.len() && s[i] == '2' && s[i + 1] == '>' {
        Some(i + 2)
    } else {
        None
    }
}

fn redirect_target_exec(s: &Vec<char>, op: Option<usize>) -> (r: Option<(Vec<char>, usize)>)
    requires
        op matches Some(k) ==> k <= s.len(),
    ensures
        piece_view(r) == redirect_target(
            s@,
            match op {
                Some(k) => Some(k as int),
                None => None,
            },
        ),
        r matches Some((v, j)) ==> j <= s.len(),
{
    match op {
        Some(k) => {
            let b: usize = span_end_exec(s, k, CharClass::Blank);
            word_exec(s, b)
        },
        None => None,
    }
}

fn token_exec(s: &Vec<char>, i: usize) -> (r: Option<(CommandToken, usize)>)
    requires
        i <= s.len(),
    ensures
        token_view(r) == token(s@, i as int),
        r matches Some((t, j)) ==> i < j <= s.len(),
{
    proof {
        lemma_token_advances(s@, i as int);
    }
    match redirect_target_exec(s, stdout_op_end_exec(s, i)) {
        Some((v, j)) => Some((CommandToken::Stdout(StdoutKind::Redirect(string_of(&v))), j)),
        None => match redirect_target_exec(s, stderr_op_end_exec(s, i)) {
            Some((v, j)) => Some((CommandToken::Stderr(StderrKind::Redirect(string_of(&v))), j)),
            None => match word_exec(s, i) {
                Some((v, j)) => Some((CommandToken::Argument(string_of(&v)), j)),
                None => None,
            },
        },
    }
}

fn tokens_from_exec(s: &Vec<char>, p0: usize) -> (r: (Vec<CommandToken>, usize))
    requires
        p0 <= s.len(),
    ensures
        (r.0.deep_view(), r.1 as int) == tokens_from(s@, p0 as int),
{
    let mut acc: Vec<CommandToken> = Vec::new();
    let mut p: usize = p0;
    assert(acc.deep_view() + tokens_from(s@, p as int).0 =~= tokens_from(s@, p as int).0);
    loop
        invariant
            p0 <= p <= s.len(),
            tokens_from(s@, p0 as int) == (acc.deep_view() + tokens_from(s@, p as int).0,
            tokens_from(s@, p as int).1),
        decreases s.len() - p,
    {
        if p < s.len() && in_class_exec(s[p], CharClass::Blank) {
            let q: usize = span_end_exec(s, p, CharClass::Blank);
            match token_exec(s, q) {
                Some((t, j)) => {
                    let ghost old_acc = acc.deep_view();
                    let ghost tv = t@;
                    acc.push(t);
                    proof {
                        assert(acc.deep_view() =~= old_acc.push(tv));
                        assert(old_acc + (seq![tv] + tokens_from(s@, j as int).0) =~= old_acc.push(
                            tv,
                        ) + tokens_from(s@, j as int).0);
                    }
                    p = j;
                },
                None => {
                    assert(acc.deep_view() + seq![] =~= acc.deep_view());
                    return (acc, p);
                },
            }
        } else {
            assert(acc.deep_view() + seq![] =~= acc.deep_view());
            return (acc, p);
        }
    }
}

/// The spec value of a list of tokens.
pub open spec fn tokens_view(r: Option<Vec<CommandToken>>) -> Option<Seq<TokenView>> {
    match r {
        Some(ts) => Some(ts.deep_view()),
        None => None,
    }
}

fn tokens_of_exec(s: &Vec<char>) -> (r: Option<Vec<CommandToken>>)
    ensures
        tokens_view(r) == tokens_of(s@),
{
    match token_exec(s, 0) {
        Some((t, j)) => {
            let (rest, e) = tokens_from_exec(s, j);
            if e == s.len() {
                let mut all: Vec<CommandToken> = Vec::new();
                let ghost tv = t@;
                let ghost rv = rest.deep_view();
                all.push(t);
                let mut rest = rest;
                all.append(&mut rest);
                assert(all.deep_view() =~= seq![tv] + rv);
                Some(all)
            } else {
                None
            }
        },
        None => None,
    }
}

fn trim_bounds(s: &Vec<char>) -> (r: (usize, usize))
    ensures
        r.0 <= r.1 <= s.len(),
        s@.subrange(r.0 as int, r.1 as int) == trim(s@),
{
    let a: usize = span_end_exec(s, 0, CharClass::Whitespace);
    let mut b: usize = s.len();
    while b > 0 && in_class_exec(s[b - 1], CharClass::Whitespace)
        invariant
            b <= s.len(),
            whitespace_back(s@, s.len() as int) == whitespace_back(s@, b as int),
        decreases b,
    {
        b = b - 1;
    }
    if a <= b {
        (a, b)
    } else {
        assert(s@.subrange(a as int, a as int) =~= seq![]);
        (a, a)
    }
}

/// The tokens of a command line, or `None` where the line (without its
/// surrounding whitespace) is not one or more tokens separated by blanks.
pub fn tokenize(line: &str) -> (r: Option<Vec<CommandToken>>)
    ensures
        tokens_view(r) == line_tokens(line@),
{
    let all = chars_of(line);
    let (a, b) = trim_bounds(&all);
    let s = sub_chars(&all, a, b);
    tokens_of_exec(&s)
}

/// The command that a line makes.  Lines that do not follow the grammar are
/// refused; lines whose tokens hold no argument at all (only redirections)
/// are left out.
pub fn parser(input: &str) -> (r: Result<Command, ParseError>)
    requires
        line_tokens(input@) matches Some(ts) ==> arguments(ts).len() > 0,
    ensures
        r is Ok <==> line_tokens(input@) is Some,
        r matches Ok(c) ==> c@ == command_of(line_tokens(input@)->Some_0),
{
    match tokenize(input) {
        Some(tokens) => Ok(Command::new(tokens)),
        None => Err(ParseError),
    }
}

} // verus!
