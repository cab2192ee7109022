//! The command-line grammar, stated as spec functions over the characters of
//! a line.  Positions are indices into the line; each piece of the grammar
//! says what it reads at a position and where it stops.
//!
//! A line is trimmed of surrounding whitespace, then read as one or more
//! tokens separated by runs of blanks (spaces and tabs), and must be used up
//! entirely.  A token is a stdout redirection (`>` or `1>`, optional blanks,
//! then a word), a stderr redirection (`2>`, optional blanks, then a word),
//! or else a word, which becomes an argument.  A word is one or more pieces
//! written together: a single-quoted run (taken literally), a double-quoted
//! run (where `\\` and `\"` stand for `\` and `"`), a run of plain
//! characters, or a backslash followed by any one character (taken
//! literally).

use vstd::prelude::*;
use crate::command::{SinkView, TokenView};

verus! {

/// Spaces and tabs separate tokens.
pub open spec fn is_blank(c: char) -> bool {
    c == ' ' || c == '\t'
}

/// Characters that may stand unquoted in a word.
pub open spec fn is_plain(c: char) -> bool {
    !(c == ' ' || c == '\t' || c == '\r' || c == '\n' || c == '"' || c == '\'' || c == '\\')
}

/// Characters allowed inside single quotes.
pub open spec fn is_not_single_quote(c: char) -> bool {
    c != '\''
}

/// Unicode `White_Space` characters: what `str::trim` removes.
pub open spec fn is_whitespace(c: char) -> bool {
    ||| ('\u{9}' <= c && c <= '\u{d}')
    ||| c == ' '
    ||| c == '\u{85}'
    ||| c == '\u{a0}'
    ||| c == '\u{1680}'
    ||| ('\u{2000}' <= c && c <= '\u{200a}')
    ||| c == '\u{2028}'
    ||| c == '\u{2029}'
    ||| c == '\u{202f}'
    ||| c == '\u{205f}'
    ||| c == '\u{3000}'
}

/// The classes of characters that the grammar reads in runs.
#[derive(Clone, Copy)]
pub enum CharClass {
    Plain,
    QuoteFree,
    Blank,
    Whitespace,
}

pub open spec fn in_class(c: char, k: CharClass) -> bool {
    match k {
        CharClass::Plain => is_plain(c),
        CharClass::QuoteFree => is_not_single_quote(c),
        CharClass::Blank => is_blank(c),
        CharClass::Whitespace => is_whitespace(c),
    }
}

/// The end of the longest run of characters of class `k` that starts at `i`.
pub open spec fn span_end(s: Seq<char>, i: int, k: CharClass) -> int
    decreases s.len() - i,
{
    if 0 <= i < s.len() && in_class(s[i], k) {
        span_end(s, i + 1, k)
    } else {
        i
    }
}

/// The end of the run of plain characters starting at `i`.
pub open spec fn plain_end(s: Seq<char>, i: int) -> int {
    span_end(s, i, CharClass::Plain)
}

/// The end of the run of characters other than `'` starting at `i`.
pub open spec fn quote_free_end(s: Seq<char>, i: int) -> int {
    span_end(s, i, CharClass::QuoteFree)
}

/// The end of the run of blanks starting at `i`.
pub open spec fn blank_end(s: Seq<char>, i: int) -> int {
    span_end(s, i, CharClass::Blank)
}

/// The end of the run of whitespace starting at `i`.
pub open spec fn whitespace_end(s: Seq<char>, i: int) -> int {
    span_end(s, i, CharClass::Whitespace)
}

/// The start of the longest run of whitespace that ends at `j`.
pub open spec fn whitespace_back(s: Seq<char>, j: int) -> int
    decreases j,
{
    if 0 < j <= s.len() && is_whitespace(s[j - 1]) {
        whitespace_back(s, j - 1)
    } else {
        j
    }
}

/// `s` without leading and trailing whitespace.
pub open spec fn trim(s: Seq<char>) -> Seq<char> {
    let a: int = whitespace_end(s, 0);
    let b: int = whitespace_back(s, s.len() as int);
    if a <= b {
        s.subrange(a, b)
    } else {
        seq![]
    }
}

/// A single-quoted piece at `i`: its contents, taken literally, and the
/// position after the closing quote.
pub open spec fn single_quoted(s: Seq<char>, i: int) -> Option<(Seq<char>, int)> {
    if 0 <= i < s.len() && s[i] == '\'' {
        let j: int = quote_free_end(s, i + 1);
        if j < s.len() {
            Some((s.subrange(i + 1, j), j + 1))
        } else {
            None
        }
    } else {
        None
    }
}

/// The body of a double-quoted piece from `k` up to (not including) the next
/// unescaped `"` or the end of the line; `\\` and `\"` stand for `\` and `"`,
/// and a backslash before anything else (or at the end) is an error.
pub open spec fn double_quoted_body(s: Seq<char>, k: int) -> Option<(Seq<char>, int)>
    decreases s.len() - k,
{
    if k < 0 || k >= s.len() || s[k] == '"' {
        Some((seq![], k))
    } else if s[k] == '\\' {
        if k + 1 < s.len() && (s[k + 1] == '\\' || s[k + 1] == '"') {
            match double_quoted_body(s, k + 2) {
                Some((v, e)) => Some((seq![s[k + 1]] + v, e)),
                None => None,
            }
        } else {
            None
        }
    } else {
        match double_quoted_body(s, k + 1) {
            Some((v, e)) => Some((seq![s[k]] + v, e)),
            None => None,
        }
    }
}

/// A double-quoted piece at `i`: its unescaped contents and the position
/// after the closing quote.
pub open spec fn double_quoted(s: Seq<char>, i: int) -> Option<(Seq<char>, int)> {
    if 0 <= i < s.len() && s[i] == '"' {
        match double_quoted_body(s, i + 1) {
            Some((v, k)) => if k < s.len() {
                Some((v, k + 1))
            } else {
                None
            },
            None => None,
        }
    } else {
        None
    }
}

/// An unquoted piece at `i`: a run of plain characters, or a backslash and
/// the one character after it.
pub open spec fn unquoted(s: Seq<char>, i: int) -> Option<(Seq<char>, int)> {
    if 0 <= i < s.len() && is_plain(s[i]) {
        let j: int = plain_end(s, i);
        Some((s.subrange(i, j), j))
    } else if 0 <= i && i + 1 < s.len() && s[i] == '\\' {
        Some((seq![s[i + 1]], i + 2))
    } else {
        None
    }
}

/// One piece of a word at `i`, the first of the three kinds that applies.
pub open spec fn piece(s: Seq<char>, i: int) -> Option<(Seq<char>, int)> {
    match single_quoted(s, i) {
        Some(r) => Some(r),
        None => match double_quoted(s, i) {
            Some(r) => Some(r),
            None => unquoted(s, i),
        },
    }
}

pub proof fn lemma_span_end(s: Seq<char>, i: int, k: CharClass)
    requires
        0 <= i <= s.len(),
    ensures
        i <= span_end(s, i, k) <= s.len(),
        forall|m: int| i <= m < span_end(s, i, k) ==> in_class(#[trigger] s[m], k),
        span_end(s, i, k) < s.len() ==> !in_class(s[span_end(s, i, k)], k),
    decreases s.len() - i,
{
    if i < s.len() && in_class(s[i], k) {
        lemma_span_end(s, i + 1, k);
    }
}

pub proof fn lemma_double_quoted_body(s: Seq<char>, k: int)
    requires
        0 <= k <= s.len(),
    ensures
        double_quoted_body(s, k) matches Some((v, e)) ==> k <= e <= s.len(),
    decreases s.len() - k,
{
    if k < s.len() && s[k] != '"' {
        if s[k] == '\\' {
            if k + 1 < s.len() {
                lemma_double_quoted_body(s, k + 2);
            }
        } else {
            lemma_double_quoted_body(s, k + 1);
        }
    }
}

/// A piece always consumes at least one character and stays in the line.
pub proof fn lemma_piece_advances(s: Seq<char>, i: int)
    ensures
        piece(s, i) matches Some((v, j)) ==> 0 <= i < j <= s.len(),
{
    if 0 <= i < s.len() {
        lemma_span_end(s, i + 1, CharClass::QuoteFree);
        lemma_span_end(s, i, CharClass::Plain);
        lemma_double_quoted_body(s, i + 1);
    }
}

/// The pieces of a word from `i` on: their concatenated values and the
/// position where no further piece applies.
pub open spec fn pieces_from(s: Seq<char>, i: int) -> (Seq<char>, int)
    decreases s.len() - i,
{
    match piece(s, i) {
        Some((v, j)) => {
            proof {
                lemma_piece_advances(s, i);
            }
            let (w, k) = pieces_from(s, j);
            (v + w, k)
        },
        None => (seq![], i),
    }
}

/// A word at `i`: one or more pieces written together.
pub open spec fn word(s: Seq<char>, i: int) -> Option<(Seq<char>, int)> {
    match piece(s, i) {
        Some(_) => Some(pieces_from(s, i)),
        None => None,
    }
}

/// The pieces from `i` on stop inside the line, and past `i` when a piece
/// applies at `i`.
pub proof fn lemma_pieces_from(s: Seq<char>, i: int)
    requires
        0 <= i <= s.len(),
    ensures
        i <= pieces_from(s, i).1 <= s.len(),
        piece(s, i) is Some ==> i < pieces_from(s, i).1,
    decreases s.len() - i,
{
    lemma_piece_advances(s, i);
    if let Some((v, j)) = piece(s, i) {
        lemma_pieces_from(s, j);
    }
}

/// The position after a stdout redirection operator (`>` or `1>`) at `i`.
pub open spec fn stdout_op_end(s: Seq<char>, i: int) -> Option<int> {
    if 0 <= i < s.len() && s[i] == '>' {
        Some(i + 1)
    } else if 0 <= i && i + 1 < s.len() && s[i] == '1' && s[i + 1] == '>' {
        Some(i + 2)
    } else {
        None
    }
}

/// The position after a stderr redirection operator (`2>`) at `i`.
pub open spec fn stderr_op_end(s: Seq<char>, i: int) -> Option<int> {
    if 0 <= i && i + 1 < s.len() && s[i] == '2' && s[i + 1] == '>' {
        Some(i + 2)
    } else {
        None
    }
}

/// The target word of a redirection whose operator ends at `op`: blanks may
/// come between.
pub open spec fn redirect_target(s: Seq<char>, op: Option<int>) -> Option<(Seq<char>, int)> {
    match op {
        Some(k) => word(s, blank_end(s, k)),
        None => None,
    }
}

/// The token at `i`: a stdout redirection, else a stderr redirection, else
/// an argument; each only where its whole form applies.
pub open spec fn token(s: Seq<char>, i: int) -> Option<(TokenView, int)> {
    match redirect_target(s, stdout_op_end(s, i)) {
        Some((v, j)) => Some((TokenView::Stdout(SinkView::Redirect(v)), j)),
        None => match redirect_target(s, stderr_op_end(s, i)) {
            Some((v, j)) => Some((TokenView::Stderr(SinkView::Redirect(v)), j)),
            None => match word(s, i) {
                Some((v, j)) => Some((TokenView::Argument(v), j)),
                None => None,
            },
        },
    }
}

/// A token consumes at least one character and stays in the line.
pub proof fn lemma_token_advances(s: Seq<char>, i: int)
    requires
        0 <= i <= s.len(),
    ensures
        token(s, i) matches Some((t, j)) ==> i < j <= s.len(),
{
    lemma_pieces_from(s, i);
    if let Some(k) = stdout_op_end(s, i) {
        lemma_span_end(s, k, CharClass::Blank);
        lemma_pieces_from(s, blank_end(s, k));
    }
    if let Some(k) = stderr_op_end(s, i) {
        lemma_span_end(s, k, CharClass::Blank);
        lemma_pieces_from(s, blank_end(s, k));
    }
}

/// The tokens after position `p`, each preceded by blanks, and the position
/// where they stop: at the first place where blanks are not followed by a
/// token, or where no blank follows.
pub open spec fn tokens_from(s: Seq<char>, p: int) -> (Seq<TokenView>, int)
    decreases s.len() - p,
{
    if 0 <= p < s.len() && is_blank(s[p]) {
        let q: int = blank_end(s, p);
        match token(s, q) {
            Some((t, j)) => {
                proof {
                    lemma_span_end(s, p, CharClass::Blank);
                    lemma_token_advances(s, q);
                }
                let (ts, e) = tokens_from(s, j);
                (seq![t] + ts, e)
            },
            None => (seq![], p),
        }
    } else {
        (seq![], p)
    }
}

/// The tokens of an already trimmed line: one or more tokens separated by
/// blanks that use up the whole line.
pub open spec fn tokens_of(s: Seq<char>) -> Option<Seq<TokenView>> {
    match token(s, 0) {
        Some((t, j)) => {
            let (ts, e) = tokens_from(s, j);
            if e == s.len() {
                Some(seq![t] + ts)
            } else {
                None
            }
        },
        None => None,
    }
}

/// The tokens of a command line: those of the line without surrounding
/// whitespace.
pub open spec fn line_tokens(line: Seq<char>) -> Option<Seq<TokenView>> {
    tokens_of(trim(line))
}

} // verus!
