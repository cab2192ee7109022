//! Laws of the command-line grammar.

use vstd::prelude::*;
use crate::command::{
    arguments, command_of, first_stderr, first_stdout, kind_of, CommandView, SinkView, TokenView,
};
use crate::grammar::{
    CharClass, double_quoted_body, in_class, is_blank, is_plain, is_whitespace, lemma_span_end,
    line_tokens, piece, pieces_from, plain_end, span_end, stderr_op_end, stdout_op_end, token,
    tokens_from, trim, unquoted, whitespace_back, whitespace_end, word,
};

verus! {

/// A run end is determined by where the class stops.
pub proof fn lemma_span_end_is(s: Seq<char>, i: int, k: CharClass, e: int)
    requires
        0 <= i <= e <= s.len(),
        forall|m: int| i <= m < e ==> in_class(#[trigger] s[m], k),
        e < s.len() ==> !in_class(s[e], k),
    ensures
        span_end(s, i, k) == e,
    decreases e - i,
{
    if i < e {
        lemma_span_end_is(s, i + 1, k, e);
    }
}

pub proof fn lemma_whitespace_back(s: Seq<char>, j: int)
    requires
        0 <= j <= s.len(),
    ensures
        0 <= whitespace_back(s, j) <= j,
        forall|m: int| whitespace_back(s, j) <= m < j ==> is_whitespace(#[trigger] s[m]),
        whitespace_back(s, j) > 0 ==> !is_whitespace(s[whitespace_back(s, j) - 1]),
    decreases j,
{
    if j > 0 && is_whitespace(s[j - 1]) {
        lemma_whitespace_back(s, j - 1);
    }
}

pub proof fn lemma_whitespace_back_is(s: Seq<char>, j: int, b: int)
    requires
        0 <= b <= j <= s.len(),
        forall|m: int| b <= m < j ==> is_whitespace(#[trigger] s[m]),
        b > 0 ==> !is_whitespace(s[b - 1]),
    ensures
        whitespace_back(s, j) == b,
    decreases j - b,
{
    if b < j {
        lemma_whitespace_back_is(s, j - 1, b);
    }
}

/// All characters of `s` are whitespace.
pub open spec fn all_whitespace(s: Seq<char>) -> bool {
    forall|m: int| 0 <= m < s.len() ==> is_whitespace(#[trigger] s[m])
}

/// Whitespace around a line does not change it once trimmed.
pub proof fn lemma_trim_surrounded(pre: Seq<char>, m: Seq<char>, post: Seq<char>)
    requires
        all_whitespace(pre),
        all_whitespace(post),
    ensures
        trim(pre + m + post) == trim(m),
{
    let t = pre + m + post;
    let p: int = pre.len() as int;
    lemma_span_end(m, 0, CharClass::Whitespace);
    lemma_whitespace_back(m, m.len() as int);
    let am: int = whitespace_end(m, 0);
    let bm: int = whitespace_back(m, m.len() as int);
    assert forall|i: int| 0 <= i < m.len() implies t[p + i] == m[i] by {}
    assert forall|i: int| 0 <= i < p implies t[i] == pre[i] by {}
    assert forall|i: int| 0 <= i < post.len() implies t[p + m.len() + i] == post[i] by {}
    if am < m.len() {
        assert(!is_whitespace(m[am]));
        assert(am < bm) by {
            if bm <= am {
                assert(is_whitespace(m[am]));
            }
        }
        assert forall|i: int| 0 <= i < p + am implies in_class(
            #[trigger] t[i],
            CharClass::Whitespace,
        ) by {
            if i >= p {
                assert(t[i] == m[i - p]);
            }
        }
        lemma_span_end_is(t, 0, CharClass::Whitespace, p + am);
        assert forall|i: int| p + bm <= i < t.len() implies is_whitespace(#[trigger] t[i]) by {
            if i < p + m.len() {
                assert(t[i] == m[i - p]);
            } else {
                assert(t[i] == post[i - p - m.len()]);
            }
        }
        assert(t[p + bm - 1] == m[bm - 1]);
        lemma_whitespace_back_is(t, t.len() as int, p + bm);
        assert(t.subrange(p + am, p + bm) =~= m.subrange(am, bm));
    } else {
        assert(all_whitespace(m));
        assert forall|i: int| 0 <= i < t.len() implies in_class(
            #[trigger] t[i],
            CharClass::Whitespace,
        ) by {
            if i < p {
            } else if i < p + m.len() {
                assert(t[i] == m[i - p]);
            } else {
                assert(t[i] == post[i - p - m.len()]);
            }
        }
        lemma_span_end_is(t, 0, CharClass::Whitespace, t.len() as int);
        lemma_whitespace_back_is(t, t.len() as int, 0);
        if t.len() > 0 {
            assert(trim(t) == Seq::<char>::empty());
        } else {
            assert(trim(t) =~= Seq::<char>::empty());
        }
        if m.len() > 0 {
            assert(bm == 0) by {
                lemma_whitespace_back_is(m, m.len() as int, 0);
            }
            assert(trim(m) == Seq::<char>::empty());
        } else {
            assert(trim(m) =~= Seq::<char>::empty());
        }
    }
}

/// Whitespace before and after a command line does not change its tokens.
pub proof fn law_surrounding_whitespace(pre: Seq<char>, line: Seq<char>, post: Seq<char>)
    requires
        all_whitespace(pre),
        all_whitespace(post),
    ensures
        line_tokens(pre + line + post) == line_tokens(line),
{
    lemma_trim_surrounded(pre, line, post);
}

/// A line that neither starts nor ends with whitespace is its own trim.
pub proof fn lemma_trim_unchanged(s: Seq<char>)
    requires
        s.len() > 0,
        !is_whitespace(s[0]),
        !is_whitespace(s.last()),
    ensures
        trim(s) == s,
{
    lemma_span_end_is(s, 0, CharClass::Whitespace, 0);
    lemma_whitespace_back_is(s, s.len() as int, s.len() as int);
    assert(s.subrange(0, s.len() as int) =~= s);
}

/// Nothing is read at the end of a line.
pub proof fn lemma_nothing_at_end(s: Seq<char>)
    ensures
        piece(s, s.len() as int) is None,
        pieces_from(s, s.len() as int) == (Seq::<char>::empty(), s.len() as int),
        tokens_from(s, s.len() as int) == (Seq::<TokenView>::empty(), s.len() as int),
{
}

/// The tokens of a line whose first token is an argument reaching its end.
pub proof fn lemma_single_token_line(s: Seq<char>, w: Seq<char>)
    requires
        s.len() > 0,
        !is_whitespace(s[0]),
        !is_whitespace(s.last()),
        stdout_op_end(s, 0) is None,
        stderr_op_end(s, 0) is None,
        word(s, 0) == Some((w, s.len() as int)),
    ensures
        line_tokens(s) == Some(seq![TokenView::Argument(w)]),
{
    lemma_trim_unchanged(s);
    lemma_nothing_at_end(s);
    assert(seq![TokenView::Argument(w)] + Seq::<TokenView>::empty() =~= seq![TokenView::Argument(w)]);
}

/// The line made of a word in single quotes.
pub open spec fn single_quote(w: Seq<char>) -> Seq<char> {
    seq!['\''] + w + seq!['\'']
}

/// Text in single quotes is one argument, taken literally, when it holds no
/// single quote.
pub proof fn law_single_quoted_argument(w: Seq<char>)
    requires
        !w.contains('\''),
    ensures
        line_tokens(single_quote(w)) == Some(seq![TokenView::Argument(w)]),
{
    let s = single_quote(w);
    let e: int = w.len() + 1int;
    assert forall|m: int| 1 <= m < e implies in_class(#[trigger] s[m], CharClass::QuoteFree) by {
        assert(s[m] == w[m - 1]);
        if s[m] == '\'' {
            assert(w.contains('\''));
        }
    }
    lemma_span_end_is(s, 1, CharClass::QuoteFree, e);
    assert(s.subrange(1, e) =~= w);
    lemma_nothing_at_end(s);
    assert(w + Seq::<char>::empty() =~= w);
    lemma_single_token_line(s, w);
}

/// A word written for double quotes: `\` and `"` get a backslash before them.
pub open spec fn escaped(w: Seq<char>) -> Seq<char>
    decreases w.len(),
{
    if w.len() == 0 {
        seq![]
    } else {
        (if w[0] == '\\' || w[0] == '"' {
            seq!['\\', w[0]]
        } else {
            seq![w[0]]
        }) + escaped(w.drop_first())
    }
}

/// The line made of a word in double quotes, escaped.
pub open spec fn double_quote(w: Seq<char>) -> Seq<char> {
    seq!['"'] + escaped(w) + seq!['"']
}

proof fn lemma_escaped_body(s: Seq<char>, k: int, w: Seq<char>)
    requires
        0 <= k,
        k + escaped(w).len() < s.len(),
        s.subrange(k, k + escaped(w).len()) == escaped(w),
        s[k + escaped(w).len()] == '"',
    ensures
        double_quoted_body(s, k) == Some((w, k + escaped(w).len())),
    decreases w.len(),
{
    let e = escaped(w);
    if w.len() == 0 {
    } else {
        let c = w[0];
        let rest = w.drop_first();
        let er = escaped(rest);
        assert(s[k] == e[0]);
        if c == '\\' || c == '"' {
            assert(e =~= seq!['\\', c] + er);
            assert(s[k + 1] == e[1]);
            assert(s.subrange(k + 2, k + 2 + er.len()) =~= s.subrange(k, k + e.len()).subrange(
                2,
                e.len() as int,
            ));
            assert(e.subrange(2, e.len() as int) =~= er);
            lemma_escaped_body(s, k + 2, rest);
            assert(seq![c] + rest =~= w);
        } else {
            assert(e =~= seq![c] + er);
            assert(s.subrange(k + 1, k + 1 + er.len()) =~= s.subrange(k, k + e.len()).subrange(
                1,
                e.len() as int,
            ));
            assert(e.subrange(1, e.len() as int) =~= er);
            lemma_escaped_body(s, k + 1, rest);
            assert(seq![c] + rest =~= w);
        }
    }
}

/// Any text, escaped and put in double quotes, is one argument: the text
/// itself.
pub proof fn law_double_quoted_round_trip(w: Seq<char>)
    ensures
        line_tokens(double_quote(w)) == Some(seq![TokenView::Argument(w)]),
{
    let s = double_quote(w);
    let n: int = escaped(w).len() as int;
    assert(s.subrange(1, 1 + n) =~= escaped(w));
    lemma_escaped_body(s, 1, w);
    lemma_nothing_at_end(s);
    assert(w + Seq::<char>::empty() =~= w);
    lemma_single_token_line(s, w);
}

/// Characters that may stand in a word without quoting: all but space,
/// tab, carriage return, line feed, the two quotes and the backslash.
pub open spec fn is_word_char(c: char) -> bool {
    c != ' ' && c != '\t' && c != '\r' && c != '\n' && c != '"' && c != '\'' && c != '\\'
}

/// Every character but those seven is plain.
pub proof fn law_plain_characters(c: char)
    ensures
        is_plain(c) <==> is_word_char(c),
{
}

/// A word that reads as itself: characters that need no quoting, and not
/// the start of a redirection (`>`, `1>`, `2>`).
pub open spec fn is_simple_word(w: Seq<char>) -> bool {
    &&& w.len() > 0
    &&& forall|m: int| 0 <= m < w.len() ==> is_word_char(#[trigger] w[m])
    &&& w[0] != '>'
    &&& !(w.len() > 1 && (w[0] == '1' || w[0] == '2') && w[1] == '>')
}

/// Each word with a space before it.
pub open spec fn spaced(ws: Seq<Seq<char>>) -> Seq<char>
    decreases ws.len(),
{
    if ws.len() == 0 {
        seq![]
    } else {
        seq![' '] + ws[0] + spaced(ws.drop_first())
    }
}

/// The words separated by single spaces.
pub open spec fn words_line(ws: Seq<Seq<char>>) -> Seq<char> {
    if ws.len() == 0 {
        seq![]
    } else {
        ws[0] + spaced(ws.drop_first())
    }
}

/// The words as argument tokens.
pub open spec fn as_arguments(ws: Seq<Seq<char>>) -> Seq<TokenView> {
    ws.map_values(|w: Seq<char>| TokenView::Argument(w))
}

proof fn lemma_simple_word_token(s: Seq<char>, q: int, w: Seq<char>)
    requires
        0 <= q,
        q + w.len() <= s.len(),
        s.subrange(q, q + w.len()) == w,
        is_simple_word(w),
        q + w.len() == s.len() || s[q + w.len()] == ' ',
    ensures
        token(s, q) == Some((TokenView::Argument(w), q + w.len())),
{
    let e: int = q + w.len();
    assert(s[q] == w[0]);
    assert(is_plain(w[0]));
    if w.len() > 1 {
        assert(s[q + 1] == w[1]);
    }
    assert(stdout_op_end(s, q) is None);
    assert(stderr_op_end(s, q) is None);
    assert forall|m: int| q <= m < e implies in_class(#[trigger] s[m], CharClass::Plain) by {
        assert(s[m] == w[m - q]);
    }
    lemma_span_end_is(s, q, CharClass::Plain, e);
    assert(plain_end(s, q) == e);
    assert(unquoted(s, q) == Some((w, e)));
    assert(piece(s, q) == Some((w, e)));
    assert(piece(s, e) is None);
    assert(pieces_from(s, e) == (Seq::<char>::empty(), e));
    assert(w + Seq::<char>::empty() =~= w);
    assert(word(s, q) == Some((w, e)));
}

proof fn lemma_spaced_tokens(s: Seq<char>, p: int, ws: Seq<Seq<char>>)
    requires
        0 <= p <= s.len(),
        s.subrange(p, s.len() as int) == spaced(ws),
        forall|i: int| 0 <= i < ws.len() ==> is_simple_word(#[trigger] ws[i]),
    ensures
        tokens_from(s, p) == (as_arguments(ws), s.len() as int),
    decreases ws.len(),
{
    if ws.len() == 0 {
        assert(s.subrange(p, s.len() as int).len() == 0);
        assert(as_arguments(ws) =~= Seq::<TokenView>::empty());
    } else {
        let w = ws[0];
        let rest = ws.drop_first();
        let tail = s.subrange(p, s.len() as int);
        assert(is_simple_word(w));
        assert(tail =~= seq![' '] + w + spaced(rest));
        assert(s[p] == tail[0]);
        assert(is_blank(s[p]));
        assert(s[p + 1] == tail[1]);
        assert(tail[1] == w[0]);
        assert(!is_blank(w[0]));
        assert forall|m: int| p <= m < p + 1 implies in_class(#[trigger] s[m], CharClass::Blank) by {}
        lemma_span_end_is(s, p, CharClass::Blank, p + 1);
        let e: int = p + 1 + w.len();
        assert(s.subrange(p + 1, e) =~= tail.subrange(1, 1 + w.len() as int));
        assert(tail.subrange(1, 1 + w.len() as int) =~= w);
        if rest.len() > 0 {
            assert(spaced(rest)[0] == ' ');
            assert(s[e] == tail[1 + w.len() as int]);
        } else {
            assert(spaced(rest).len() == 0);
        }
        lemma_simple_word_token(s, p + 1, w);
        assert(s.subrange(e, s.len() as int) =~= tail.subrange(1 + w.len() as int, tail.len() as int));
        assert(tail.subrange(1 + w.len() as int, tail.len() as int) =~= spaced(rest));
        assert forall|i: int| 0 <= i < rest.len() implies is_simple_word(#[trigger] rest[i]) by {
            assert(rest[i] == ws[i + 1]);
        }
        lemma_spaced_tokens(s, e, rest);
        assert(as_arguments(ws) =~= seq![TokenView::Argument(w)] + as_arguments(rest));
    }
}

proof fn lemma_spaced_last(ws: Seq<Seq<char>>)
    requires
        ws.len() > 0,
        forall|i: int| 0 <= i < ws.len() ==> (#[trigger] ws[i]).len() > 0,
    ensures
        spaced(ws).len() > 0,
        spaced(ws).last() == ws.last().last(),
    decreases ws.len(),
{
    let rest = ws.drop_first();
    if rest.len() > 0 {
        assert forall|i: int| 0 <= i < rest.len() implies (#[trigger] rest[i]).len() > 0 by {
            assert(rest[i] == ws[i + 1]);
        }
        lemma_spaced_last(rest);
        assert(rest.last() == ws.last());
    } else {
        assert(spaced(rest).len() == 0);
    }
    assert(spaced(ws) == seq![' '] + ws[0] + spaced(rest));
}

/// Simple words separated by single spaces, the line neither starting nor
/// ending with whitespace, are read back as exactly those words, each an
/// argument.
pub proof fn law_simple_words(ws: Seq<Seq<char>>)
    requires
        ws.len() > 0,
        forall|i: int| 0 <= i < ws.len() ==> is_simple_word(#[trigger] ws[i]),
        !is_whitespace(ws[0][0]),
        !is_whitespace(ws.last().last()),
    ensures
        line_tokens(words_line(ws)) == Some(as_arguments(ws)),
{
    let s = words_line(ws);
    let w = ws[0];
    let rest = ws.drop_first();
    assert(is_simple_word(w));
    assert(s =~= w + spaced(rest));
    assert(s[0] == w[0]);
    if rest.len() > 0 {
        assert forall|i: int| 0 <= i < rest.len() implies (#[trigger] rest[i]).len() > 0 by {
            assert(is_simple_word(ws[i + 1]));
        }
        lemma_spaced_last(rest);
        assert(s.last() == spaced(rest).last());
        assert(rest.last() == ws[ws.len() - 1]);
        assert(is_simple_word(ws[ws.len() - 1]));
    } else {
        assert(spaced(rest).len() == 0);
        assert(s.last() == w[w.len() - 1]);
    }
    lemma_trim_unchanged(s);
    assert(s.subrange(0, w.len() as int) =~= w);
    if rest.len() > 0 {
        assert(s[w.len() as int] == spaced(rest)[0]);
    }
    lemma_simple_word_token(s, 0, w);
    assert(s.subrange(w.len() as int, s.len() as int) =~= spaced(rest));
    assert forall|i: int| 0 <= i < rest.len() implies is_simple_word(#[trigger] rest[i]) by {
        assert(rest[i] == ws[i + 1]);
    }
    lemma_spaced_tokens(s, w.len() as int, rest);
    assert(as_arguments(ws) =~= seq![TokenView::Argument(w)] + as_arguments(rest));
}

proof fn lemma_arguments_only(ws: Seq<Seq<char>>)
    ensures
        arguments(as_arguments(ws)) == ws,
        first_stdout(as_arguments(ws)) == SinkView::Normal,
        first_stderr(as_arguments(ws)) == SinkView::Normal,
    decreases ws.len(),
{
    if ws.len() > 0 {
        lemma_arguments_only(ws.drop_first());
        assert(as_arguments(ws).drop_first() =~= as_arguments(ws.drop_first()));
        assert(seq![ws[0]] + ws.drop_first() =~= ws);
    } else {
        assert(as_arguments(ws) =~= Seq::<TokenView>::empty());
    }
}

/// A line of simple words makes the command that its words name, with the
/// terminal for output and errors.
pub proof fn law_simple_words_command(ws: Seq<Seq<char>>)
    requires
        ws.len() > 0,
        forall|i: int| 0 <= i < ws.len() ==> is_simple_word(#[trigger] ws[i]),
        !is_whitespace(ws[0][0]),
        !is_whitespace(ws.last().last()),
    ensures
        line_tokens(words_line(ws)) matches Some(ts) && command_of(ts) == (CommandView {
            kind: kind_of(ws),
            stdout: SinkView::Normal,
            stderr: SinkView::Normal,
        }),
{
    law_simple_words(ws);
    lemma_arguments_only(ws);
}

} // verus!
