//! Laws of scanning: how the tokens of a text relate to the tokens of its
//! parts.
use crate::error_handling::error::{ErrorType, ErrorView};
use crate::modules::analyser::{
    breaks_before,
    classifies,
    line_start,
    unicode_whitespace,
    AnalyzedChar,
    CharKind,
};
use crate::modules::grammar::starts_symbol;
use crate::modules::lexemes::{
    append_token,
    comment_end,
    else_if,
    glyphs,
    is_quote,
    is_word_char,
    joins_else,
    lemma_run_bounds,
    lemma_scan_advances,
    lex,
    lex_from,
    literal_text,
    quote_at,
    scan_at,
    word_end,
    Scan,
};
use crate::modules::tokens::{AnalyzedTokenView, TokenView};
use vstd::prelude::*;

verus! {

/// Whether `c` separates tokens: white space or a line break.
pub open spec fn is_separator(c: AnalyzedChar) -> bool {
    c.kind is Whitespace || c.kind is Newline
}

/// Whether a line break stands at or after `i`.
pub open spec fn break_follows(chars: Seq<AnalyzedChar>, i: int) -> bool
    decreases chars.len() - i,
{
    if 0 <= i < chars.len() {
        chars[i].kind is Newline || break_follows(chars, i + 1)
    } else {
        false
    }
}

/// Whether a line comment begins at `i`.
pub open spec fn comment_at(chars: Seq<AnalyzedChar>, i: int) -> bool {
    &&& 0 <= i
    &&& i + 1 < chars.len()
    &&& chars[i].kind == CharKind::Char('/')
    &&& chars[i + 1].kind == CharKind::Char('/')
}

/// Whether scanning `chars` from `i` ends inside a line comment that no
/// line break closes.
pub open spec fn ends_in_comment(chars: Seq<AnalyzedChar>, i: int, path: Seq<char>) -> bool
    decreases chars.len() - i,
{
    if 0 <= i < chars.len() {
        proof {
            lemma_scan_advances(chars, i, path);
        }
        match scan_at(chars, i, path) {
            Scan::Skip { next } => (comment_at(chars, i) && !break_follows(chars, i + 2))
                || ends_in_comment(chars, next, path),
            Scan::Emit { next, .. } => ends_in_comment(chars, next, path),
            Scan::Fail { .. } => false,
        }
    } else {
        false
    }
}

/// A word ends where it ended before when the text goes on with a
/// character that belongs to no word.
proof fn lemma_word_end_prefix(a: Seq<AnalyzedChar>, tail: Seq<AnalyzedChar>, i: int)
    requires
        0 <= i <= a.len(),
        tail.len() == 0 || !is_word_char(tail[0]),
    ensures
        word_end(a + tail, i) == word_end(a, i),
    decreases a.len() - i,
{
    if i < a.len() {
        assert((a + tail)[i] == a[i]);
        lemma_word_end_prefix(a, tail, i + 1);
    } else if tail.len() > 0 {
        assert((a + tail)[i] == tail[0]);
    }
}

/// A closing quote that was found is found again when the text goes on.
proof fn lemma_quote_prefix(a: Seq<AnalyzedChar>, tail: Seq<AnalyzedChar>, i: int)
    requires
        0 <= i <= a.len(),
        quote_at(a, i) < a.len(),
    ensures
        quote_at(a + tail, i) == quote_at(a, i),
    decreases a.len() - i,
{
    if i < a.len() {
        assert((a + tail)[i] == a[i]);
        if !is_quote(a[i]) {
            lemma_quote_prefix(a, tail, i + 1);
        }
    }
}

/// A comment that a line break closed ends there when the text goes on;
/// an open one runs on into what follows.
proof fn lemma_comment_prefix(a: Seq<AnalyzedChar>, tail: Seq<AnalyzedChar>, i: int)
    requires
        0 <= i <= a.len(),
    ensures
        break_follows(a, i) ==> comment_end(a + tail, i) == comment_end(a, i),
        !break_follows(a, i) ==> comment_end(a, i) == a.len() && comment_end(a + tail, i)
            == comment_end(a + tail, a.len() as int),
    decreases a.len() - i,
{
    if i < a.len() {
        assert((a + tail)[i] == a[i]);
        lemma_comment_prefix(a, tail, i + 1);
    }
}

/// Words, strings and comments in a text that follows another end where
/// they end in the text alone, moved by the length of what precedes.
proof fn lemma_runs_suffix(pre: Seq<AnalyzedChar>, b: Seq<AnalyzedChar>, k: int)
    requires
        0 <= k <= b.len(),
    ensures
        word_end(pre + b, pre.len() + k) == pre.len() + word_end(b, k),
        quote_at(pre + b, pre.len() + k) == pre.len() + quote_at(b, k),
        comment_end(pre + b, pre.len() + k) == pre.len() + comment_end(b, k),
    decreases b.len() - k,
{
    if k < b.len() {
        assert((pre + b)[pre.len() + k] == b[k]);
        lemma_runs_suffix(pre, b, k + 1);
    }
}

/// A scanning step, moved forward by `by` characters.
pub open spec fn moved(step: Scan, by: int) -> Scan {
    match step {
        Scan::Skip { next } => Scan::Skip { next: next + by },
        Scan::Emit { token, next } => Scan::Emit { token, next: next + by },
        Scan::Fail { error } => Scan::Fail { error },
    }
}

/// What stands at a position of a text that follows another is what
/// stands there in the text alone.
proof fn lemma_scan_suffix(pre: Seq<AnalyzedChar>, b: Seq<AnalyzedChar>, k: int, path: Seq<char>)
    requires
        0 <= k < b.len(),
    ensures
        scan_at(pre + b, pre.len() + k, path) == moved(scan_at(b, k, path), pre.len() as int),
{
    let whole = pre + b;
    let p = pre.len() as int;
    assert(whole[p + k] == b[k]);
    lemma_runs_suffix(pre, b, k);
    lemma_runs_suffix(pre, b, k + 1);
    lemma_run_bounds(b, k);
    lemma_run_bounds(b, k + 1);
    if k + 1 < b.len() {
        assert(whole[p + k + 1] == b[k + 1]);
    }
    if k + 2 < b.len() {
        assert(whole[p + k + 2] == b[k + 2]);
    }
    if k + 2 <= b.len() {
        lemma_runs_suffix(pre, b, k + 2);
    }
    match b[k].kind {
        CharKind::Char(g) => {
            if g == '"' {
                let close = quote_at(b, k + 1);
                assert(whole.subrange(p + k + 1, p + close) =~= b.subrange(k + 1, close));
            } else if g == '\'' {
            } else if starts_symbol(g) {
            } else {
                let end = word_end(b, k);
                assert(whole.subrange(p + k, p + end) =~= b.subrange(k, end));
            }
        },
        _ => {},
    }
}

/// Scanning a text that follows another, from a position in it, gives
/// what scanning the text alone gives from that position.
pub proof fn lemma_lex_suffix(
    pre: Seq<AnalyzedChar>,
    b: Seq<AnalyzedChar>,
    k: int,
    out: Seq<AnalyzedTokenView>,
    path: Seq<char>,
)
    requires
        0 <= k <= b.len(),
    ensures
        lex_from(pre + b, pre.len() + k, out, path) == lex_from(b, k, out, path),
    decreases b.len() - k,
{
    if k < b.len() {
        lemma_scan_suffix(pre, b, k, path);
        lemma_scan_advances(b, k, path);
        match scan_at(b, k, path) {
            Scan::Skip { next } => {
                lemma_lex_suffix(pre, b, next, out, path);
            },
            Scan::Emit { token, next } => {
                lemma_lex_suffix(pre, b, next, append_token(out, token), path);
            },
            Scan::Fail { .. } => {},
        }
    }
}

/// What stands at a position of a text is what stands there when the text
/// goes on after a separator, unless it is a comment that runs to the end
/// of the text: that one runs on.
proof fn lemma_scan_prefix(a: Seq<AnalyzedChar>, tail: Seq<AnalyzedChar>, i: int, path: Seq<char>)
    requires
        0 <= i < a.len(),
        tail.len() > 0,
        is_separator(tail[0]),
        !(scan_at(a, i, path) is Fail),
    ensures
        !(comment_at(a, i) && !break_follows(a, i + 2)) ==> scan_at(a + tail, i, path) == scan_at(
            a,
            i,
            path,
        ),
        comment_at(a, i) && !break_follows(a, i + 2) ==> {
            &&& scan_at(a, i, path) == Scan::Skip { next: a.len() as int }
            &&& scan_at(a + tail, i, path) == Scan::Skip {
                next: comment_end(a + tail, a.len() as int),
            }
        },
{
    let whole = a + tail;
    assert(whole[i] == a[i]);
    assert(whole[a.len() as int] == tail[0]);
    if i + 1 < a.len() {
        assert(whole[i + 1] == a[i + 1]);
    }
    if i + 2 < a.len() {
        assert(whole[i + 2] == a[i + 2]);
    }
    lemma_run_bounds(a, i);
    lemma_run_bounds(a, i + 1);
    match a[i].kind {
        CharKind::Char(g) => {
            if g == '"' {
                let close = quote_at(a, i + 1);
                lemma_quote_prefix(a, tail, i + 1);
                assert(whole.subrange(i + 1, close) =~= a.subrange(i + 1, close));
            } else if g == '\'' {
            } else if starts_symbol(g) {
                if i + 2 <= a.len() {
                    lemma_comment_prefix(a, tail, i + 2);
                }
            } else {
                let end = word_end(a, i);
                lemma_word_end_prefix(a, tail, i);
                assert(whole.subrange(i, end) =~= a.subrange(i, end));
            }
        },
        _ => {},
    }
}

/// Whether every character of `run` separates tokens.
pub open spec fn all_separators(run: Seq<AnalyzedChar>) -> bool {
    forall|k: int| 0 <= k < run.len() ==> is_separator(#[trigger] run[k])
}

/// Scanning passes over separators without emitting anything.
proof fn lemma_skip_separators(
    chars: Seq<AnalyzedChar>,
    from: int,
    to: int,
    out: Seq<AnalyzedTokenView>,
    path: Seq<char>,
)
    requires
        0 <= from <= to <= chars.len(),
        forall|k: int| from <= k < to ==> is_separator(#[trigger] chars[k]),
    ensures
        lex_from(chars, from, out, path) == lex_from(chars, to, out, path),
    decreases to - from,
{
    if from < to {
        assert(is_separator(chars[from]));
        lemma_skip_separators(chars, from + 1, to, out, path);
    }
}

/// A line break at `j` is a line break that follows every position up to `j`.
proof fn lemma_break_found(run: Seq<AnalyzedChar>, i: int, j: int)
    requires
        0 <= i <= j < run.len(),
        run[j].kind is Newline,
    ensures
        break_follows(run, i),
    decreases j - i,
{
    if i < j {
        lemma_break_found(run, i + 1, j);
    }
}

/// Scanning a text that goes on after a run of separators first gives
/// what scanning the text alone gives, then goes on behind the run.
proof fn lemma_lex_prefix(
    a: Seq<AnalyzedChar>,
    separators: Seq<AnalyzedChar>,
    b: Seq<AnalyzedChar>,
    i: int,
    out: Seq<AnalyzedTokenView>,
    path: Seq<char>,
)
    requires
        0 <= i <= a.len(),
        separators.len() > 0,
        all_separators(separators),
        lex_from(a, i, out, path) is Ok,
        !ends_in_comment(a, i, path) || break_follows(separators, 0),
    ensures
        lex_from(a, i, out, path) matches Ok(done) && lex_from(
            a + (separators + b),
            i,
            out,
            path,
        ) == lex_from(a + (separators + b), (a.len() + separators.len()) as int, done, path),
    decreases a.len() - i,
{
    let tail = separators + b;
    let whole = a + tail;
    let behind = (a.len() + separators.len()) as int;
    assert(tail[0] == separators[0]);
    assert forall|k: int| a.len() <= k < behind implies is_separator(#[trigger] whole[k]) by {
        assert(whole[k] == separators[k - a.len()]);
    }
    if i < a.len() {
        lemma_scan_advances(a, i, path);
        lemma_scan_prefix(a, tail, i, path);
        if comment_at(a, i) && !break_follows(a, i + 2) {
            assert(ends_in_comment(a, i, path));
            lemma_runs_suffix(a, tail, 0);
            lemma_comment_prefix(separators, b, 0);
            lemma_run_bounds(separators, 0);
            let resume = a.len() + comment_end(separators, 0);
            assert(comment_end(whole, a.len() as int) == resume);
            lemma_skip_separators(whole, resume, behind, out, path);
            assert(lex_from(a, a.len() as int, out, path) == Ok::<_, ErrorView>(out));
        } else {
            match scan_at(a, i, path) {
                Scan::Skip { next } => {
                    lemma_lex_prefix(a, separators, b, next, out, path);
                },
                Scan::Emit { token, next } => {
                    lemma_lex_prefix(a, separators, b, next, append_token(out, token), path);
                },
                Scan::Fail { .. } => {},
            }
        }
    } else {
        lemma_skip_separators(whole, a.len() as int, behind, out, path);
    }
}

/// Whether scanning fails does not depend on the tokens emitted before.
proof fn lemma_failure_ignores_tokens(
    chars: Seq<AnalyzedChar>,
    k: int,
    u: Seq<AnalyzedTokenView>,
    v: Seq<AnalyzedTokenView>,
    path: Seq<char>,
)
    ensures
        match lex_from(chars, k, u, path) {
            Ok(_) => lex_from(chars, k, v, path) is Ok,
            Err(e) => lex_from(chars, k, v, path) == Err::<Seq<AnalyzedTokenView>, ErrorView>(e),
        },
    decreases chars.len() - k,
{
    if 0 <= k < chars.len() {
        lemma_scan_advances(chars, k, path);
        match scan_at(chars, k, path) {
            Scan::Skip { next } => {
                lemma_failure_ignores_tokens(chars, next, u, v, path);
            },
            Scan::Emit { token, next } => {
                lemma_failure_ignores_tokens(
                    chars,
                    next,
                    append_token(u, token),
                    append_token(v, token),
                    path,
                );
            },
            Scan::Fail { .. } => {},
        }
    }
}

/// Tokens that stand before the last emitted one are carried through
/// unchanged.
proof fn lemma_lex_carries(
    chars: Seq<AnalyzedChar>,
    k: int,
    x: Seq<AnalyzedTokenView>,
    y: Seq<AnalyzedTokenView>,
    path: Seq<char>,
)
    requires
        y.len() > 0,
    ensures
        lex_from(chars, k, x + y, path) == (match lex_from(chars, k, y, path) {
            Ok(r) => Ok(x + r),
            Err(e) => Err(e),
        }),
    decreases chars.len() - k,
{
    if 0 <= k < chars.len() {
        lemma_scan_advances(chars, k, path);
        match scan_at(chars, k, path) {
            Scan::Skip { next } => {
                lemma_lex_carries(chars, next, x, y, path);
            },
            Scan::Emit { token, next } => {
                assert((x + y).last() == y.last());
                assert(append_token(x + y, token) =~= x + append_token(y, token));
                lemma_lex_carries(chars, next, x, append_token(y, token), path);
            },
            Scan::Fail { .. } => {},
        }
    }
}

/// The first token emitted stays the first, and stays as it is unless it
/// is an `else`.
proof fn lemma_first_token_stays(
    chars: Seq<AnalyzedChar>,
    k: int,
    y: Seq<AnalyzedTokenView>,
    path: Seq<char>,
)
    requires
        y.len() > 0,
        y[0].token != TokenView::Else,
        lex_from(chars, k, y, path) is Ok,
    ensures
        lex_from(chars, k, y, path) matches Ok(r) && r.len() > 0 && r[0] == y[0],
    decreases chars.len() - k,
{
    if 0 <= k < chars.len() {
        lemma_scan_advances(chars, k, path);
        match scan_at(chars, k, path) {
            Scan::Skip { next } => {
                lemma_first_token_stays(chars, next, y, path);
            },
            Scan::Emit { token, next } => {
                lemma_first_token_stays(chars, next, append_token(y, token), path);
            },
            Scan::Fail { .. } => {},
        }
    }
}

/// Whether the last of the tokens `before` and the first of the tokens
/// `after` are an `else` and an `if`.
pub open spec fn else_meets_if(before: Seq<AnalyzedTokenView>, after: Seq<AnalyzedTokenView>) -> bool {
    &&& before.len() > 0
    &&& before.last().token == TokenView::Else
    &&& after.len() > 0
    &&& after[0].token == TokenView::If
}

/// The tokens `before` followed by the tokens `after`, where the last of
/// `before` and the first of `after` are joined into one `else if`.
pub open spec fn joined(before: Seq<AnalyzedTokenView>, after: Seq<AnalyzedTokenView>) -> Seq<
    AnalyzedTokenView,
> {
    before.drop_last().push(else_if(before.last())) + after.drop_first()
}

/// Scanning with tokens already emitted gives those tokens followed by
/// what scanning with none gives, with an `else` and an `if` that meet
/// at the seam joined.
proof fn lemma_lex_after(
    chars: Seq<AnalyzedChar>,
    k: int,
    x: Seq<AnalyzedTokenView>,
    path: Seq<char>,
)
    ensures
        match lex_from(chars, k, Seq::empty(), path) {
            Ok(after) => lex_from(chars, k, x, path) == Ok::<Seq<AnalyzedTokenView>, ErrorView>(
                if else_meets_if(x, after) {
                    joined(x, after)
                } else {
                    x + after
                },
            ),
            Err(e) => lex_from(chars, k, x, path) == Err::<Seq<AnalyzedTokenView>, ErrorView>(e),
        },
    decreases chars.len() - k,
{
    let none = Seq::<AnalyzedTokenView>::empty();
    if 0 <= k < chars.len() {
        lemma_scan_advances(chars, k, path);
        match scan_at(chars, k, path) {
            Scan::Skip { next } => {
                lemma_lex_after(chars, next, x, path);
            },
            Scan::Emit { token, next } => {
                let first = seq![token];
                assert(append_token(none, token) =~= first);
                lemma_failure_ignores_tokens(chars, next, first, append_token(x, token), path);
                if lex_from(chars, next, first, path) is Ok {
                    let after = lex_from(chars, next, first, path)->Ok_0;
                    if joins_else(x, token) {
                        let merged = x.drop_last().push(else_if(x.last()));
                        lemma_first_token_stays(chars, next, first, path);
                        lemma_lex_tail(chars, next, merged, first, path);
                        assert(merged + after.drop_first() =~= joined(x, after));
                    } else {
                        assert(append_token(x, token) =~= x + first);
                        lemma_lex_carries(chars, next, x, first, path);
                        if token.token != TokenView::Else {
                            lemma_first_token_stays(chars, next, first, path);
                        } else {
                            lemma_first_token_kind(chars, next, first, path);
                        }
                    }
                }
            },
            Scan::Fail { .. } => {},
        }
    } else {
        assert(x + none =~= x);
    }
}

/// A first token that is an `else` stays an `else` or becomes an
/// `else if`: it never becomes an `if`.
proof fn lemma_first_token_kind(
    chars: Seq<AnalyzedChar>,
    k: int,
    y: Seq<AnalyzedTokenView>,
    path: Seq<char>,
)
    requires
        y.len() > 0,
        y[0].token != TokenView::If,
        lex_from(chars, k, y, path) is Ok,
    ensures
        lex_from(chars, k, y, path) matches Ok(r) && r.len() > 0 && r[0].token != TokenView::If,
    decreases chars.len() - k,
{
    if 0 <= k < chars.len() {
        lemma_scan_advances(chars, k, path);
        match scan_at(chars, k, path) {
            Scan::Skip { next } => {
                lemma_first_token_kind(chars, next, y, path);
            },
            Scan::Emit { token, next } => {
                lemma_first_token_kind(chars, next, append_token(y, token), path);
            },
            Scan::Fail { .. } => {},
        }
    }
}

/// After a token that is no `else`, scanning appends the same tokens
/// whatever else was emitted before.
proof fn lemma_lex_tail(
    chars: Seq<AnalyzedChar>,
    k: int,
    u: Seq<AnalyzedTokenView>,
    v: Seq<AnalyzedTokenView>,
    path: Seq<char>,
)
    requires
        u.len() > 0,
        v.len() > 0,
        u.last().token != TokenView::Else,
        v.last().token != TokenView::Else,
        lex_from(chars, k, v, path) is Ok,
    ensures
        lex_from(chars, k, v, path) matches Ok(r) && r.len() >= v.len() && lex_from(
            chars,
            k,
            u,
            path,
        ) == Ok::<Seq<AnalyzedTokenView>, ErrorView>(u + r.subrange(v.len() as int, r.len() as int)),
    decreases chars.len() - k,
{
    if 0 <= k < chars.len() {
        lemma_scan_advances(chars, k, path);
        match scan_at(chars, k, path) {
            Scan::Skip { next } => {
                lemma_lex_tail(chars, next, u, v, path);
            },
            Scan::Emit { token, next } => {
                let single = seq![token];
                assert(append_token(u, token) =~= u + single);
                assert(append_token(v, token) =~= v + single);
                lemma_lex_carries(chars, next, u, single, path);
                lemma_lex_carries(chars, next, v, single, path);
                let r = lex_from(chars, next, single, path)->Ok_0;
                assert((v + r).subrange(v.len() as int, (v + r).len() as int) =~= r);
            },
            Scan::Fail { .. } => {},
        }
    } else {
        assert(v.subrange(v.len() as int, v.len() as int) =~= Seq::empty());
        assert(u + Seq::empty() =~= u);
    }
}

/// Scanning two texts that a run of separators joins gives the tokens of
/// the first followed by the outcome of the second: white space at the
/// seam changes no token. An `else` at the end of the first and an `if`
/// at the start of the second are joined as they are within one text.
/// The first text must scan, and must not end in a line comment that is
/// still open, unless the run holds a line break, which closes it.
pub proof fn lemma_tokens_of_concatenation(
    a: Seq<AnalyzedChar>,
    separators: Seq<AnalyzedChar>,
    b: Seq<AnalyzedChar>,
    path: Seq<char>,
)
    requires
        separators.len() > 0,
        all_separators(separators),
        lex(a, path) is Ok,
        !ends_in_comment(a, 0, path) || break_follows(separators, 0),
    ensures
        lex(a, path) matches Ok(before) && (match lex(b, path) {
            Ok(after) => lex(a + separators + b, path) == Ok::<Seq<AnalyzedTokenView>, ErrorView>(
                if else_meets_if(before, after) {
                    joined(before, after)
                } else {
                    before + after
                },
            ),
            Err(e) => lex(a + separators + b, path) == Err::<Seq<AnalyzedTokenView>, ErrorView>(e),
        }),
{
    let pre = a + separators;
    let whole = a + separators + b;
    assert(whole =~= a + (separators + b));
    let none = Seq::<AnalyzedTokenView>::empty();
    lemma_lex_prefix(a, separators, b, 0, none, path);
    let before = lex(a, path)->Ok_0;
    lemma_lex_suffix(pre, b, 0, before, path);
    lemma_lex_after(b, 0, before, path);
}

/// Whether `error` is a scanning failure anchored at a character of
/// `chars`, in the file at `path`.
pub open spec fn anchored_in(error: ErrorView, chars: Seq<AnalyzedChar>, path: Seq<char>) -> bool {
    &&& error.err_type == ErrorType::LexingError
    &&& error.message is Some
    &&& error.file_path == Some(path)
    &&& error.well_anchored()
    &&& exists|k: int|
        0 <= k < chars.len() && error.line == Some((#[trigger] chars[k]).line as nat)
            && error.column == Some(chars[k].column as nat)
}

/// Every failure of scanning is a scanning failure with a message, names
/// the file and carries the line and the column of a character of the
/// input.
pub proof fn lemma_failures_are_anchored(
    chars: Seq<AnalyzedChar>,
    i: int,
    out: Seq<AnalyzedTokenView>,
    path: Seq<char>,
)
    ensures
        lex_from(chars, i, out, path) matches Err(error) ==> anchored_in(error, chars, path),
    decreases chars.len() - i,
{
    if 0 <= i < chars.len() {
        lemma_scan_advances(chars, i, path);
        match scan_at(chars, i, path) {
            Scan::Skip { next } => {
                lemma_failures_are_anchored(chars, next, out, path);
            },
            Scan::Emit { token, next } => {
                lemma_failures_are_anchored(chars, next, append_token(out, token), path);
            },
            Scan::Fail { error } => {
                let at = chars[i];
                assert(error.line == Some(at.line as nat) && error.column == Some(
                    at.column as nat,
                ));
            },
        }
    }
}

/// A token without its position: what it is and how long it is.
pub open spec fn shape(token: AnalyzedTokenView) -> (TokenView, nat) {
    (token.token, token.length)
}

/// The tokens of a sequence without their positions.
pub open spec fn shapes(tokens: Seq<AnalyzedTokenView>) -> Seq<(TokenView, nat)> {
    tokens.map_values(|t: AnalyzedTokenView| shape(t))
}

/// Whether two character sequences hold the same kinds in the same order,
/// whatever their positions.
pub open spec fn same_kinds(first: Seq<AnalyzedChar>, second: Seq<AnalyzedChar>) -> bool {
    &&& first.len() == second.len()
    &&& forall|i: int| 0 <= i < first.len() ==> (#[trigger] first[i]).kind == second[i].kind
}

/// Whether two failures differ in their anchor at most.
pub open spec fn same_failure(first: ErrorView, second: ErrorView) -> bool {
    &&& first.err_type == second.err_type
    &&& first.message == second.message
    &&& first.file_path == second.file_path
    &&& first.length == second.length
}

/// Whether two outcomes of scanning differ in positions at most.
pub open spec fn alike(
    first: Result<Seq<AnalyzedTokenView>, ErrorView>,
    second: Result<Seq<AnalyzedTokenView>, ErrorView>,
) -> bool {
    match first {
        Ok(tokens) => second matches Ok(others) && shapes(tokens) == shapes(others),
        Err(e) => second matches Err(other) && same_failure(e, other),
    }
}

/// Whether two scanning steps differ in positions at most.
pub open spec fn same_step(first: Scan, second: Scan) -> bool {
    match first {
        Scan::Skip { next } => second == first,
        Scan::Emit { token, next } => second matches Scan::Emit { token: other, next: there }
            && there == next && shape(other) == shape(token),
        Scan::Fail { error } => second matches Scan::Fail { error: other } && same_failure(
            error,
            other,
        ),
    }
}

/// Words, strings and comments end at the same places in sequences of the
/// same kinds.
proof fn lemma_runs_same_kinds(first: Seq<AnalyzedChar>, second: Seq<AnalyzedChar>, i: int)
    requires
        same_kinds(first, second),
        0 <= i <= first.len(),
    ensures
        word_end(first, i) == word_end(second, i),
        quote_at(first, i) == quote_at(second, i),
        comment_end(first, i) == comment_end(second, i),
    decreases first.len() - i,
{
    if i < first.len() {
        assert(first[i].kind == second[i].kind);
        lemma_runs_same_kinds(first, second, i + 1);
    }
}

/// The same stands at a position of two sequences of the same kinds.
proof fn lemma_scan_same_kinds(
    first: Seq<AnalyzedChar>,
    second: Seq<AnalyzedChar>,
    i: int,
    path: Seq<char>,
)
    requires
        same_kinds(first, second),
        0 <= i < first.len(),
    ensures
        same_step(scan_at(first, i, path), scan_at(second, i, path)),
{
    assert(first[i].kind == second[i].kind);
    lemma_runs_same_kinds(first, second, i);
    lemma_runs_same_kinds(first, second, i + 1);
    lemma_run_bounds(first, i);
    lemma_run_bounds(first, i + 1);
    if i + 1 < first.len() {
        assert(first[i + 1].kind == second[i + 1].kind);
    }
    if i + 2 < first.len() {
        assert(first[i + 2].kind == second[i + 2].kind);
    }
    if i + 2 <= first.len() {
        lemma_runs_same_kinds(first, second, i + 2);
    }
    match first[i].kind {
        CharKind::Char(g) => {
            if g == '"' {
                let close = quote_at(first, i + 1);
                if close < first.len() {
                    let one = first.subrange(i + 1, close);
                    let two = second.subrange(i + 1, close);
                    assert forall|k: int| 0 <= k < one.len() implies literal_text(one)[k]
                        == literal_text(two)[k] by {
                        assert(first[i + 1 + k].kind == second[i + 1 + k].kind);
                    }
                    assert(literal_text(one) =~= literal_text(two));
                }
            } else if g == '\'' {
            } else if starts_symbol(g) {
            } else {
                let end = word_end(first, i);
                let one = first.subrange(i, end);
                let two = second.subrange(i, end);
                assert forall|k: int| 0 <= k < one.len() implies glyphs(one)[k] == glyphs(two)[k] by {
                    assert(first[i + k].kind == second[i + k].kind);
                }
                assert(glyphs(one) =~= glyphs(two));
            }
        },
        _ => {},
    }
}

/// Scanning two sequences of the same kinds gives the same tokens and
/// the same failure, positions apart.
pub proof fn lemma_lex_same_kinds(
    first: Seq<AnalyzedChar>,
    second: Seq<AnalyzedChar>,
    i: int,
    out: Seq<AnalyzedTokenView>,
    others: Seq<AnalyzedTokenView>,
    path: Seq<char>,
)
    requires
        same_kinds(first, second),
        shapes(out) == shapes(others),
    ensures
        alike(lex_from(first, i, out, path), lex_from(second, i, others, path)),
    decreases first.len() - i,
{
    if 0 <= i < first.len() {
        lemma_scan_advances(first, i, path);
        lemma_scan_same_kinds(first, second, i, path);
        match scan_at(first, i, path) {
            Scan::Skip { next } => {
                lemma_lex_same_kinds(first, second, next, out, others, path);
            },
            Scan::Emit { token, next } => {
                let other = scan_at(second, i, path)->token;
                assert(out.len() == shapes(out).len());
                assert(others.len() == shapes(others).len());
                if out.len() > 0 {
                    assert(shape(out.last()) == shapes(out)[out.len() - 1]);
                    assert(shape(others.last()) == shapes(others)[others.len() - 1]);
                }
                let grown = append_token(out, token);
                let grown_others = append_token(others, other);
                assert(grown.len() == grown_others.len());
                assert forall|k: int| 0 <= k < grown.len() implies shape(grown[k]) == shape(
                    grown_others[k],
                ) by {
                    if k < out.len() {
                        assert(shape(out[k]) == shapes(out)[k]);
                        assert(shape(others[k]) == shapes(others)[k]);
                    }
                }
                assert(shapes(grown) =~= shapes(grown_others));
                lemma_lex_same_kinds(first, second, next, grown, grown_others, path);
            },
            Scan::Fail { .. } => {},
        }
    }
}

/// Lines and columns within a text do not depend on what follows it.
proof fn lemma_positions_prefix(x: Seq<char>, rest: Seq<char>, i: int)
    requires
        0 <= i <= x.len(),
    ensures
        breaks_before(x + rest, i) == breaks_before(x, i),
        line_start(x + rest, i) == line_start(x, i),
    decreases i,
{
    if i > 0 {
        assert((x + rest)[i - 1] == x[i - 1]);
        lemma_positions_prefix(x, rest, i - 1);
    }
}

/// Whether `c` is white space, a line break included.
pub open spec fn is_blank(c: char) -> bool {
    c == '\n' || unicode_whitespace(c)
}

/// Scanning the text `x`, a run of white space and the text `y` in one
/// gives the tokens of `x` followed by the outcome of `y`, positions
/// apart: what `y` yields is the same as on its own, only anchored
/// further on. `cx`, `cy` and `cxy` are the classifications of the two
/// texts and of the joined text. An `else` at the end of `x` and an `if`
/// at the start of `y` are joined as they are within one text. `x` must
/// scan, and must not end in a line comment that is still open, unless
/// the white space holds a line break, which closes it.
pub proof fn lemma_tokens_of_joined_texts(
    x: Seq<char>,
    blank: Seq<char>,
    y: Seq<char>,
    cx: Seq<AnalyzedChar>,
    cy: Seq<AnalyzedChar>,
    cxy: Seq<AnalyzedChar>,
    path: Seq<char>,
)
    requires
        classifies(x, cx),
        classifies(y, cy),
        classifies(x + blank + y, cxy),
        blank.len() > 0,
        forall|k: int| 0 <= k < blank.len() ==> is_blank(#[trigger] blank[k]),
        lex(cx, path) is Ok,
        !ends_in_comment(cx, 0, path) || blank.contains('\n'),
    ensures
        lex(cx, path) matches Ok(before) && (match lex(cy, path) {
            Ok(after) => lex(cxy, path) matches Ok(all) && shapes(all) == shapes(
                if else_meets_if(before, after) {
                    joined(before, after)
                } else {
                    before + after
                },
            ),
            Err(e) => lex(cxy, path) matches Err(other) && same_failure(other, e),
        }),
{
    let text = x + blank + y;
    let n = x.len() as int;
    let m = blank.len() as int;
    let run = cxy.subrange(n, n + m);
    let suffix = cxy.subrange(n + m, cxy.len() as int);
    assert(text =~= x + (blank + y));
    assert forall|k: int| 0 <= k < run.len() implies is_separator(#[trigger] run[k]) by {
        assert(text[n + k] == blank[k]);
        assert(is_blank(blank[k]));
        assert(run[k] == cxy[n + k]);
    }
    if blank.contains('\n') {
        let j = choose|j: int| 0 <= j < blank.len() && blank[j] == '\n';
        assert(text[n + j] == blank[j]);
        assert(run[j] == cxy[n + j]);
        lemma_break_found(run, 0, j);
    }
    assert forall|i: int| 0 <= i < n implies cxy[i] == cx[i] by {
        assert(text[i] == x[i]);
        lemma_positions_prefix(x, blank + y, i);
        let here = cxy[i];
        let there = cx[i];
        assert(here.kind == there.kind && here.line == there.line && here.column
            == there.column);
    }
    assert(cxy =~= cx + run + suffix);
    assert forall|k: int| 0 <= k < suffix.len() implies (#[trigger] suffix[k]).kind
        == cy[k].kind by {
        assert(text[n + m + k] == y[k]);
        assert(suffix[k] == cxy[n + m + k]);
    }
    assert(same_kinds(suffix, cy));
    lemma_tokens_of_concatenation(cx, run, suffix, path);
    let none = Seq::<AnalyzedTokenView>::empty();
    lemma_lex_same_kinds(suffix, cy, 0, none, none, path);
    let before = lex(cx, path)->Ok_0;
    if lex(cy, path) is Ok {
        let after = lex(cy, path)->Ok_0;
        let found = lex(suffix, path)->Ok_0;
        assert(found.len() == shapes(found).len());
        assert(after.len() == shapes(after).len());
        if found.len() > 0 {
            assert(shape(found[0]) == shapes(found)[0]);
            assert(shape(after[0]) == shapes(after)[0]);
        }
        assert(else_meets_if(before, found) == else_meets_if(before, after));
        assert forall|k: int| 0 <= k < found.len() implies shape(#[trigger] found[k]) == shape(
            after[k],
        ) by {
            assert(shape(found[k]) == shapes(found)[k]);
            assert(shape(after[k]) == shapes(after)[k]);
        }
        if else_meets_if(before, after) {
            assert(shapes(joined(before, found)) =~= shapes(joined(before, after)));
        } else {
            assert(shapes(before + found) =~= shapes(before + after));
        }
    }
}

} // verus!
