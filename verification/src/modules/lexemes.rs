//! What the token sequence of a character sequence is: the lexemes of the
//! language, stated over classified characters.
use crate::error_handling::error::{ErrorType, ErrorView};
use crate::modules::analyser::{AnalyzedChar, CharKind};
use crate::modules::grammar::{
    all_digits,
    all_identifier_parts,
    comment_marker,
    digits_value,
    double_symbol,
    identifier_start,
    is_symbol,
    keyword,
    pair_token,
    single_token,
    starts_symbol,
};
use crate::modules::tokens::{AnalyzedTokenView, TokenView};
use vstd::prelude::*;

verus! {

/// A scanning failure anchored at a line and a column of the file at `path`.
pub open spec fn lexing_error(message: Seq<char>, line: nat, column: nat, path: Seq<char>) -> ErrorView {
    ErrorView {
        err_type: ErrorType::LexingError,
        message: Some(message),
        line: Some(line),
        column: Some(column),
        file_path: Some(path),
        length: None,
    }
}

/// A scanning failure that also says how many characters it covers.
pub open spec fn lexing_error_over(
    message: Seq<char>,
    line: nat,
    column: nat,
    path: Seq<char>,
    length: nat,
) -> ErrorView {
    ErrorView { length: Some(length), ..lexing_error(message, line, column, path) }
}

/// `prefix`, then `text`, then a closing quote mark.
pub open spec fn quoting(prefix: Seq<char>, text: Seq<char>) -> Seq<char> {
    prefix + text + "'"@
}

/// Whether `text` is a well-formed identifier. The empty text is none; a
/// first character that is neither alphabetic nor an underscore is a
/// failure of its own; otherwise every character has to be alphanumeric
/// or an underscore.
pub open spec fn identifier_check(text: Seq<char>, line: nat, column: nat, path: Seq<char>) -> Result<
    bool,
    ErrorView,
> {
    if text.len() == 0 {
        Ok(false)
    } else if !identifier_start(text[0]) {
        Err(
            lexing_error_over(
                quoting("Invalid identifier: Identifier cannot start with a number! -> '"@, text),
                line,
                column,
                path,
                text.len(),
            ),
        )
    } else {
        Ok(all_identifier_parts(text))
    }
}

/// The largest value a number literal can have.
pub open spec fn number_limit() -> nat {
    0x7fff_ffff
}

/// The token that the word `text` stands for: an entry of the symbol
/// table, else a number, else a reserved word, else an identifier. A digit
/// run too large for a number and a word that is no identifier are
/// failures anchored at the word's start.
pub open spec fn word_token(text: Seq<char>, line: nat, column: nat, path: Seq<char>) -> Result<
    TokenView,
    ErrorView,
> {
    if is_symbol(text) {
        Ok(TokenView::Symbol(text))
    } else if text.len() > 0 && all_digits(text) {
        if digits_value(text) <= number_limit() {
            Ok(TokenView::Number(digits_value(text) as i32))
        } else {
            Err(
                lexing_error_over(
                    quoting("Number literal out of range! -> '"@, text),
                    line,
                    column,
                    path,
                    text.len(),
                ),
            )
        }
    } else if keyword(text) is Some {
        Ok(keyword(text)->0)
    } else {
        match identifier_check(text, line, column, path) {
            Ok(true) => Ok(TokenView::Identifier(text)),
            Ok(false) => Err(
                lexing_error_over(
                    quoting("Unexpected token! -> '"@, text),
                    line,
                    column,
                    path,
                    text.len(),
                ),
            ),
            Err(e) => Err(e),
        }
    }
}

/// The glyph of a classified character.
pub open spec fn glyph_of(c: AnalyzedChar) -> char {
    match c.kind {
        CharKind::Char(g) => g,
        _ => '\u{FFFD}',
    }
}

/// The glyphs of a run of classified characters.
pub open spec fn glyphs(run: Seq<AnalyzedChar>) -> Seq<char> {
    run.map_values(|c: AnalyzedChar| glyph_of(c))
}

/// Whether `c` belongs to a word: a glyph with which no symbol begins.
pub open spec fn is_word_char(c: AnalyzedChar) -> bool {
    c.kind matches CharKind::Char(g) && !starts_symbol(g)
}

/// The end of the longest run of word characters that begins at `i`.
pub open spec fn word_end(chars: Seq<AnalyzedChar>, i: int) -> int
    decreases chars.len() - i,
{
    if 0 <= i < chars.len() && is_word_char(chars[i]) {
        word_end(chars, i + 1)
    } else {
        i
    }
}

/// The character that `c` contributes to a literal: its glyph, a space for
/// white space, a line feed for a line break.
pub open spec fn literal_char(c: AnalyzedChar) -> char {
    match c.kind {
        CharKind::Char(g) => g,
        CharKind::Whitespace => ' ',
        CharKind::Newline => '\n',
    }
}

/// The text that a run of classified characters contributes to a literal.
pub open spec fn literal_text(run: Seq<AnalyzedChar>) -> Seq<char> {
    run.map_values(|c: AnalyzedChar| literal_char(c))
}

/// Whether `c` is the double quote that delimits a string literal.
pub open spec fn is_quote(c: AnalyzedChar) -> bool {
    c.kind == CharKind::Char('"')
}

/// The index of the first double quote at or after `i`, or the length of
/// `chars` where there is none.
pub open spec fn quote_at(chars: Seq<AnalyzedChar>, i: int) -> int
    decreases chars.len() - i,
{
    if 0 <= i < chars.len() && !is_quote(chars[i]) {
        quote_at(chars, i + 1)
    } else {
        i
    }
}

/// The index after the first line break at or after `i`, or the length of
/// `chars` where there is none: where a line comment that covers `i` ends.
pub open spec fn comment_end(chars: Seq<AnalyzedChar>, i: int) -> int
    decreases chars.len() - i,
{
    if 0 <= i < chars.len() {
        if chars[i].kind is Newline {
            i + 1
        } else {
            comment_end(chars, i + 1)
        }
    } else {
        i
    }
}

/// What stands at a position of the input.
pub enum Scan {
    /// Nothing to emit; scanning goes on at `next`.
    Skip { next: int },
    /// A token; scanning goes on at `next`.
    Emit { token: AnalyzedTokenView, next: int },
    /// The input is rejected.
    Fail { error: ErrorView },
}

/// A token anchored at the position of `at`.
pub open spec fn token_at(token: TokenView, at: AnalyzedChar, length: nat) -> AnalyzedTokenView {
    AnalyzedTokenView { token, line: at.line as nat, column: at.column as nat, length }
}

/// A string literal whose text begins at `from` and whose opening quote
/// stood at `line` and `column`: the text up to the next double quote,
/// with the number of characters between the quotes as its length.
/// Without a closing quote the literal is rejected.
pub open spec fn string_literal(
    chars: Seq<AnalyzedChar>,
    from: int,
    line: nat,
    column: nat,
    path: Seq<char>,
) -> Scan {
    let close = quote_at(chars, from);
    if close < chars.len() {
        Scan::Emit {
            token: AnalyzedTokenView {
                token: TokenView::StringLiteral(literal_text(chars.subrange(from, close))),
                line,
                column,
                length: (close - from) as nat,
            },
            next: close + 1,
        }
    } else {
        Scan::Fail { error: lexing_error("Unclosed string literal!"@, line, column, path) }
    }
}

/// A character literal whose value stands at `from` and whose opening
/// quote stood at `line` and `column`: one character of any kind, then
/// the closing single quote. Its length is 1.
pub open spec fn char_literal(
    chars: Seq<AnalyzedChar>,
    from: int,
    line: nat,
    column: nat,
    path: Seq<char>,
) -> Scan {
    if from >= chars.len() {
        Scan::Fail {
            error: lexing_error("Unexpected end of input after single quote!"@, line, column, path),
        }
    } else if from + 1 >= chars.len() {
        Scan::Fail {
            error: lexing_error(
                "Unexpected end of input while parsing char literal!"@,
                line,
                column,
                path,
            ),
        }
    } else if chars[from + 1].kind == CharKind::Char('\'') {
        Scan::Emit {
            token: AnalyzedTokenView {
                token: TokenView::CharLiteral(literal_char(chars[from])),
                line,
                column,
                length: 1,
            },
            next: from + 2,
        }
    } else {
        Scan::Fail { error: lexing_error("Expected closing single quote!"@, line, column, path) }
    }
}

/// The string literal whose opening quote stands at `i`.
pub open spec fn scan_string(chars: Seq<AnalyzedChar>, i: int, path: Seq<char>) -> Scan {
    string_literal(chars, i + 1, chars[i].line as nat, chars[i].column as nat, path)
}

/// The character literal whose opening quote stands at `i`.
pub open spec fn scan_char(chars: Seq<AnalyzedChar>, i: int, path: Seq<char>) -> Scan {
    char_literal(chars, i + 1, chars[i].line as nat, chars[i].column as nat, path)
}

/// Whether the glyph `first` at `i` and the character after it form a
/// symbol of two characters.
pub open spec fn pair_at(chars: Seq<AnalyzedChar>, i: int, first: char) -> bool {
    &&& i + 1 < chars.len()
    &&& chars[i + 1].kind matches CharKind::Char(second)
    &&& double_symbol(first, second)
}

/// A symbol that begins with the glyph `first` at `i`. Two characters are
/// preferred to one; the comment marker emits nothing and hides the rest
/// of its line.
pub open spec fn scan_symbol(chars: Seq<AnalyzedChar>, i: int, first: char) -> Scan {
    if pair_at(chars, i, first) {
        let second = glyph_of(chars[i + 1]);
        if comment_marker(first, second) {
            Scan::Skip { next: comment_end(chars, i + 2) }
        } else {
            Scan::Emit { token: token_at(pair_token(first, second), chars[i], 2), next: i + 2 }
        }
    } else {
        Scan::Emit { token: token_at(single_token(first), chars[i], 1), next: i + 1 }
    }
}

/// A word that begins at `i`: the longest run of word characters, turned
/// into its token.
pub open spec fn scan_word(chars: Seq<AnalyzedChar>, i: int, path: Seq<char>) -> Scan {
    let end = word_end(chars, i);
    let text = glyphs(chars.subrange(i, end));
    match word_token(text, chars[i].line as nat, chars[i].column as nat, path) {
        Ok(token) => Scan::Emit { token: token_at(token, chars[i], (end - i) as nat), next: end },
        Err(error) => Scan::Fail { error },
    }
}

/// What stands at position `i`.
pub open spec fn scan_at(chars: Seq<AnalyzedChar>, i: int, path: Seq<char>) -> Scan {
    match chars[i].kind {
        CharKind::Whitespace => Scan::Skip { next: i + 1 },
        CharKind::Newline => Scan::Skip { next: i + 1 },
        CharKind::Char(g) => if g == '"' {
            scan_string(chars, i, path)
        } else if g == '\'' {
            scan_char(chars, i, path)
        } else if starts_symbol(g) {
            scan_symbol(chars, i, g)
        } else {
            scan_word(chars, i, path)
        },
    }
}

/// Whether emitting `token` after `out` joins an `else` and an `if`.
pub open spec fn joins_else(out: Seq<AnalyzedTokenView>, token: AnalyzedTokenView) -> bool {
    token.token == TokenView::If && out.len() > 0 && out.last().token == TokenView::Else
}

/// The `else if` token that takes the place of the `else` token `before`.
pub open spec fn else_if(before: AnalyzedTokenView) -> AnalyzedTokenView {
    AnalyzedTokenView { token: TokenView::ElseIf, length: 7, ..before }
}

/// The tokens emitted so far, after `token` is emitted. An `if` directly
/// after an `else` turns that `else` into one `else if` of length 7; every
/// other token is appended.
pub open spec fn append_token(out: Seq<AnalyzedTokenView>, token: AnalyzedTokenView) -> Seq<
    AnalyzedTokenView,
> {
    if joins_else(out, token) {
        out.drop_last().push(else_if(out.last()))
    } else {
        out.push(token)
    }
}

/// The tokens emitted so far, after the word `text` that began at `line`
/// and `column` is finished. No text, no token.
pub open spec fn finish_word(
    out: Seq<AnalyzedTokenView>,
    text: Seq<char>,
    line: nat,
    column: nat,
    path: Seq<char>,
) -> Result<Seq<AnalyzedTokenView>, ErrorView> {
    if text.len() == 0 {
        Ok(out)
    } else {
        match word_token(text, line, column, path) {
            Ok(token) => Ok(
                append_token(out, AnalyzedTokenView { token, line, column, length: text.len() }),
            ),
            Err(error) => Err(error),
        }
    }
}

/// The tokens emitted so far, after the pending run of word characters
/// `word` is finished.
pub open spec fn flush(out: Seq<AnalyzedTokenView>, word: Seq<AnalyzedChar>, path: Seq<char>) -> Result<
    Seq<AnalyzedTokenView>,
    ErrorView,
> {
    if word.len() == 0 {
        Ok(out)
    } else {
        finish_word(out, glyphs(word), word[0].line as nat, word[0].column as nat, path)
    }
}

/// The ends of words, strings and comments lie at or after their start and
/// within the input.
pub proof fn lemma_run_bounds(chars: Seq<AnalyzedChar>, i: int)
    requires
        0 <= i <= chars.len(),
    ensures
        i <= word_end(chars, i) <= chars.len(),
        i <= quote_at(chars, i) <= chars.len(),
        i <= comment_end(chars, i) <= chars.len(),
    decreases chars.len() - i,
{
    if i < chars.len() {
        lemma_run_bounds(chars, i + 1);
    }
}

/// Scanning moves forward and stays within the input.
pub proof fn lemma_scan_advances(chars: Seq<AnalyzedChar>, i: int, path: Seq<char>)
    requires
        0 <= i < chars.len(),
    ensures
        match scan_at(chars, i, path) {
            Scan::Skip { next } => i < next <= chars.len(),
            Scan::Emit { next, .. } => i < next <= chars.len(),
            Scan::Fail { .. } => true,
        },
{
    lemma_run_bounds(chars, i + 1);
    if i + 2 <= chars.len() {
        lemma_run_bounds(chars, i + 2);
    }
}

/// The outcome of scanning from position `i` on, with `out` emitted so
/// far: all tokens in source order, or the first failure.
pub open spec fn lex_from(
    chars: Seq<AnalyzedChar>,
    i: int,
    out: Seq<AnalyzedTokenView>,
    path: Seq<char>,
) -> Result<Seq<AnalyzedTokenView>, ErrorView>
    decreases chars.len() - i,
{
    if 0 <= i < chars.len() {
        proof {
            lemma_scan_advances(chars, i, path);
        }
        match scan_at(chars, i, path) {
            Scan::Skip { next } => lex_from(chars, next, out, path),
            Scan::Emit { token, next } => lex_from(chars, next, append_token(out, token), path),
            Scan::Fail { error } => Err(error),
        }
    } else {
        Ok(out)
    }
}

/// The tokens of `chars`, or the first failure of scanning them.
pub open spec fn lex(chars: Seq<AnalyzedChar>, path: Seq<char>) -> Result<
    Seq<AnalyzedTokenView>,
    ErrorView,
> {
    lex_from(chars, 0, Seq::empty(), path)
}

/// A run of word characters that ends at `i`, at the end of the input or
/// before a character of another kind, is the word that begins at `start`.
pub proof fn lemma_word_run(chars: Seq<AnalyzedChar>, start: int, i: int)
    requires
        0 <= start <= i <= chars.len(),
        forall|k: int| start <= k < i ==> is_word_char(#[trigger] chars[k]),
        i == chars.len() || !is_word_char(chars[i]),
    ensures
        word_end(chars, start) == i,
    decreases i - start,
{
    if start < i {
        lemma_word_run(chars, start + 1, i);
    }
}

/// Scanning from the start of a pending run of word characters is
/// finishing that word and scanning on from its end.
pub proof fn lemma_pending_word(
    chars: Seq<AnalyzedChar>,
    start: int,
    i: int,
    out: Seq<AnalyzedTokenView>,
    path: Seq<char>,
)
    requires
        0 <= start <= i <= chars.len(),
        forall|k: int| start <= k < i ==> is_word_char(#[trigger] chars[k]),
        i == chars.len() || !is_word_char(chars[i]),
    ensures
        lex_from(chars, start, out, path) == (match flush(out, chars.subrange(start, i), path) {
            Ok(emitted) => lex_from(chars, i, emitted, path),
            Err(error) => Err(error),
        }),
{
    if start < i {
        lemma_word_run(chars, start, i);
        let word = chars.subrange(start, i);
        assert(word[0] == chars[start]);
        assert(is_word_char(chars[start]));
        assert(glyphs(word).len() == i - start);
        assert(scan_at(chars, start, path) == scan_word(chars, start, path));
    }
}

} // verus!
