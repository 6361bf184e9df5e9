//! The scanner: groups classified characters into positioned tokens.
use crate::error_handling::error::{Error, ErrorType, ErrorView};
use crate::modules::analyser::{AnalyzedChar, CharKind};
use crate::modules::grammar::{
    all_digits,
    digit_value,
    digits_value,
    double_symbol,
    identifier_part,
    identifier_start,
    is_digit,
    is_symbol,
    keyword,
    pair_token,
    single_symbol,
    single_token,
    starts_symbol,
};
use crate::modules::lexemes::{
    char_literal,
    comment_end,
    else_if,
    finish_word,
    flush,
    glyphs,
    identifier_check,
    is_word_char,
    joins_else,
    lex,
    lemma_pending_word,
    lemma_scan_advances,
    lex_from,
    lexing_error,
    lexing_error_over,
    literal_char,
    literal_text,
    number_limit,
    quote_at,
    quoting,
    string_literal,
    word_token,
    Scan,
};
use crate::modules::laws::{anchored_in, lemma_failures_are_anchored};
use crate::modules::token_stream::TokenStream;
use crate::modules::tokens::{token_views, AnalyzedToken, AnalyzedTokenView, Token, TokenView};
use crate::text::{chars_of, spells};
use vstd::prelude::*;
use vstd::std_specs::iter::IteratorSpec;
use vstd::string::StringExecFns;

verus! {

/// Whether `c` alone is an entry of the symbol table.
pub fn is_single_symbol(c: char) -> (b: bool)
    ensures
        b == single_symbol(c),
{
    c == '=' || c == '\'' || c == '"' || c == ':' || c == ';' || c == ')' || c == '(' || c == '{'
        || c == '}' || c == '-' || c == '+' || c == '/' || c == '*' || c == '?' || c == '>' || c
        == '%' || c == '[' || c == ']' || c == '^' || c == '<' || c == ','
}

/// Whether `first` followed by `second` is an entry of the symbol table.
pub fn is_double_symbol(first: char, second: char) -> (b: bool)
    ensures
        b == double_symbol(first, second),
{
    (first == ':' && second == ':') || (first == '-' && (second == '>' || second == '<' || second
        == '!')) || (first == '<' && (second == '-' || second == '=')) || (first == '/' && (second
        == '/' || second == '*')) || (first == '=' && second == '=') || (first == '>' && second
        == '=') || (first == '!' && second == '=') || (first == '&' && second == '&') || (first
        == '|' && second == '|')
}

/// Whether a symbol can begin with `c`.
pub fn is_symbol_start(c: char) -> (b: bool)
    ensures
        b == starts_symbol(c),
{
    is_single_symbol(c) || c == '!' || c == '&' || c == '|'
}

/// The symbol of two characters that `first` and `second` spell, if they
/// spell one.
pub fn try_two_char_symbol(first: char, second: char) -> (symbol: Option<String>)
    ensures
        match symbol {
            Some(s) => double_symbol(first, second) && s@ == seq![first, second],
            None => !double_symbol(first, second),
        },
{
    if is_double_symbol(first, second) {
        let mut combined = String::new();
        combined.push(first);
        combined.push(second);
        assert(combined@ =~= seq![first, second]);
        Some(combined)
    } else {
        None
    }
}

/// Whether `word` is an entry of the symbol table.
pub fn in_symbol_table(word: &[char]) -> (b: bool)
    ensures
        b == is_symbol(word@),
{
    if word.len() == 1 {
        is_single_symbol(word[0])
    } else if word.len() == 2 {
        is_double_symbol(word[0], word[1])
    } else {
        false
    }
}

/// The token of the symbol `c`.
pub fn single_symbol_token(c: char) -> (token: Token)
    ensures
        token@ == single_token(c),
{
    if c == ';' {
        Token::Semicolon
    } else if c == '=' {
        Token::Equals
    } else if c == ':' {
        Token::Colon
    } else if c == '{' {
        Token::LBrace
    } else if c == '}' {
        Token::RBrace
    } else if c == ')' {
        Token::RightParen
    } else if c == '(' {
        Token::LeftParen
    } else if c == '[' {
        Token::LBracket
    } else if c == ']' {
        Token::RBracket
    } else if c == '+' {
        Token::Plus
    } else if c == '-' {
        Token::Minus
    } else if c == '*' {
        Token::Star
    } else if c == '/' {
        Token::Slash
    } else if c == '%' {
        Token::Percent
    } else if c == '^' {
        Token::Power
    } else if c == '?' {
        Token::Question
    } else if c == '!' {
        Token::Not
    } else {
        let mut text = String::new();
        text.push(c);
        assert(text@ =~= seq![c]);
        Token::Symbol(text)
    }
}

/// The token of the symbol that `first` and `second` spell; `symbol` is its
/// text.
pub fn double_symbol_token(first: char, second: char, symbol: String) -> (token: Token)
    requires
        symbol@ == seq![first, second],
    ensures
        token@ == pair_token(first, second),
{
    if first == '=' && second == '=' {
        Token::EqualEqual
    } else if first == '!' && second == '=' {
        Token::NotEquals
    } else if first == '&' && second == '&' {
        Token::And
    } else if first == '|' && second == '|' {
        Token::Or
    } else if first == '<' && second == '=' {
        Token::LessEqual
    } else if first == '>' && second == '=' {
        Token::GreaterEqual
    } else if first == '-' && second == '>' {
        Token::Arrow
    } else if first == '-' && second == '<' {
        Token::ChainBack
    } else if first == '-' && second == '!' {
        Token::ChainNot
    } else if first == '<' && second == '-' {
        Token::ReverseArrow
    } else if first == ':' && second == ':' {
        Token::DoubleColon
    } else {
        Token::Symbol(symbol)
    }
}

/// The token of a reserved word or type name, if `word` is one.
pub fn keyword_token(word: &[char]) -> (token: Option<Token>)
    ensures
        match token {
            Some(t) => keyword(word@) == Some(t@),
            None => keyword(word@) is None,
        },
{
    if spells(word, "let") {
        Some(Token::Let)
    } else if spells(word, "op") {
        Some(Token::Op)
    } else if spells(word, "if") {
        Some(Token::If)
    } else if spells(word, "else") {
        Some(Token::Else)
    } else if spells(word, "while") {
        Some(Token::While)
    } else if spells(word, "for") {
        Some(Token::For)
    } else if spells(word, "loop") {
        Some(Token::Loop)
    } else if spells(word, "success") {
        Some(Token::Success)
    } else if spells(word, "i32") {
        Some(Token::IntType(String::from_str("i32")))
    } else if spells(word, "string") {
        Some(Token::String)
    } else if spells(word, "char") {
        Some(Token::Char)
    } else if spells(word, "f32") {
        Some(Token::FloatType(String::from_str("f32")))
    } else if spells(word, "bool") {
        Some(Token::Bool)
    } else if spells(word, "break") {
        Some(Token::Break)
    } else if spells(word, "continue") {
        Some(Token::Continue)
    } else if spells(word, "true") {
        Some(Token::True)
    } else if spells(word, "false") {
        Some(Token::False)
    } else if spells(word, "nret") {
        Some(Token::Nret)
    } else if spells(word, "data") {
        Some(Token::Data)
    } else if spells(word, "and") {
        Some(Token::And)
    } else if spells(word, "or") {
        Some(Token::Or)
    } else {
        None
    }
}

/// Whether `c` is one of the digits `0` to `9`.
pub fn is_ascii_digit(c: char) -> (b: bool)
    ensures
        b == is_digit(c),
{
    '0' <= c && c <= '9'
}

/// Whether `word` consists of digits only.
pub fn only_digits(word: &[char]) -> (b: bool)
    ensures
        b == all_digits(word@),
{
    let mut i: usize = 0;
    while i < word.len()
        invariant
            i <= word@.len(),
            forall|k: int| 0 <= k < i ==> is_digit(#[trigger] word@[k]),
        decreases word@.len() - i,
    {
        if !is_ascii_digit(word[i]) {
            return false;
        }
        i += 1;
    }
    true
}

/// A longer digit run writes a number at least as large as any of its
/// beginnings.
pub proof fn lemma_digits_value_grows(text: Seq<char>, k: int)
    requires
        0 <= k <= text.len(),
    ensures
        digits_value(text.take(k)) <= digits_value(text),
    decreases text.len() - k,
{
    if k < text.len() {
        lemma_digits_value_grows(text, k + 1);
        assert(text.take(k + 1).drop_last() =~= text.take(k));
    } else {
        assert(text.take(k) =~= text);
    }
}

/// The number that the digits of `word` write, unless it is too large for
/// a number token.
pub fn number_of(word: &[char]) -> (value: Option<i32>)
    requires
        all_digits(word@),
    ensures
        match value {
            Some(v) => v == digits_value(word@),
            None => digits_value(word@) > number_limit(),
        },
{
    let mut value: i32 = 0;
    let mut i: usize = 0;
    while i < word.len()
        invariant
            i <= word@.len(),
            all_digits(word@),
            0 <= value,
            value == digits_value(word@.take(i as int)),
        decreases word@.len() - i,
    {
        let c = word[i];
        assert(is_digit(c));
        let digit: i32 = (c as u32 - '0' as u32) as i32;
        assert(digit == digit_value(c));
        proof {
            assert(word@.take(i + 1).drop_last() =~= word@.take(i as int));
            lemma_digits_value_grows(word@, i + 1);
        }
        if value > (i32::MAX - digit) / 10 {
            return None;
        }
        value = value * 10 + digit;
        i += 1;
    }
    assert(word@.take(i as int) =~= word@);
    Some(value)
}

/// Whether an identifier can begin with `c`, where `alphabetic` is what
/// `char::is_alphabetic` said of it.
pub fn starts_identifier(c: char, alphabetic: bool) -> (b: bool)
    ensures
        b == (alphabetic || c == '_'),
{
    alphabetic || c == '_'
}

/// Whether `c` can stand in an identifier, where `alphanumeric` is what
/// `char::is_alphanumeric` said of it.
pub fn continues_identifier(c: char, alphanumeric: bool) -> (b: bool)
    ensures
        b == (alphanumeric || c == '_'),
{
    alphanumeric || c == '_'
}

/// A scanning failure whose message is `prefix`, the offending `text` and
/// a closing quote mark, anchored at the text's start and covering
/// `length` characters.
pub fn quoting_error(prefix: &str, text: &str, lin: usize, col: usize, path: &str, length: usize) -> (e:
    Error)
    ensures
        e@ == lexing_error_over(
            quoting(prefix@, text@),
            lin as nat,
            col as nat,
            path@,
            length as nat,
        ),
{
    let mut message = String::from_str(prefix);
    message.append(text);
    message.append("'");
    Error::new(ErrorType::LexingError).with_message(message).with_line(lin).with_column(
        col,
    ).with_file_path(path).with_length(length)
}

/// A scanning failure with a fixed message, anchored at a line and a column.
pub fn anchored_error(message: &str, lin: usize, col: usize, path: &str) -> (e: Error)
    ensures
        e@ == lexing_error(message@, lin as nat, col as nat, path@),
{
    Error::new(ErrorType::LexingError).with_message(String::from_str(message)).with_line(
        lin,
    ).with_column(col).with_file_path(path)
}

/// Whether `st` is a well-formed identifier. A first character that is
/// neither alphabetic nor an underscore is reported as a failure anchored
/// at `lin` and `col`.
pub fn is_valid_identifier(st: &str, lin: usize, col: usize, path: &str) -> (res: Result<bool, Error>)
    ensures
        match res {
            Ok(valid) => identifier_check(st@, lin as nat, col as nat, path@) == Ok::<
                bool,
                ErrorView,
            >(valid),
            Err(e) => identifier_check(st@, lin as nat, col as nat, path@) == Err::<
                bool,
                ErrorView,
            >(e@),
        },
{
    let word = chars_of(st);
    if word.len() == 0 {
        return Ok(false);
    }
    let first_char = word[0];
    if !starts_identifier(first_char, first_char.is_alphabetic()) {
        return Err(
            quoting_error(
                "Invalid identifier: Identifier cannot start with a number! -> '",
                st,
                lin,
                col,
                path,
                word.len(),
            ),
        );
    }
    let mut i: usize = 0;
    while i < word.len()
        invariant
            i <= word@.len(),
            word@ == st@,
            word@.len() > 0,
            identifier_start(word@[0]),
            forall|k: int| 0 <= k < i ==> identifier_part(#[trigger] word@[k]),
        decreases word@.len() - i,
    {
        let c = word[i];
        if !continues_identifier(c, c.is_alphanumeric()) {
            assert(!identifier_part(st@[i as int]));
            return Ok(false);
        }
        i += 1;
    }
    Ok(true)
}

/// The token that the word `st` stands for: an entry of the symbol table,
/// a number, a reserved word or an identifier, in this order of
/// preference. A word that is none of them is a failure anchored at
/// `t_lin` and `t_col`.
pub fn token_of(st: &str, t_lin: usize, t_col: usize, path: &str) -> (res: Result<Token, Error>)
    ensures
        match res {
            Ok(token) => word_token(st@, t_lin as nat, t_col as nat, path@) == Ok::<
                TokenView,
                ErrorView,
            >(token@),
            Err(e) => word_token(st@, t_lin as nat, t_col as nat, path@) == Err::<
                TokenView,
                ErrorView,
            >(e@),
        },
{
    let word = chars_of(st);
    if in_symbol_table(word.as_slice()) {
        return Ok(Token::Symbol(String::from_str(st)));
    }
    if word.len() > 0 && only_digits(word.as_slice()) {
        return match number_of(word.as_slice()) {
            Some(value) => Ok(Token::Number(value)),
            None => Err(
                quoting_error("Number literal out of range! -> '", st, t_lin, t_col, path, word.len()),
            ),
        };
    }
    match keyword_token(word.as_slice()) {
        Some(token) => Ok(token),
        None => {
            match is_valid_identifier(st, t_lin, t_col, path) {
                Ok(true) => Ok(Token::Identifier(String::from_str(st))),
                Ok(false) => Err(
                    quoting_error("Unexpected token! -> '", st, t_lin, t_col, path, word.len()),
                ),
                Err(e) => Err(e),
            }
        },
    }
}

/// Finishes the word `buf` that began at `lin` and `col`: its token is
/// appended to `tokens`, except that an `if` directly after an `else`
/// turns that `else` into one `else if` of length 7. An empty `buf`
/// changes nothing.
pub fn final_buffer(tokens: &mut Vec<AnalyzedToken>, buf: &str, lin: usize, col: usize, path: &str) -> (res:
    Result<(), Error>)
    ensures
        match res {
            Ok(()) => finish_word(
                token_views(old(tokens)@),
                buf@,
                lin as nat,
                col as nat,
                path@,
            ) == Ok::<Seq<AnalyzedTokenView>, ErrorView>(token_views(final(tokens)@)),
            Err(e) => {
                &&& finish_word(token_views(old(tokens)@), buf@, lin as nat, col as nat, path@)
                    == Err::<Seq<AnalyzedTokenView>, ErrorView>(e@)
                &&& final(tokens)@ == old(tokens)@
            },
        },
{
    let length = buf.unicode_len();
    if length == 0 {
        return Ok(());
    }
    let t = match token_of(buf, lin, col, path) {
        Ok(t) => t,
        Err(e) => {
            return Err(e);
        },
    };
    let ghost before = token_views(tokens@);
    let ghost emitted = AnalyzedTokenView {
        token: t@,
        line: lin as nat,
        column: col as nat,
        length: length as nat,
    };
    let count = tokens.len();
    let is_if = match &t {
        Token::If => true,
        _ => false,
    };
    if is_if && count > 0 {
        let after_else = match &tokens[count - 1].token {
            Token::Else => true,
            _ => false,
        };
        if after_else {
            let line = tokens[count - 1].line;
            let column = tokens[count - 1].column;
            assert(joins_else(before, emitted));
            tokens.set(count - 1, AnalyzedToken { token: Token::ElseIf, line, column, length: 7 });
            assert(token_views(tokens@) =~= before.drop_last().push(else_if(before.last())));
            return Ok(());
        }
    }
    assert(!joins_else(before, emitted));
    tokens.push(AnalyzedToken { token: t, line: lin, column: col, length });
    assert(token_views(tokens@) =~= before.push(emitted));
    Ok(())
}

/// Finishes the pending word, if there is one: its characters leave
/// `ch_buf` and its token joins `res_vec`.
pub fn char_buf_clear(ch_buf: &mut Vec<AnalyzedChar>, res_vec: &mut Vec<AnalyzedToken>, path: &str) -> (res:
    Result<(), Error>)
    ensures
        final(ch_buf)@.len() == 0,
        match res {
            Ok(()) => flush(token_views(old(res_vec)@), old(ch_buf)@, path@) == Ok::<
                Seq<AnalyzedTokenView>,
                ErrorView,
            >(token_views(final(res_vec)@)),
            Err(e) => {
                &&& flush(token_views(old(res_vec)@), old(ch_buf)@, path@) == Err::<
                    Seq<AnalyzedTokenView>,
                    ErrorView,
                >(e@)
                &&& final(res_vec)@ == old(res_vec)@
            },
        },
{
    if ch_buf.len() == 0 {
        return Ok(());
    }
    let mut st_buf = String::new();
    let mut i: usize = 0;
    while i < ch_buf.len()
        invariant
            i <= ch_buf@.len(),
            ch_buf@ == old(ch_buf)@,
            st_buf@ == glyphs(ch_buf@.take(i as int)),
        decreases ch_buf@.len() - i,
    {
        let glyph = match ch_buf[i].kind {
            CharKind::Char(c) => c,
            _ => '\u{FFFD}',
        };
        st_buf.push(glyph);
        i += 1;
        assert(glyphs(ch_buf@.take(i as int)) =~= glyphs(ch_buf@.take(i - 1)).push(glyph));
    }
    assert(ch_buf@.take(i as int) =~= ch_buf@);
    let b_lin = ch_buf[0].line;
    let b_col = ch_buf[0].column;
    ch_buf.clear();
    final_buffer(res_vec, st_buf.as_str(), b_lin, b_col, path)
}

/// What a scanning step of the scanner came to, as a step of the grammar.
pub open spec fn scanned(res: Result<(AnalyzedToken, usize), Error>) -> Scan {
    match res {
        Ok((token, next)) => Scan::Emit { token: token@, next: next as int },
        Err(error) => Scan::Fail { error: error@ },
    }
}

/// Reads the string literal whose text begins at `from`, after an opening
/// quote at `start_line` and `start_col`. Gives the literal and the index
/// after its closing quote.
pub fn handle_string_literal(
    chars: &[AnalyzedChar],
    from: usize,
    start_line: usize,
    start_col: usize,
    path: &str,
) -> (res: Result<(AnalyzedToken, usize), Error>)
    ensures
        scanned(res) == string_literal(
            chars@,
            from as int,
            start_line as nat,
            start_col as nat,
            path@,
        ),
{
    if from >= chars.len() {
        return Err(anchored_error("Unclosed string literal!", start_line, start_col, path));
    }
    let mut literal_buf = String::new();
    let mut i: usize = from;
    assert(literal_buf@ =~= literal_text(chars@.subrange(from as int, i as int)));
    while i < chars.len()
        invariant
            from <= i <= chars@.len(),
            quote_at(chars@, from as int) == quote_at(chars@, i as int),
            literal_buf@ == literal_text(chars@.subrange(from as int, i as int)),
        decreases chars@.len() - i,
    {
        let curr = chars[i];
        match curr.kind {
            CharKind::Char(c) => {
                if c == '"' {
                    let length = i - from;
                    return Ok(
                        (
                            AnalyzedToken {
                                token: Token::StringLiteral(literal_buf),
                                line: start_line,
                                column: start_col,
                                length,
                            },
                            i + 1,
                        ),
                    );
                }
                literal_buf.push(c);
            },
            CharKind::Newline => {
                literal_buf.push('\n');
            },
            CharKind::Whitespace => {
                literal_buf.push(' ');
            },
        }
        i += 1;
        assert(literal_text(chars@.subrange(from as int, i as int)) =~= literal_text(
            chars@.subrange(from as int, i - 1),
        ).push(literal_char(curr)));
    }
    Err(anchored_error("Unclosed string literal!", start_line, start_col, path))
}

/// Reads the character literal whose value stands at `from`, after an
/// opening quote at `start_line` and `start_col`. Gives the literal and
/// the index after its closing quote.
pub fn handle_char_literal(
    chars: &[AnalyzedChar],
    from: usize,
    start_line: usize,
    start_col: usize,
    path: &str,
) -> (res: Result<(AnalyzedToken, usize), Error>)
    ensures
        scanned(res) == char_literal(
            chars@,
            from as int,
            start_line as nat,
            start_col as nat,
            path@,
        ),
{
    if from >= chars.len() {
        return Err(
            anchored_error(
                "Unexpected end of input after single quote!",
                start_line,
                start_col,
                path,
            ),
        );
    }
    let val = match chars[from].kind {
        CharKind::Char(c) => c,
        CharKind::Whitespace => ' ',
        CharKind::Newline => '\n',
    };
    if from + 1 >= chars.len() {
        return Err(
            anchored_error(
                "Unexpected end of input while parsing char literal!",
                start_line,
                start_col,
                path,
            ),
        );
    }
    let closed = match chars[from + 1].kind {
        CharKind::Char(c) => c == '\'',
        _ => false,
    };
    if closed {
        Ok(
            (
                AnalyzedToken {
                    token: Token::CharLiteral(val),
                    line: start_line,
                    column: start_col,
                    length: 1,
                },
                from + 2,
            ),
        )
    } else {
        Err(anchored_error("Expected closing single quote!", start_line, start_col, path))
    }
}

/// Skips the rest of a line comment that covers `from`: gives the index
/// after the next line break, or the end of the input.
pub fn handle_command_line(chars: &[AnalyzedChar], from: usize) -> (next: usize)
    ensures
        next == comment_end(chars@, from as int),
{
    let mut i: usize = from;
    while i < chars.len()
        invariant
            from <= i,
            comment_end(chars@, from as int) == comment_end(chars@, i as int),
        decreases chars@.len() - i,
    {
        match chars[i].kind {
            CharKind::Newline => {
                return i + 1;
            },
            _ => {},
        }
        i += 1;
    }
    i
}

/// Whether `res` is the outcome that the grammar gives for `chars`: the
/// token sequence, or the first failure.
pub open spec fn is_lexed(
    chars: Seq<AnalyzedChar>,
    path: Seq<char>,
    res: Result<TokenStream, Error>,
) -> bool {
    match res {
        Ok(stream) => lex(chars, path) == Ok::<Seq<AnalyzedTokenView>, ErrorView>(stream@),
        Err(e) => lex(chars, path) == Err::<Seq<AnalyzedTokenView>, ErrorView>(e@),
    }
}

/// Groups the classified characters `chars` into tokens. White space and
/// line breaks separate tokens, a double quote opens a string literal, a
/// single quote a character literal, a symbol is taken with two
/// characters where that is one, a line comment emits nothing, and every
/// other run of glyphs is a word. The first failure ends the scan;
/// `path` names the file in it.
pub fn tokenize(chars: &[AnalyzedChar], path: &str) -> (res: Result<TokenStream, Error>)
    ensures
        is_lexed(chars@, path@, res),
        res matches Err(e) ==> anchored_in(e@, chars@, path@),
{
    proof {
        lemma_failures_are_anchored(chars@, 0, Seq::empty(), path@);
    }
    let mut char_buf: Vec<AnalyzedChar> = Vec::new();
    let mut result_vec: Vec<AnalyzedToken> = Vec::new();
    let mut i: usize = 0;
    assert(char_buf@ =~= chars@.subrange(0, 0));
    assert(token_views(result_vec@) =~= Seq::empty());
    while i < chars.len()
        invariant
            i <= chars@.len(),
            char_buf@.len() <= i,
            char_buf@ == chars@.subrange(i - char_buf@.len(), i as int),
            forall|k: int| i - char_buf@.len() <= k < i ==> is_word_char(#[trigger] chars@[k]),
            lex(chars@, path@) == lex_from(
                chars@,
                i - char_buf@.len(),
                token_views(result_vec@),
                path@,
            ),
        decreases chars@.len() - i,
    {
        let curr = chars[i];
        let ghost pending = i - char_buf@.len();
        let ghost emitted = token_views(result_vec@);
        let ghost at = i as int;
        proof {
            lemma_scan_advances(chars@, at, path@);
        }
        match curr.kind {
            CharKind::Whitespace | CharKind::Newline => {
                proof {
                    lemma_pending_word(chars@, pending, i as int, emitted, path@);
                }
                char_buf_clear(&mut char_buf, &mut result_vec, path)?;
                i += 1;
            },
            CharKind::Char(c) => {
                if c == '"' {
                    proof {
                        lemma_pending_word(chars@, pending, i as int, emitted, path@);
                    }
                    char_buf_clear(&mut char_buf, &mut result_vec, path)?;
                    let ghost flushed = token_views(result_vec@);
                    let (lit, next) = handle_string_literal(
                        chars,
                        i + 1,
                        curr.line,
                        curr.column,
                        path,
                    )?;
                    proof {
                        assert(token_views(result_vec@.push(lit)) =~= flushed.push(lit@));
                    }
                    result_vec.push(lit);
                    i = next;
                } else if c == '\'' {
                    proof {
                        lemma_pending_word(chars@, pending, i as int, emitted, path@);
                    }
                    char_buf_clear(&mut char_buf, &mut result_vec, path)?;
                    let ghost flushed = token_views(result_vec@);
                    let (lit, next) = handle_char_literal(
                        chars,
                        i + 1,
                        curr.line,
                        curr.column,
                        path,
                    )?;
                    proof {
                        assert(token_views(result_vec@.push(lit)) =~= flushed.push(lit@));
                    }
                    result_vec.push(lit);
                    i = next;
                } else if is_symbol_start(c) {
                    proof {
                        lemma_pending_word(chars@, pending, i as int, emitted, path@);
                    }
                    char_buf_clear(&mut char_buf, &mut result_vec, path)?;
                    let ghost flushed = token_views(result_vec@);
                    let mut pair: Option<(char, String)> = None;
                    if i + 1 < chars.len() {
                        if let CharKind::Char(nc) = chars[i + 1].kind {
                            if let Some(symbol) = try_two_char_symbol(c, nc) {
                                pair = Some((nc, symbol));
                            }
                        }
                    }
                    match pair {
                        Some((nc, symbol)) => {
                            if c == '/' && nc == '/' {
                                i = handle_command_line(chars, i + 2);
                            } else {
                                let t = double_symbol_token(c, nc, symbol);
                                let token = AnalyzedToken {
                                    token: t,
                                    line: curr.line,
                                    column: curr.column,
                                    length: 2,
                                };
                                proof {
                                    assert(token_views(result_vec@.push(token)) =~= flushed.push(
                                        token@,
                                    ));
                                }
                                result_vec.push(token);
                                i += 2;
                            }
                        },
                        None => {
                            let this_token = single_symbol_token(c);
                            let token = AnalyzedToken {
                                token: this_token,
                                line: curr.line,
                                column: curr.column,
                                length: 1,
                            };
                            proof {
                                assert(token_views(result_vec@.push(token)) =~= flushed.push(
                                    token@,
                                ));
                            }
                            result_vec.push(token);
                            i += 1;
                        },
                    }
                } else {
                    char_buf.push(curr);
                    i += 1;
                }
            },
        }
        assert(char_buf@ =~= chars@.subrange(i - char_buf@.len(), i as int));
    }
    proof {
        lemma_pending_word(
            chars@,
            i - char_buf@.len(),
            i as int,
            token_views(result_vec@),
            path@,
        );
    }
    char_buf_clear(&mut char_buf, &mut result_vec, path)?;
    Ok(TokenStream::new(result_vec))
}

} // verus!
