use lexer::error_handling::ErrorType;
use lexer::modules::analyser::analyze_chars;
use lexer::modules::token_stream::TokenStream;
use lexer::modules::tokenizer::tokenize;
use lexer::modules::tokens::{AnalyzedToken, Token};

fn collect(stream: &TokenStream) -> Vec<AnalyzedToken> {
    let mut out = Vec::new();
    let mut pass = stream.iter();
    while let Some(token) = pass.next() {
        out.push(token.clone());
    }
    out
}

fn scan(text: &str) -> Vec<AnalyzedToken> {
    let chars = analyze_chars(text);
    let stream = tokenize(&chars, "input.src").expect("the text scans");
    collect(&stream)
}

fn kinds(text: &str) -> Vec<Token> {
    scan(text).into_iter().map(|t| t.token).collect()
}

fn tok(token: Token, line: usize, column: usize, length: usize) -> AnalyzedToken {
    AnalyzedToken { token, line, column, length }
}

fn ident(name: &str) -> Token {
    Token::Identifier(name.to_string())
}

fn sym(text: &str) -> Token {
    Token::Symbol(text.to_string())
}

#[test]
fn let_statement() {
    let tokens = scan("let x = 10;");
    assert_eq!(
        tokens,
        vec![
            tok(Token::Let, 1, 1, 3),
            tok(ident("x"), 1, 5, 1),
            tok(Token::Equals, 1, 7, 1),
            tok(Token::Number(10), 1, 9, 2),
            tok(Token::Semicolon, 1, 11, 1),
        ]
    );
}

#[test]
fn else_and_if_collapse() {
    let tokens = scan("if (a) { } else if (b) {}");
    assert_eq!(
        tokens,
        vec![
            tok(Token::If, 1, 1, 2),
            tok(Token::LeftParen, 1, 4, 1),
            tok(ident("a"), 1, 5, 1),
            tok(Token::RightParen, 1, 6, 1),
            tok(Token::LBrace, 1, 8, 1),
            tok(Token::RBrace, 1, 10, 1),
            tok(Token::ElseIf, 1, 12, 7),
            tok(Token::LeftParen, 1, 20, 1),
            tok(ident("b"), 1, 21, 1),
            tok(Token::RightParen, 1, 22, 1),
            tok(Token::LBrace, 1, 24, 1),
            tok(Token::RBrace, 1, 25, 1),
        ]
    );
}

#[test]
fn quoted_string() {
    assert_eq!(scan("\"abc\""), vec![tok(Token::StringLiteral("abc".to_string()), 1, 1, 3)]);
}

#[test]
fn comment_emits_nothing_and_lines_go_on() {
    let tokens = scan("// comment\nlet y;");
    assert_eq!(
        tokens,
        vec![tok(Token::Let, 2, 1, 3), tok(ident("y"), 2, 5, 1), tok(Token::Semicolon, 2, 6, 1)]
    );
}

#[test]
fn empty_input_has_no_tokens() {
    assert_eq!(scan(""), vec![]);
    assert_eq!(scan(" \n\t "), vec![]);
}

#[test]
fn pending_word_is_finished_at_the_end() {
    assert_eq!(scan("let x"), vec![tok(Token::Let, 1, 1, 3), tok(ident("x"), 1, 5, 1)]);
}

#[test]
fn if_as_first_token_stays_if() {
    assert_eq!(scan("if"), vec![tok(Token::If, 1, 1, 2)]);
}

#[test]
fn if_after_another_token_stays_if() {
    assert_eq!(kinds("x if"), vec![ident("x"), Token::If]);
    assert_eq!(kinds("else x if"), vec![Token::Else, ident("x"), Token::If]);
}

#[test]
fn only_the_token_just_before_is_joined() {
    assert_eq!(kinds("else if if"), vec![Token::ElseIf, Token::If]);
    assert_eq!(kinds("else else if"), vec![Token::Else, Token::ElseIf]);
}

#[test]
fn else_if_across_lines_and_comments() {
    let tokens = scan("else // why\n   if");
    assert_eq!(tokens, vec![tok(Token::ElseIf, 1, 1, 7)]);
}

#[test]
fn two_character_symbols_are_preferred() {
    assert_eq!(
        kinds("== != && || <= >= -> -< -! <- ::"),
        vec![
            Token::EqualEqual,
            Token::NotEquals,
            Token::And,
            Token::Or,
            Token::LessEqual,
            Token::GreaterEqual,
            Token::Arrow,
            Token::ChainBack,
            Token::ChainNot,
            Token::ReverseArrow,
            Token::DoubleColon,
        ]
    );
    assert_eq!(scan("a->b")[1], tok(Token::Arrow, 1, 2, 2));
}

#[test]
fn adjacent_symbols_pair_from_the_left() {
    assert_eq!(kinds("==="), vec![Token::EqualEqual, Token::Equals]);
    assert_eq!(kinds("<--"), vec![Token::ReverseArrow, Token::Minus]);
    assert_eq!(kinds(":::"), vec![Token::DoubleColon, Token::Colon]);
}

#[test]
fn single_character_symbols() {
    assert_eq!(
        kinds("; = : { } ) ( [ ] + - * / % ^ ? !"),
        vec![
            Token::Semicolon,
            Token::Equals,
            Token::Colon,
            Token::LBrace,
            Token::RBrace,
            Token::RightParen,
            Token::LeftParen,
            Token::LBracket,
            Token::RBracket,
            Token::Plus,
            Token::Minus,
            Token::Star,
            Token::Slash,
            Token::Percent,
            Token::Power,
            Token::Question,
            Token::Not,
        ]
    );
}

#[test]
fn symbols_without_a_variant_are_carried_as_text() {
    assert_eq!(kinds("< > , & |"), vec![sym("<"), sym(">"), sym(","), sym("&"), sym("|")]);
    assert_eq!(scan(",")[0], tok(sym(","), 1, 1, 1));
}

#[test]
fn block_comment_marker_is_a_plain_symbol() {
    assert_eq!(
        scan("/* x"),
        vec![tok(sym("/*"), 1, 1, 2), tok(ident("x"), 1, 4, 1)]
    );
}

#[test]
fn symbol_ends_a_word() {
    assert_eq!(
        scan("ab+cd"),
        vec![tok(ident("ab"), 1, 1, 2), tok(Token::Plus, 1, 3, 1), tok(ident("cd"), 1, 4, 2)]
    );
    assert_eq!(kinds("a!=b"), vec![ident("a"), Token::NotEquals, ident("b")]);
}

#[test]
fn reserved_words() {
    assert_eq!(
        kinds("let op if else while for loop success string char bool break continue true false nret data"),
        vec![
            Token::Let,
            Token::Op,
            Token::If,
            Token::Else,
            Token::While,
            Token::For,
            Token::Loop,
            Token::Success,
            Token::String,
            Token::Char,
            Token::Bool,
            Token::Break,
            Token::Continue,
            Token::True,
            Token::False,
            Token::Nret,
            Token::Data,
        ]
    );
}

#[test]
fn type_names_carry_their_text() {
    assert_eq!(
        kinds("i32 f32"),
        vec![Token::IntType("i32".to_string()), Token::FloatType("f32".to_string())]
    );
}

#[test]
fn and_or_have_the_tokens_of_the_symbols() {
    assert_eq!(kinds("a and b or c"), vec![ident("a"), Token::And, ident("b"), Token::Or, ident("c")]);
    assert_eq!(kinds("a and b or c"), kinds("a && b || c"));
}

#[test]
fn words_that_only_resemble_reserved_words_are_identifiers() {
    assert_eq!(
        kinds("lets elseif If _if i64"),
        vec![ident("lets"), ident("elseif"), ident("If"), ident("_if"), ident("i64")]
    );
}

#[test]
fn identifiers_may_hold_digits_underscores_and_letters_of_any_script() {
    assert_eq!(kinds("_a1 x_2 größe 変数1"), vec![ident("_a1"), ident("x_2"), ident("größe"), ident("変数1")]);
    assert_eq!(scan("größe")[0], tok(ident("größe"), 1, 1, 5));
}

#[test]
fn numbers() {
    assert_eq!(kinds("0 7 007 2147483647"), vec![
        Token::Number(0),
        Token::Number(7),
        Token::Number(7),
        Token::Number(2147483647),
    ]);
    assert_eq!(scan("  12345")[0], tok(Token::Number(12345), 1, 3, 5));
}

#[test]
fn minus_is_a_symbol_of_its_own() {
    assert_eq!(kinds("-5"), vec![Token::Minus, Token::Number(5)]);
}

#[test]
fn string_literal_keeps_spaces_and_line_breaks() {
    let tokens = scan("\"a b\tc\nd\" x");
    assert_eq!(
        tokens,
        vec![tok(Token::StringLiteral("a b c\nd".to_string()), 1, 1, 7), tok(ident("x"), 2, 4, 1)]
    );
}

#[test]
fn string_literal_may_hold_symbols_and_quotes_of_the_other_kind() {
    assert_eq!(
        kinds("\"// no comment 'here' -> \""),
        vec![Token::StringLiteral("// no comment 'here' -> ".to_string())]
    );
}

#[test]
fn empty_string_literal() {
    assert_eq!(scan("\"\""), vec![tok(Token::StringLiteral(String::new()), 1, 1, 0)]);
}

#[test]
fn string_literal_length_counts_characters() {
    assert_eq!(scan("\"é京\""), vec![tok(Token::StringLiteral("é京".to_string()), 1, 1, 2)]);
}

#[test]
fn string_literal_ends_a_word() {
    assert_eq!(
        scan("ab\"c\"d"),
        vec![
            tok(ident("ab"), 1, 1, 2),
            tok(Token::StringLiteral("c".to_string()), 1, 3, 1),
            tok(ident("d"), 1, 6, 1),
        ]
    );
}

#[test]
fn character_literals() {
    assert_eq!(scan("'x'"), vec![tok(Token::CharLiteral('x'), 1, 1, 1)]);
    assert_eq!(kinds("' '"), vec![Token::CharLiteral(' ')]);
    assert_eq!(kinds("'\t'"), vec![Token::CharLiteral(' ')]);
    assert_eq!(kinds("'\n'"), vec![Token::CharLiteral('\n')]);
    assert_eq!(kinds("'\"'"), vec![Token::CharLiteral('"')]);
    assert_eq!(kinds("'''"), vec![Token::CharLiteral('\'')]);
    assert_eq!(
        scan("a'b'c"),
        vec![
            tok(ident("a"), 1, 1, 1),
            tok(Token::CharLiteral('b'), 1, 2, 1),
            tok(ident("c"), 1, 5, 1),
        ]
    );
}

#[test]
fn comment_runs_to_the_end_of_its_line() {
    assert_eq!(kinds("a // b c \"d\n e"), vec![ident("a"), ident("e")]);
    assert_eq!(kinds("a // to the end"), vec![ident("a")]);
    assert_eq!(kinds("//"), vec![]);
    assert_eq!(kinds("a///b\nc"), vec![ident("a"), ident("c")]);
}

#[test]
fn concatenation_with_a_separator_concatenates_the_tokens() {
    let first = "let x = 10;";
    let second = "op f -> \"s\"";
    for separator in [" ", "\t", "\n", "   ", " \n\t ", "\n\n", "\r\n"] {
        let joined = format!("{first}{separator}{second}");
        let mut expected = kinds(first);
        expected.extend(kinds(second));
        assert_eq!(kinds(&joined), expected);
    }
}

#[test]
fn concatenation_of_classified_characters_keeps_positions() {
    let a = analyze_chars("x = 'c'");
    let mut b = analyze_chars("y // z");
    for c in b.iter_mut() {
        c.line += 7;
    }
    let separator = analyze_chars(" ");
    let mut joined = a.clone();
    joined.extend(separator);
    joined.extend(b.clone());
    let mut expected = collect(&tokenize(&a, "p").unwrap());
    expected.extend(collect(&tokenize(&b, "p").unwrap()));
    assert_eq!(collect(&tokenize(&joined, "p").unwrap()), expected);
}

#[test]
fn line_break_in_the_separators_closes_an_open_comment() {
    let first = "x = 1; // trailing";
    let second = "y = 2;";
    for separator in ["\n", "  \n", " \t\n  ", "\n\n"] {
        let joined = format!("{first}{separator}{second}");
        let mut expected = kinds(first);
        expected.extend(kinds(second));
        assert_eq!(kinds(&joined), expected);
    }
    assert_eq!(kinds(&format!("{first}  {second}")), kinds(first));
}

#[test]
fn equality_and_assignment_have_tokens_of_their_own() {
    assert_eq!(
        kinds("a = b == c"),
        vec![ident("a"), Token::Equals, ident("b"), Token::EqualEqual, ident("c")]
    );
}

#[test]
fn concatenation_across_else_and_if_joins_them() {
    assert_eq!(kinds("x else"), vec![ident("x"), Token::Else]);
    assert_eq!(kinds("if y"), vec![Token::If, ident("y")]);
    assert_eq!(kinds("x else if y"), vec![ident("x"), Token::ElseIf, ident("y")]);
}

#[test]
fn open_comment_swallows_what_follows_on_its_line() {
    assert_eq!(kinds("a // c"), vec![ident("a")]);
    assert_eq!(kinds("a // c b"), vec![ident("a")]);
    assert_eq!(kinds("a // c\nb"), vec![ident("a"), ident("b")]);
}

#[test]
fn first_failure_ends_the_scan() {
    let chars = analyze_chars("let 1a = \"open");
    let e = tokenize(&chars, "input.src").unwrap_err();
    assert_eq!(e.err_type(), ErrorType::LexingError);
    assert_eq!(e.column(), Some(5));
    assert!(e.message().contains("Invalid identifier"));
}

#[test]
fn stream_passes_restart_at_the_first_token() {
    let chars = analyze_chars("a b c");
    let stream = tokenize(&chars, "input.src").unwrap();
    assert_eq!(stream.len(), 3);
    let mut first = stream.iter();
    assert_eq!(first.next().map(|t| t.token.clone()), Some(ident("a")));
    assert_eq!(first.next().map(|t| t.token.clone()), Some(ident("b")));
    let mut second = stream.iter();
    assert_eq!(second.next().map(|t| t.token.clone()), Some(ident("a")));
    assert_eq!(first.next().map(|t| t.token.clone()), Some(ident("c")));
    assert_eq!(first.next(), None);
    assert_eq!(first.next(), None);
    assert_eq!(collect(&stream).len(), 3);
}

#[test]
fn stream_over_given_tokens() {
    let list = vec![tok(Token::Let, 1, 1, 3), tok(Token::Semicolon, 1, 4, 1)];
    let stream = TokenStream::new(list.clone());
    assert_eq!(stream.len(), 2);
    assert_eq!(collect(&stream), list);
    let empty = TokenStream::new(vec![]);
    assert_eq!(empty.len(), 0);
    assert_eq!(empty.iter().next(), None);
}
