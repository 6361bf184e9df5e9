use lexer::error_handling::ErrorType;
use lexer::modules::analyser::{analyze_chars, AnalyzedChar, CharKind};
use lexer::modules::tokenizer::{
    char_buf_clear, continues_identifier, double_symbol_token, final_buffer, handle_char_literal,
    handle_command_line, handle_string_literal, in_symbol_table, is_ascii_digit,
    is_double_symbol, is_single_symbol, is_symbol_start, is_valid_identifier, keyword_token,
    number_of, only_digits, single_symbol_token, starts_identifier, token_of,
    try_two_char_symbol,
};
use lexer::modules::tokens::{AnalyzedToken, Token};
use lexer::text::{chars_of, spells};

fn letters(s: &str) -> Vec<char> {
    s.chars().collect()
}

#[test]
fn symbol_table_entries() {
    let singles = "='\":;)({}-+/*?>%[]^<,";
    for c in singles.chars() {
        assert!(is_single_symbol(c), "{c}");
        assert!(is_symbol_start(c), "{c}");
        assert!(in_symbol_table(&[c]), "{c}");
    }
    for c in "!&|".chars() {
        assert!(!is_single_symbol(c), "{c}");
        assert!(is_symbol_start(c), "{c}");
        assert!(!in_symbol_table(&[c]), "{c}");
    }
    for c in "a1_ $@#.~\\`".chars() {
        assert!(!is_single_symbol(c), "{c}");
        assert!(!is_symbol_start(c), "{c}");
    }
    let doubles = ["::", "->", "-<", "<-", "-!", "//", "/*", "==", "<=", ">=", "!=", "&&", "||"];
    for d in doubles {
        let cs = letters(d);
        assert!(is_double_symbol(cs[0], cs[1]), "{d}");
        assert!(in_symbol_table(&cs), "{d}");
        assert_eq!(try_two_char_symbol(cs[0], cs[1]), Some(d.to_string()));
    }
    for d in ["=>", "<<", ">>", "++", "--", "*/", "=!", "&|", "ab", ">-", "!!"] {
        let cs = letters(d);
        assert!(!is_double_symbol(cs[0], cs[1]), "{d}");
        assert!(!in_symbol_table(&cs), "{d}");
        assert_eq!(try_two_char_symbol(cs[0], cs[1]), None);
    }
    assert!(!in_symbol_table(&[]));
    assert!(!in_symbol_table(&letters("->>")));
}

#[test]
fn every_symbol_begins_with_a_symbol_start() {
    for d in ["::", "->", "-<", "<-", "-!", "//", "/*", "==", "<=", ">=", "!=", "&&", "||"] {
        assert!(is_symbol_start(d.chars().next().unwrap()));
    }
}

#[test]
fn tokens_of_symbols() {
    assert_eq!(single_symbol_token('!'), Token::Not);
    assert_eq!(single_symbol_token('^'), Token::Power);
    assert_eq!(single_symbol_token('<'), Token::Symbol("<".to_string()));
    assert_eq!(single_symbol_token('\''), Token::Symbol("'".to_string()));
    assert_eq!(double_symbol_token('=', '=', "==".to_string()), Token::EqualEqual);
    assert_eq!(single_symbol_token('='), Token::Equals);
    assert_eq!(double_symbol_token('!', '=', "!=".to_string()), Token::NotEquals);
    assert_eq!(double_symbol_token('/', '*', "/*".to_string()), Token::Symbol("/*".to_string()));
    assert_eq!(double_symbol_token('/', '/', "//".to_string()), Token::Symbol("//".to_string()));
}

#[test]
fn reserved_word_lookup() {
    assert_eq!(keyword_token(&letters("while")), Some(Token::While));
    assert_eq!(keyword_token(&letters("i32")), Some(Token::IntType("i32".to_string())));
    assert_eq!(keyword_token(&letters("or")), Some(Token::Or));
    assert_eq!(keyword_token(&letters("and")), Some(Token::And));
    assert_eq!(keyword_token(&letters("While")), None);
    assert_eq!(keyword_token(&letters("")), None);
    assert_eq!(keyword_token(&letters("elseif")), None);
}

#[test]
fn digits_and_numbers() {
    assert!(is_ascii_digit('0') && is_ascii_digit('9') && !is_ascii_digit('a'));
    assert!(!is_ascii_digit('/') && !is_ascii_digit(':') && !is_ascii_digit('٣'));
    assert!(only_digits(&letters("0123456789")));
    assert!(only_digits(&[]));
    assert!(!only_digits(&letters("12a")));
    assert_eq!(number_of(&letters("0")), Some(0));
    assert_eq!(number_of(&letters("")), Some(0));
    assert_eq!(number_of(&letters("42")), Some(42));
    assert_eq!(number_of(&letters("0000000000042")), Some(42));
    assert_eq!(number_of(&letters("2147483647")), Some(i32::MAX));
    assert_eq!(number_of(&letters("2147483648")), None);
    assert_eq!(number_of(&letters("2147483650")), None);
    assert_eq!(number_of(&letters("21474836470")), None);
}

#[test]
fn identifier_character_classes() {
    assert!(starts_identifier('_', false));
    assert!(starts_identifier('a', true));
    assert!(!starts_identifier('1', false));
    assert!(continues_identifier('_', false));
    assert!(continues_identifier('1', true));
    assert!(!continues_identifier('-', false));
}

#[test]
fn identifier_validation() {
    assert_eq!(is_valid_identifier("", 1, 1, "p"), Ok(false));
    assert_eq!(is_valid_identifier("abc", 1, 1, "p"), Ok(true));
    assert_eq!(is_valid_identifier("_", 1, 1, "p"), Ok(true));
    assert_eq!(is_valid_identifier("a1_b2", 1, 1, "p"), Ok(true));
    assert_eq!(is_valid_identifier("é९", 1, 1, "p"), Ok(true));
    assert_eq!(is_valid_identifier("a-b", 1, 1, "p"), Ok(false));
    assert_eq!(is_valid_identifier("a b", 1, 1, "p"), Ok(false));
    let e = is_valid_identifier("9lives", 4, 2, "p").unwrap_err();
    assert_eq!(e.err_type(), ErrorType::LexingError);
    assert_eq!(
        e.message(),
        "Invalid identifier: Identifier cannot start with a number! -> '9lives'"
    );
    assert_eq!((e.line(), e.column(), e.length()), (Some(4), Some(2), Some(6)));
    assert_eq!(e.file_path(), Some("p".to_string()));
}

#[test]
fn token_of_a_word() {
    assert_eq!(token_of("->", 1, 1, "p"), Ok(Token::Symbol("->".to_string())));
    assert_eq!(token_of(";", 1, 1, "p"), Ok(Token::Symbol(";".to_string())));
    assert_eq!(token_of("15", 1, 1, "p"), Ok(Token::Number(15)));
    assert_eq!(token_of("loop", 1, 1, "p"), Ok(Token::Loop));
    assert_eq!(token_of("loops", 1, 1, "p"), Ok(Token::Identifier("loops".to_string())));
    assert_eq!(token_of("and", 1, 1, "f"), Ok(Token::And));
    assert_eq!(token_of("or", 1, 1, "f"), Ok(Token::Or));
    let e = token_of("", 3, 4, "p").unwrap_err();
    assert_eq!(e.message(), "Unexpected token! -> ''");
    assert_eq!((e.line(), e.column(), e.length()), (Some(3), Some(4), Some(0)));
    let e = token_of("a.b", 3, 4, "p").unwrap_err();
    assert_eq!(e.message(), "Unexpected token! -> 'a.b'");
    assert_eq!((e.line(), e.column(), e.length()), (Some(3), Some(4), Some(3)));
    let e = token_of("4294967296", 1, 2, "p").unwrap_err();
    assert_eq!(e.message(), "Number literal out of range! -> '4294967296'");
    assert_eq!((e.line(), e.column(), e.length()), (Some(1), Some(2), Some(10)));
    let e = token_of("!", 1, 2, "p").unwrap_err();
    assert!(e.message().starts_with("Invalid identifier"));
}

fn tok(token: Token, line: usize, column: usize, length: usize) -> AnalyzedToken {
    AnalyzedToken { token, line, column, length }
}

#[test]
fn finishing_a_word() {
    let mut tokens = vec![];
    assert_eq!(final_buffer(&mut tokens, "", 1, 1, "p"), Ok(()));
    assert_eq!(tokens, vec![]);
    assert_eq!(final_buffer(&mut tokens, "if", 1, 1, "p"), Ok(()));
    assert_eq!(final_buffer(&mut tokens, "else", 1, 4, "p"), Ok(()));
    assert_eq!(tokens, vec![tok(Token::If, 1, 1, 2), tok(Token::Else, 1, 4, 4)]);
    assert_eq!(final_buffer(&mut tokens, "if", 5, 9, "p"), Ok(()));
    assert_eq!(tokens, vec![tok(Token::If, 1, 1, 2), tok(Token::ElseIf, 1, 4, 7)]);
    assert_eq!(final_buffer(&mut tokens, "if", 6, 1, "p"), Ok(()));
    assert_eq!(tokens.len(), 3);
    assert_eq!(tokens[2], tok(Token::If, 6, 1, 2));
    let e = final_buffer(&mut tokens, "2x", 7, 1, "p").unwrap_err();
    assert_eq!((e.line(), e.column(), e.length()), (Some(7), Some(1), Some(2)));
    assert_eq!(tokens.len(), 3);
    assert_eq!(final_buffer(&mut tokens, "größe", 8, 1, "p"), Ok(()));
    assert_eq!(tokens[3], tok(Token::Identifier("größe".to_string()), 8, 1, 5));
}

#[test]
fn clearing_the_pending_word() {
    let mut tokens = vec![];
    let mut pending: Vec<AnalyzedChar> = vec![];
    assert_eq!(char_buf_clear(&mut pending, &mut tokens, "p"), Ok(()));
    assert!(tokens.is_empty());
    let mut pending = analyze_chars("\n  while");
    pending.drain(0..3);
    assert_eq!(char_buf_clear(&mut pending, &mut tokens, "p"), Ok(()));
    assert!(pending.is_empty());
    assert_eq!(tokens, vec![tok(Token::While, 2, 3, 5)]);
    let mut pending = analyze_chars("7up");
    let e = char_buf_clear(&mut pending, &mut tokens, "p").unwrap_err();
    assert!(pending.is_empty());
    assert_eq!((e.line(), e.column(), e.length()), (Some(1), Some(1), Some(3)));
    assert_eq!(tokens.len(), 1);
    let mut pending = vec![
        AnalyzedChar { kind: CharKind::Char('a'), line: 5, column: 6 },
        AnalyzedChar { kind: CharKind::Whitespace, line: 1, column: 1 },
    ];
    let e = char_buf_clear(&mut pending, &mut tokens, "p").unwrap_err();
    assert_eq!(e.message(), "Unexpected token! -> 'a\u{fffd}'");
    assert_eq!((e.line(), e.column(), e.length()), (Some(5), Some(6), Some(2)));
}

#[test]
fn reading_a_string_literal() {
    let chars = analyze_chars("x \"a\tb\" y");
    let (token, next) = handle_string_literal(&chars, 3, 1, 3, "p").unwrap();
    assert_eq!(token, tok(Token::StringLiteral("a b".to_string()), 1, 3, 3));
    assert_eq!(next, 7);
    let (token, next) = handle_string_literal(&chars, 0, 9, 9, "p").unwrap();
    assert_eq!(token, tok(Token::StringLiteral("x ".to_string()), 9, 9, 2));
    assert_eq!(next, 3);
    let e = handle_string_literal(&chars, 7, 2, 5, "p").unwrap_err();
    assert_eq!(e.message(), "Unclosed string literal!");
    assert_eq!((e.line(), e.column(), e.length()), (Some(2), Some(5), None));
    assert!(handle_string_literal(&chars, 9, 1, 1, "p").is_err());
    assert!(handle_string_literal(&chars, 100, 1, 1, "p").is_err());
}

#[test]
fn reading_a_char_literal() {
    let chars = analyze_chars("'a' 'bc");
    let (token, next) = handle_char_literal(&chars, 1, 1, 1, "p").unwrap();
    assert_eq!(token, tok(Token::CharLiteral('a'), 1, 1, 1));
    assert_eq!(next, 3);
    let e = handle_char_literal(&chars, 5, 1, 5, "p").unwrap_err();
    assert_eq!(e.message(), "Expected closing single quote!");
    let e = handle_char_literal(&chars, 6, 1, 6, "p").unwrap_err();
    assert_eq!(e.message(), "Unexpected end of input while parsing char literal!");
    let e = handle_char_literal(&chars, 7, 1, 7, "p").unwrap_err();
    assert_eq!(e.message(), "Unexpected end of input after single quote!");
    let e = handle_char_literal(&chars, 70, 1, 7, "p").unwrap_err();
    assert_eq!(e.message(), "Unexpected end of input after single quote!");
    assert_eq!((e.line(), e.column(), e.length()), (Some(1), Some(7), None));
}

#[test]
fn skipping_a_comment() {
    let chars = analyze_chars("// a\n// b");
    assert_eq!(handle_command_line(&chars, 0), 5);
    assert_eq!(handle_command_line(&chars, 2), 5);
    assert_eq!(handle_command_line(&chars, 4), 5);
    assert_eq!(handle_command_line(&chars, 5), 9);
    assert_eq!(handle_command_line(&chars, 9), 9);
    assert_eq!(handle_command_line(&chars, 12), 12);
}

#[test]
fn text_helpers() {
    assert_eq!(chars_of("aé京"), vec!['a', 'é', '京']);
    assert_eq!(chars_of(""), Vec::<char>::new());
    assert!(spells(&['i', 'f'], "if"));
    assert!(!spells(&['i', 'f'], "of"));
    assert!(!spells(&['i', 'f'], "iff"));
    assert!(!spells(&['i', 'f'], "i"));
    assert!(spells(&[], ""));
}
