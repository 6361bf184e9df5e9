//! The fixed tables of the language: its symbols, its reserved words and the
//! character classes of identifiers and numbers.
use crate::modules::tokens::TokenView;
use vstd::prelude::*;

verus! {

/// The symbols of one character.
pub open spec fn single_symbol(c: char) -> bool {
    ||| c == '='
    ||| c == '\''
    ||| c == '"'
    ||| c == ':'
    ||| c == ';'
    ||| c == ')'
    ||| c == '('
    ||| c == '{'
    ||| c == '}'
    ||| c == '-'
    ||| c == '+'
    ||| c == '/'
    ||| c == '*'
    ||| c == '?'
    ||| c == '>'
    ||| c == '%'
    ||| c == '['
    ||| c == ']'
    ||| c == '^'
    ||| c == '<'
    ||| c == ','
}

/// The symbols of two characters: `::`, the arrows `->` `-<` `<-` `-!`, the
/// comment markers `//` and `/*`, and the comparisons and connectives
/// `==` `!=` `<=` `>=` `&&` `||`.
pub open spec fn double_symbol(first: char, second: char) -> bool {
    ||| first == ':' && second == ':'
    ||| first == '-' && (second == '>' || second == '<' || second == '!')
    ||| first == '<' && (second == '-' || second == '=')
    ||| first == '/' && (second == '/' || second == '*')
    ||| first == '=' && second == '='
    ||| first == '>' && second == '='
    ||| first == '!' && second == '='
    ||| first == '&' && second == '&'
    ||| first == '|' && second == '|'
}

/// Whether `text` is an entry of the symbol table.
pub open spec fn is_symbol(text: Seq<char>) -> bool {
    ||| text.len() == 1 && single_symbol(text[0])
    ||| text.len() == 2 && double_symbol(text[0], text[1])
}

/// The symbol table as a set of texts.
pub open spec fn symbols() -> Set<Seq<char>> {
    set![
        seq!['='],
        seq!['\''],
        seq!['"'],
        seq![':'],
        seq![';'],
        seq![')'],
        seq!['('],
        seq!['{'],
        seq!['}'],
        seq!['-'],
        seq!['+'],
        seq!['/'],
        seq!['*'],
        seq!['?'],
        seq!['>'],
        seq!['%'],
        seq!['['],
        seq![']'],
        seq!['^'],
        seq!['<'],
        seq![','],
        seq![':', ':'],
        seq!['-', '>'],
        seq!['-', '<'],
        seq!['-', '!'],
        seq!['<', '-'],
        seq!['<', '='],
        seq!['/', '/'],
        seq!['/', '*'],
        seq!['=', '='],
        seq!['>', '='],
        seq!['!', '='],
        seq!['&', '&'],
        seq!['|', '|'],
    ]
}

/// The entries of the symbol table are the texts of the set, no more and
/// no fewer.
pub proof fn lemma_symbol_table(text: Seq<char>)
    ensures
        is_symbol(text) <==> symbols().contains(text),
{
    if is_symbol(text) {
        if text.len() == 1 {
            assert(text =~= seq![text[0]]);
        } else {
            assert(text =~= seq![text[0], text[1]]);
        }
    }
}

/// Whether a symbol can begin with `c`.
pub open spec fn starts_symbol(c: char) -> bool {
    single_symbol(c) || c == '!' || c == '&' || c == '|'
}

/// The characters that begin a symbol are the first characters of the
/// table's entries, and no others.
pub proof fn lemma_symbol_starts(c: char)
    ensures
        starts_symbol(c) <==> exists|text: Seq<char>| #[trigger]
            is_symbol(text) && text[0] == c,
{
    if starts_symbol(c) {
        if single_symbol(c) {
            assert(is_symbol(seq![c]) && seq![c][0] == c);
        } else if c == '!' {
            assert(is_symbol(seq![c, '=']) && seq![c, '='][0] == c);
        } else {
            assert(is_symbol(seq![c, c]) && seq![c, c][0] == c);
        }
    }
}

/// The line comment marker.
pub open spec fn comment_marker(first: char, second: char) -> bool {
    first == '/' && second == '/'
}

/// The token of a symbol of one character. A symbol without a variant of
/// its own is carried as text.
pub open spec fn single_token(c: char) -> TokenView {
    if c == ';' {
        TokenView::Semicolon
    } else if c == '=' {
        TokenView::Equals
    } else if c == ':' {
        TokenView::Colon
    } else if c == '{' {
        TokenView::LBrace
    } else if c == '}' {
        TokenView::RBrace
    } else if c == ')' {
        TokenView::RightParen
    } else if c == '(' {
        TokenView::LeftParen
    } else if c == '[' {
        TokenView::LBracket
    } else if c == ']' {
        TokenView::RBracket
    } else if c == '+' {
        TokenView::Plus
    } else if c == '-' {
        TokenView::Minus
    } else if c == '*' {
        TokenView::Star
    } else if c == '/' {
        TokenView::Slash
    } else if c == '%' {
        TokenView::Percent
    } else if c == '^' {
        TokenView::Power
    } else if c == '?' {
        TokenView::Question
    } else if c == '!' {
        TokenView::Not
    } else {
        TokenView::Symbol(seq![c])
    }
}

/// The token of a symbol of two characters. A symbol without a variant of
/// its own is carried as text.
pub open spec fn pair_token(first: char, second: char) -> TokenView {
    if first == '=' && second == '=' {
        TokenView::EqualEqual
    } else if first == '!' && second == '=' {
        TokenView::NotEquals
    } else if first == '&' && second == '&' {
        TokenView::And
    } else if first == '|' && second == '|' {
        TokenView::Or
    } else if first == '<' && second == '=' {
        TokenView::LessEqual
    } else if first == '>' && second == '=' {
        TokenView::GreaterEqual
    } else if first == '-' && second == '>' {
        TokenView::Arrow
    } else if first == '-' && second == '<' {
        TokenView::ChainBack
    } else if first == '-' && second == '!' {
        TokenView::ChainNot
    } else if first == '<' && second == '-' {
        TokenView::ReverseArrow
    } else if first == ':' && second == ':' {
        TokenView::DoubleColon
    } else {
        TokenView::Symbol(seq![first, second])
    }
}

/// The token of a reserved word or type name, if `text` is one. The words
/// `and` and `or` have the tokens of the symbols `&&` and `||`.
pub open spec fn keyword(text: Seq<char>) -> Option<TokenView> {
    if text == "let"@ {
        Some(TokenView::Let)
    } else if text == "op"@ {
        Some(TokenView::Op)
    } else if text == "if"@ {
        Some(TokenView::If)
    } else if text == "else"@ {
        Some(TokenView::Else)
    } else if text == "while"@ {
        Some(TokenView::While)
    } else if text == "for"@ {
        Some(TokenView::For)
    } else if text == "loop"@ {
        Some(TokenView::Loop)
    } else if text == "success"@ {
        Some(TokenView::Success)
    } else if text == "i32"@ {
        Some(TokenView::IntType("i32"@))
    } else if text == "string"@ {
        Some(TokenView::String)
    } else if text == "char"@ {
        Some(TokenView::Char)
    } else if text == "f32"@ {
        Some(TokenView::FloatType("f32"@))
    } else if text == "bool"@ {
        Some(TokenView::Bool)
    } else if text == "break"@ {
        Some(TokenView::Break)
    } else if text == "continue"@ {
        Some(TokenView::Continue)
    } else if text == "true"@ {
        Some(TokenView::True)
    } else if text == "false"@ {
        Some(TokenView::False)
    } else if text == "nret"@ {
        Some(TokenView::Nret)
    } else if text == "data"@ {
        Some(TokenView::Data)
    } else if text == "and"@ {
        Some(TokenView::And)
    } else if text == "or"@ {
        Some(TokenView::Or)
    } else {
        None
    }
}

/// Whether `c` is one of the digits `0` to `9`.
pub open spec fn is_digit(c: char) -> bool {
    '0' <= c && c <= '9'
}

/// The value of the digit `c`.
pub open spec fn digit_value(c: char) -> nat {
    (c as int - '0' as int) as nat
}

/// Whether `text` consists of digits only.
pub open spec fn all_digits(text: Seq<char>) -> bool {
    forall|k: int| 0 <= k < text.len() ==> is_digit(#[trigger] text[k])
}

/// The number that the digits of `text` write in decimal.
pub open spec fn digits_value(text: Seq<char>) -> nat
    decreases text.len(),
{
    if text.len() == 0 {
        0
    } else {
        10 * digits_value(text.drop_last()) + digit_value(text.last())
    }
}

/// Whether `c` has the Unicode `Alphabetic` property, as `char::is_alphabetic` reports it.
pub uninterp spec fn unicode_alphabetic(c: char) -> bool;

/// Whether `c` is alphabetic or numeric in Unicode, as `char::is_alphanumeric` reports it.
pub uninterp spec fn unicode_alphanumeric(c: char) -> bool;

/// `char::is_alphabetic` of std: its answer depends on the character alone and
/// is the `Alphabetic` property of the Unicode tables that std carries. Nothing
/// is claimed about which characters have it.
pub assume_specification[ char::is_alphabetic ](c: char) -> (b: bool)
    ensures
        b == unicode_alphabetic(c),
;

/// `char::is_alphanumeric` of std: its answer depends on the character alone
/// and says whether the character is alphabetic or numeric in the Unicode
/// tables that std carries, so it holds of every alphabetic character.
/// Nothing else is claimed about which characters are alphanumeric.
pub assume_specification[ char::is_alphanumeric ](c: char) -> (b: bool)
    ensures
        b == unicode_alphanumeric(c),
        unicode_alphabetic(c) ==> b,
;

/// Whether an identifier can begin with `c`.
pub open spec fn identifier_start(c: char) -> bool {
    unicode_alphabetic(c) || c == '_'
}

/// Whether `c` can stand in an identifier.
pub open spec fn identifier_part(c: char) -> bool {
    unicode_alphanumeric(c) || c == '_'
}

/// Whether every character of `text` can stand in an identifier.
pub open spec fn all_identifier_parts(text: Seq<char>) -> bool {
    forall|k: int| 0 <= k < text.len() ==> identifier_part(#[trigger] text[k])
}

} // verus!
