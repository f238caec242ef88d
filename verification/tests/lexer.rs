use kythera::input_stream::InputStream;
use kythera::token::{Token, Symbol, Keyword};
use kythera::tokenizer::Tokenizer;
use kythera::error::ErrorKind;

fn lex_all(input: &str) -> Vec<Token> {
    let mut tok = Tokenizer::new(InputStream::new_from_string(input)).unwrap();
    let mut out = Vec::new();
    while let Some(t) = tok.consume().unwrap() {
        out.push(t);
    }
    out
}

#[test]
fn tokens() {
    let input = "\"string literal\"
= += -= *= /= %=
| & || &&
== != < > <= >=
+ - * / %
!
. ( ) [ ] { }
, ; :

42
3.14159

const
let
if
else
while
when
break
return
continue
typeof
import
export

myVar";

    let mut tokenizer = Tokenizer::new(InputStream::new_from_string(input)).unwrap();

    let expected = vec![
        Some(Token::Str("string literal".to_string())),
        Some(Token::Sym(Symbol::Equal)),
        Some(Token::Sym(Symbol::PlusEqual)),
        Some(Token::Sym(Symbol::MinusEqual)),
        Some(Token::Sym(Symbol::StarEqual)),
        Some(Token::Sym(Symbol::SlashEqual)),
        Some(Token::Sym(Symbol::PercentEqual)),
        Some(Token::Sym(Symbol::Bar)),
        Some(Token::Sym(Symbol::And)),
        Some(Token::Sym(Symbol::BarBar)),
        Some(Token::Sym(Symbol::AndAnd)),
        Some(Token::Sym(Symbol::EqualEqual)),
        Some(Token::Sym(Symbol::BangEqual)),
        Some(Token::Sym(Symbol::Less)),
        Some(Token::Sym(Symbol::Greater)),
        Some(Token::Sym(Symbol::LessEqual)),
        Some(Token::Sym(Symbol::GreaterEqual)),
        Some(Token::Sym(Symbol::Plus)),
        Some(Token::Sym(Symbol::Minus)),
        Some(Token::Sym(Symbol::Star)),
        Some(Token::Sym(Symbol::Slash)),
        Some(Token::Sym(Symbol::Percent)),
        Some(Token::Sym(Symbol::Bang)),
        Some(Token::Sym(Symbol::Dot)),
        Some(Token::Sym(Symbol::LeftParen)),
        Some(Token::Sym(Symbol::RightParen)),
        Some(Token::Sym(Symbol::LeftBracket)),
        Some(Token::Sym(Symbol::RightBracket)),
        Some(Token::Sym(Symbol::LeftBrace)),
        Some(Token::Sym(Symbol::RightBrace)),
        Some(Token::Sym(Symbol::Comma)),
        Some(Token::Sym(Symbol::Semicolon)),
        Some(Token::Sym(Symbol::Colon)),
        Some(Token::Int(42)),
        Some(Token::Double("3.14159".to_string())),
        Some(Token::Kw(Keyword::Const)),
        Some(Token::Kw(Keyword::Let)),
        Some(Token::Kw(Keyword::If)),
        Some(Token::Kw(Keyword::Else)),
        Some(Token::Kw(Keyword::While)),
        Some(Token::Kw(Keyword::When)),
        Some(Token::Kw(Keyword::Break)),
        Some(Token::Kw(Keyword::Return)),
        Some(Token::Kw(Keyword::Continue)),
        Some(Token::Kw(Keyword::Typeof)),
        Some(Token::Kw(Keyword::Import)),
        Some(Token::Kw(Keyword::Export)),
        Some(Token::Id("myVar".to_string())),
    ];
    let mut expected_iter = expected.iter();

    while let (got, Some(expected)) = (tokenizer.consume().unwrap(), expected_iter.next()) {
        println!("{:?} vs {:?}", got, expected);
        assert_eq!(&got, expected);
    }
}

#[test]
fn single_string_literal() {
    let mut tok = Tokenizer::new(InputStream::new_from_string("\"abc\"")).unwrap();
    assert_eq!(tok.peek(), &Some(Token::Str("abc".to_string())));
    assert_eq!(tok.consume().unwrap(), Some(Token::Str("abc".to_string())));
    assert_eq!(tok.consume().unwrap(), None);
}

#[test]
fn single_int_literal() {
    assert_eq!(lex_all("42"), vec![Token::Int(42)]);
}

#[test]
fn single_double_literal() {
    assert_eq!(lex_all("3.14159"), vec![Token::Double("3.14159".to_string())]);
}

#[test]
fn unterminated_string_fails() {
    let r = Tokenizer::new(InputStream::new_from_string("\"abc"));
    match r {
        Ok(_) => panic!("expected an error"),
        Err(e) => assert_eq!(e.kind, ErrorKind::UnterminatedLiteral),
    }
}

#[test]
fn unterminated_block_comment_fails() {
    let r = Tokenizer::new(InputStream::new_from_string("/* abc"));
    match r {
        Ok(_) => panic!("expected an error"),
        Err(e) => assert_eq!(e.kind, ErrorKind::UnterminatedLiteral),
    }
}

#[test]
fn second_decimal_point_fails() {
    let r = Tokenizer::new(InputStream::new_from_string("1.2.3"));
    match r {
        Ok(_) => panic!("expected an error"),
        Err(e) => {
            assert_eq!(e.kind, ErrorKind::MalformedNumber);
            assert_eq!((e.line, e.col), (1, 4));
        },
    }
}

#[test]
fn integer_overflow_fails() {
    let r = Tokenizer::new(InputStream::new_from_string("99999999999999999999"));
    match r {
        Ok(_) => panic!("expected an error"),
        Err(e) => assert_eq!(e.kind, ErrorKind::MalformedNumber),
    }
}

#[test]
fn unexpected_grapheme_fails() {
    let r = Tokenizer::new(InputStream::new_from_string("@"));
    match r {
        Ok(_) => panic!("expected an error"),
        Err(e) => {
            assert_eq!(e.kind, ErrorKind::UnexpectedGrapheme);
            assert_eq!((e.line, e.col), (1, 1));
        },
    }
}

#[test]
fn comments_are_trivia() {
    assert_eq!(
        lex_all("1 // to the end of this line\n/* and * this */ 2"),
        vec![Token::Int(1), Token::Int(2)]
    );
}

#[test]
fn bare_symbol_at_end_of_input() {
    assert_eq!(lex_all("1 +"), vec![Token::Int(1), Token::Sym(Symbol::Plus)]);
}

#[test]
fn line_and_column_tracking() {
    let mut s = InputStream::new_from_string("ab\ncd");
    assert_eq!(s.loc(), "1:1".to_string());
    s.consume();
    assert_eq!(s.loc(), "1:2".to_string());
    s.consume();
    assert_eq!(s.loc(), "1:3".to_string());
    s.consume();
    assert_eq!(s.loc(), "2:1".to_string());
    s.consume();
    assert_eq!(s.loc(), "2:2".to_string());
}

#[test]
fn cursor_reconstructs_source() {
    let input = "he\u{301}llo /* \u{1F600} */ 42\n";
    let mut s = InputStream::new_from_string(input);
    let mut out = String::new();
    while !s.eof() {
        out.push_str(&s.consume());
    }
    assert_eq!(out, input);
}

#[test]
fn cursor_peek_and_expect() {
    let mut s = InputStream::new_from_string("x=1");
    assert_eq!(s.peek(), Some("x".to_string()));
    assert_eq!(s.peek_next(), Some("=".to_string()));
    assert!(!s.eof());
    assert_eq!(s.consume_expect("y").unwrap_err().kind, ErrorKind::UnexpectedGrapheme);
    assert_eq!(s.consume_expect("x").unwrap(), "x".to_string());
    assert_eq!(s.consume(), "=".to_string());
    assert_eq!(s.peek_next(), None);
    assert_eq!(s.consume(), "1".to_string());
    assert!(s.eof());
    assert_eq!(s.peek(), None);
    assert_eq!(s.consume_expect("x").unwrap_err().kind, ErrorKind::UnexpectedEndOfInput);
}

#[test]
fn read_while_takes_maximal_run() {
    let mut s = InputStream::new_from_string("aaab");
    let run = s.read_while(|g: &String| g == "a");
    assert_eq!(run, "aaa".to_string());
    assert_eq!(s.peek(), Some("b".to_string()));
}

#[test]
fn tokenizer_expect_reports_mismatch() {
    let mut tok = Tokenizer::new(InputStream::new_from_string("let")).unwrap();
    let e = tok.expect(&Token::Sym(Symbol::Semicolon)).unwrap_err();
    assert_eq!(e.kind, ErrorKind::UnexpectedToken);
    assert_eq!(
        tok.consume_expect(&Token::Kw(Keyword::Let)).unwrap(),
        Some(Token::Kw(Keyword::Let))
    );
    let e2 = tok.expect(&Token::Sym(Symbol::Semicolon)).unwrap_err();
    assert_eq!(e2.kind, ErrorKind::UnexpectedEndOfInput);
}

#[test]
fn underscore_and_unicode_identifiers() {
    assert_eq!(
        lex_all("_x caf\u{e9}"),
        vec![Token::Id("_x".to_string()), Token::Id("caf\u{e9}".to_string())]
    );
}
