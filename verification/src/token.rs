use vstd::prelude::*;
use crate::unicode::string_eq_str;

verus! {

/// The language's keywords.
#[derive(Debug, Clone, Copy, PartialEq, Eq, Structural)]
pub enum Keyword {
    Const,
    Let,
    If,
    Else,
    While,
    When,
    Break,
    Return,
    Continue,
    Typeof,
    Import,
    Export,
}

/// The language's punctuation and operator symbols, single and compound.
#[derive(Debug, Clone, Copy, PartialEq, Eq, Structural)]
pub enum Symbol {
    Equal,
    PlusEqual,
    MinusEqual,
    StarEqual,
    SlashEqual,
    PercentEqual,
    Bar,
    And,
    BarBar,
    AndAnd,
    EqualEqual,
    BangEqual,
    Less,
    Greater,
    LessEqual,
    GreaterEqual,
    Plus,
    Minus,
    Star,
    Slash,
    Percent,
    Bang,
    Dot,
    LeftParen,
    RightParen,
    LeftBrace,
    RightBrace,
    LeftBracket,
    RightBracket,
    Comma,
    Semicolon,
    Colon,
}

/// One lexical token.  A `Double` carries the literal source text of the
/// numeric run; turning it into a floating-point value is left to unverified
/// consumers.
#[derive(Debug, PartialEq)]
pub enum Token {
    /// A string literal's body.
    Str(String),
    /// A symbol.
    Sym(Symbol),
    /// An integer literal.
    Int(i32),
    /// A floating-point literal, as its source text.
    Double(String),
    /// A language-defined keyword.
    Kw(Keyword),
    /// A user-defined identifier.
    Id(String),
}

/// The mathematical value of a token.
pub enum TokenS {
    Str(Seq<char>),
    Sym(Symbol),
    Int(i32),
    Double(Seq<char>),
    Kw(Keyword),
    Id(Seq<char>),
}

impl View for Token {
    type V = TokenS;

    open spec fn view(&self) -> TokenS {
        match self {
            Token::Str(s) => TokenS::Str(s@),
            Token::Sym(s) => TokenS::Sym(*s),
            Token::Int(n) => TokenS::Int(*n),
            Token::Double(s) => TokenS::Double(s@),
            Token::Kw(k) => TokenS::Kw(*k),
            Token::Id(s) => TokenS::Id(s@),
        }
    }
}

/// The value of a buffered token slot.
pub open spec fn view_opt(t: Option<Token>) -> Option<TokenS> {
    match t {
        Some(t) => Some(t@),
        None => None,
    }
}

/// The keyword a word denotes, if any.
pub open spec fn keyword_of(w: Seq<char>) -> Option<Keyword> {
    if w == "const"@ {
        Some(Keyword::Const)
    } else if w == "let"@ {
        Some(Keyword::Let)
    } else if w == "if"@ {
        Some(Keyword::If)
    } else if w == "else"@ {
        Some(Keyword::Else)
    } else if w == "while"@ {
        Some(Keyword::While)
    } else if w == "when"@ {
        Some(Keyword::When)
    } else if w == "break"@ {
        Some(Keyword::Break)
    } else if w == "return"@ {
        Some(Keyword::Return)
    } else if w == "continue"@ {
        Some(Keyword::Continue)
    } else if w == "typeof"@ {
        Some(Keyword::Typeof)
    } else if w == "import"@ {
        Some(Keyword::Import)
    } else if w == "export"@ {
        Some(Keyword::Export)
    } else {
        None
    }
}

/// Match a lexed word against the fixed keyword table.
pub(crate) fn keyword_lookup(w: &String) -> (r: Option<Keyword>)
    ensures
        r == keyword_of(w@),
{
    if string_eq_str(w, "const") {
        Some(Keyword::Const)
    } else if string_eq_str(w, "let") {
        Some(Keyword::Let)
    } else if string_eq_str(w, "if") {
        Some(Keyword::If)
    } else if string_eq_str(w, "else") {
        Some(Keyword::Else)
    } else if string_eq_str(w, "while") {
        Some(Keyword::While)
    } else if string_eq_str(w, "when") {
        Some(Keyword::When)
    } else if string_eq_str(w, "break") {
        Some(Keyword::Break)
    } else if string_eq_str(w, "return") {
        Some(Keyword::Return)
    } else if string_eq_str(w, "continue") {
        Some(Keyword::Continue)
    } else if string_eq_str(w, "typeof") {
        Some(Keyword::Typeof)
    } else if string_eq_str(w, "import") {
        Some(Keyword::Import)
    } else if string_eq_str(w, "export") {
        Some(Keyword::Export)
    } else {
        None
    }
}

/// Compare two tokens for equality of their values.
pub fn token_eq(a: &Token, b: &Token) -> (r: bool)
    ensures
        r == (a@ == b@),
{
    match (a, b) {
        (Token::Str(x), Token::Str(y)) => *x == *y,
        (Token::Sym(x), Token::Sym(y)) => *x == *y,
        (Token::Int(x), Token::Int(y)) => *x == *y,
        (Token::Double(x), Token::Double(y)) => *x == *y,
        (Token::Kw(x), Token::Kw(y)) => *x == *y,
        (Token::Id(x), Token::Id(y)) => *x == *y,
        _ => false,
    }
}

} // verus!
