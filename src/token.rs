//! Lexical categories and tokens.

use vstd::prelude::*;

verus! {

/// The lexical category of a token. Identifiers, strings and numbers carry
/// their text: an identifier its name, a string the characters between its
/// quotes, and a number its decimal digits as written.
#[derive(Debug, Clone, PartialEq)]
pub enum TokenType {
    // Single-character tokens.
    LeftParen,
    RightParen,
    LeftBrace,
    RightBrace,
    Comma,
    Dot,
    Minus,
    Plus,
    SemiColon,
    Slash,
    Star,
    // One or two character tokens.
    Bang,
    BangEqual,
    Equal,
    EqualEqual,
    Greater,
    GreaterEqual,
    Less,
    LessEqual,
    // Literals.
    Identifier(String),
    String(String),
    Number(String),
    // Keywords.
    And,
    Class,
    Else,
    False,
    Fun,
    For,
    If,
    Nil,
    Or,
    Print,
    Return,
    Super,
    This,
    True,
    Var,
    While,
    EOF,
}

/// A token category as a mathematical value: the text that a category
/// carries becomes a sequence of characters, the other categories stand as
/// they are.
pub enum Category {
    Plain(TokenType),
    Identifier(Seq<char>),
    Str(Seq<char>),
    Number(Seq<char>),
}

impl View for TokenType {
    type V = Category;

    open spec fn view(&self) -> Category {
        match self {
            TokenType::Identifier(s) => Category::Identifier(s@),
            TokenType::String(s) => Category::Str(s@),
            TokenType::Number(s) => Category::Number(s@),
            _ => Category::Plain(*self),
        }
    }
}

/// A scanned token: its category, the source text it was scanned from, and
/// the line it stands on.
#[derive(Clone, Debug, PartialEq)]
pub struct Token {
    pub typ: TokenType,
    pub lexeme: String,
    pub line: usize,
}

/// A token as a mathematical value.
pub struct TokenView {
    pub typ: Category,
    pub lexeme: Seq<char>,
    pub line: nat,
}

impl View for Token {
    type V = TokenView;

    open spec fn view(&self) -> TokenView {
        TokenView { typ: self.typ@, lexeme: self.lexeme@, line: self.line as nat }
    }
}

impl Token {
    pub fn new(typ: TokenType, lexeme: String, line: usize) -> (r: Token)
        ensures
            r.typ == typ,
            r.lexeme == lexeme,
            r.line == line,
    {
        Token { typ, lexeme, line }
    }
}

/// The reserved word spelled by `w`, if any.
pub open spec fn keyword_spec(w: Seq<char>) -> Option<TokenType> {
    if w == "and"@ {
        Some(TokenType::And)
    } else if w == "class"@ {
        Some(TokenType::Class)
    } else if w == "else"@ {
        Some(TokenType::Else)
    } else if w == "false"@ {
        Some(TokenType::False)
    } else if w == "for"@ {
        Some(TokenType::For)
    } else if w == "fun"@ {
        Some(TokenType::Fun)
    } else if w == "if"@ {
        Some(TokenType::If)
    } else if w == "nil"@ {
        Some(TokenType::Nil)
    } else if w == "or"@ {
        Some(TokenType::Or)
    } else if w == "print"@ {
        Some(TokenType::Print)
    } else if w == "return"@ {
        Some(TokenType::Return)
    } else if w == "super"@ {
        Some(TokenType::Super)
    } else if w == "this"@ {
        Some(TokenType::This)
    } else if w == "true"@ {
        Some(TokenType::True)
    } else if w == "var"@ {
        Some(TokenType::Var)
    } else if w == "while"@ {
        Some(TokenType::While)
    } else {
        None
    }
}

/// A reserved word's category carries no text.
pub proof fn lemma_keyword_plain(w: Seq<char>)
    ensures
        keyword_spec(w) matches Some(k) ==> k@ == Category::Plain(k),
{
}

fn is_word(w: &String, lit: &str) -> (r: bool)
    ensures
        r == (w@ == lit@),
{
    let s = String::from_str(lit);
    *w == s
}

/// Looks up a reserved word: the keyword category on an exact match.
pub fn keyword(w: &String) -> (r: Option<TokenType>)
    ensures
        r == keyword_spec(w@),
{
    if is_word(w, "and") {
        Some(TokenType::And)
    } else if is_word(w, "class") {
        Some(TokenType::Class)
    } else if is_word(w, "else") {
        Some(TokenType::Else)
    } else if is_word(w, "false") {
        Some(TokenType::False)
    } else if is_word(w, "for") {
        Some(TokenType::For)
    } else if is_word(w, "fun") {
        Some(TokenType::Fun)
    } else if is_word(w, "if") {
        Some(TokenType::If)
    } else if is_word(w, "nil") {
        Some(TokenType::Nil)
    } else if is_word(w, "or") {
        Some(TokenType::Or)
    } else if is_word(w, "print") {
        Some(TokenType::Print)
    } else if is_word(w, "return") {
        Some(TokenType::Return)
    } else if is_word(w, "super") {
        Some(TokenType::Super)
    } else if is_word(w, "this") {
        Some(TokenType::This)
    } else if is_word(w, "true") {
        Some(TokenType::True)
    } else if is_word(w, "var") {
        Some(TokenType::Var)
    } else if is_word(w, "while") {
        Some(TokenType::While)
    } else {
        None
    }
}

} // verus!
