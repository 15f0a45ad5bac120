use vstd::prelude::*;

verus! {

/// The kinds of token the lexer produces.
///
/// `Invalid` marks a byte sequence that is not a token of the language.
#[derive(Clone, Copy, PartialEq, Eq, Structural, Debug)]
pub enum TokenType {
    Invalid,
    Ident,
    Number,
    Eof,
    Plus,
    Minus,
    Times,
    Slash,
    Rem,
    Eql,
    Neq,
    Lss,
    Leq,
    Gtr,
    Geq,
    And,
    Or,
    Assign,
    Pplus,
    Mminus,
    Semicolon,
    Comma,
    Period,
    Lpar,
    Rpar,
    Lbrack,
    Rbrack,
    Lbrace,
    Rbrace,
    Break,
    Struct,
    Else,
    Const,
    If,
    New,
    Return,
    Void,
    While,
}

/// One token: its kind, the line and column of its first byte, and its
/// spelling for identifiers and numbers (empty for every other kind).
#[derive(PartialEq, Debug)]
pub struct Token {
    pub token_type: TokenType,
    pub line: usize,
    pub col: usize,
    pub val: String,
}

/// The reserved word spelled by `w`, or `Ident` for any other word.
pub open spec fn keyword_kind(w: Seq<char>) -> TokenType {
    if w == "break"@ {
        TokenType::Break
    } else if w == "struct"@ {
        TokenType::Struct
    } else if w == "else"@ {
        TokenType::Else
    } else if w == "const"@ {
        TokenType::Const
    } else if w == "if"@ {
        TokenType::If
    } else if w == "new"@ {
        TokenType::New
    } else if w == "return"@ {
        TokenType::Return
    } else if w == "void"@ {
        TokenType::Void
    } else if w == "while"@ {
        TokenType::While
    } else {
        TokenType::Ident
    }
}

} // verus!
