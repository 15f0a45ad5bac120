use minilex::Lexer;
use minilex::TokenType::{
    And, Assign, Break, Comma, Const, Else, Eof, Eql, Geq, Gtr, Ident, If, Lbrace, Lbrack, Leq,
    Lpar, Lss, Minus, Mminus, Neq, New, Number, Or, Period, Plus, Pplus, Rbrace, Rbrack, Rem,
    Return, Rpar, Semicolon, Slash, Struct, Times, Void, While,
};

#[test]
fn test_operators() {
    let test = "+-*/%==!=<<=>>=&&||=++--;,.()[]{}";
    let expected_types = vec![
        Plus, Minus, Times, Slash, Rem, Eql, Neq, Lss, Leq, Gtr, Geq, And, Or, Assign, Pplus,
        Mminus, Semicolon, Comma, Period, Lpar, Rpar, Lbrack, Rbrack, Lbrace, Rbrace, Eof,
    ];

    let mut lexer = Lexer::init(test);

    for expected_type in expected_types {
        assert_eq!(expected_type, lexer.next().token_type);
    }
}

#[test]
fn test_identifiers() {
    let test = "break\nstruct\nelse\nconst\nif\nnew\nreturn\nvoid\nwhile\nx\nabc\n100";
    let expected_types = vec![
        Break, Struct, Else, Const, If, New, Return, Void, While, Ident, Ident, Number, Eof,
    ];
    let expected_values = vec![
        "break", "struct", "else", "const", "if", "new", "return", "void", "while", "x", "abc",
        "100", "",
    ];

    let mut lexer = Lexer::init(test);

    for i in 0..expected_types.len() {
        let token = lexer.next();
        assert_eq!(expected_types[i], token.token_type);
        assert_eq!(expected_values[i], token.val)
    }
}

#[test]
fn test_comment() {
    let test = "//This is a comment";
    let mut lexer = Lexer::init(test);

    assert_eq!(Eof, lexer.next().token_type)
}

#[test]
fn test_comment_with_code() {
    let test = "//This is a comment\nint x = 10;";
    let mut lexer = Lexer::init(test);

    let expected_types = vec![Ident, Ident, Assign, Number, Semicolon, Eof];
    let expected_values = vec!["int", "x", "", "10", "", ""];

    for i in 0..expected_types.len() {
        let token = lexer.next();
        assert_eq!(expected_types[i], token.token_type);
        assert_eq!(expected_values[i], token.val)
    }
}
