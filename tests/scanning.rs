use minilex::{Lexer, Token, TokenType};

fn all_tokens(text: &str) -> Vec<Token> {
    let mut lexer = Lexer::init(text);
    let mut tokens = Vec::new();
    loop {
        let token = lexer.next();
        let done = token.token_type == TokenType::Eof;
        tokens.push(token);
        if done {
            return tokens;
        }
    }
}

fn kinds(text: &str) -> Vec<TokenType> {
    all_tokens(text).into_iter().map(|t| t.token_type).collect()
}

#[test]
fn bare_bang_is_invalid() {
    assert_eq!(kinds("!"), vec![TokenType::Invalid, TokenType::Eof]);
}

#[test]
fn single_ampersand_and_bar_are_invalid() {
    assert_eq!(kinds("&"), vec![TokenType::Invalid, TokenType::Eof]);
    assert_eq!(kinds("|"), vec![TokenType::Invalid, TokenType::Eof]);
    assert_eq!(
        kinds("& |x"),
        vec![TokenType::Invalid, TokenType::Invalid, TokenType::Ident, TokenType::Eof]
    );
}

#[test]
fn unknown_bytes_are_invalid() {
    assert_eq!(kinds("#"), vec![TokenType::Invalid, TokenType::Eof]);
    // two bytes in UTF-8, each scanned on its own
    assert_eq!(kinds("é"), vec![TokenType::Invalid, TokenType::Invalid, TokenType::Eof]);
}

#[test]
fn end_of_input_repeats() {
    let mut lexer = Lexer::init("x  ");
    assert_eq!(lexer.next().token_type, TokenType::Ident);
    for _ in 0..5 {
        let token = lexer.next();
        assert_eq!(token.token_type, TokenType::Eof);
        assert_eq!(token.val, "");
        assert_eq!((token.line, token.col), (1, 3));
    }
}

#[test]
fn empty_input_is_end_of_input() {
    let mut lexer = Lexer::init("");
    let token = lexer.next();
    assert_eq!(token.token_type, TokenType::Eof);
    assert_eq!((token.line, token.col), (1, 0));
    assert_eq!(lexer.next().token_type, TokenType::Eof);
}

#[test]
fn long_digit_run_is_one_number() {
    let digits = "000123456789012345678901234567890";
    let tokens = all_tokens(digits);
    assert_eq!(tokens.len(), 2);
    assert_eq!(tokens[0].token_type, TokenType::Number);
    assert_eq!(tokens[0].val, digits);
}

#[test]
fn number_then_word() {
    let tokens = all_tokens("10abc");
    assert_eq!(tokens[0].token_type, TokenType::Number);
    assert_eq!(tokens[0].val, "10");
    assert_eq!(tokens[1].token_type, TokenType::Ident);
    assert_eq!(tokens[1].val, "abc");
    assert_eq!(tokens[1].col, 3);
}

#[test]
fn keywords_are_case_sensitive() {
    let tokens = all_tokens("Break whileX while2 iF");
    for t in &tokens[..4] {
        assert_eq!(t.token_type, TokenType::Ident);
    }
    assert_eq!(tokens[0].val, "Break");
    assert_eq!(tokens[1].val, "whileX");
    assert_eq!(tokens[2].val, "while2");
}

#[test]
fn positions_follow_lines_and_columns() {
    let tokens = all_tokens("a\n  bc;\n\n x");
    let spots: Vec<(usize, usize)> = tokens.iter().map(|t| (t.line, t.col)).collect();
    assert_eq!(spots, vec![(1, 1), (2, 3), (2, 5), (4, 2), (4, 2)]);
}

#[test]
fn leading_newline_starts_line_two() {
    let tokens = all_tokens("\nx");
    assert_eq!((tokens[0].line, tokens[0].col), (2, 1));
}

#[test]
fn comment_is_skipped_up_to_the_next_line() {
    let tokens = all_tokens("//comment\nint x = 10;");
    let kinds: Vec<TokenType> = tokens.iter().map(|t| t.token_type).collect();
    assert_eq!(
        kinds,
        vec![
            TokenType::Ident,
            TokenType::Ident,
            TokenType::Assign,
            TokenType::Number,
            TokenType::Semicolon,
            TokenType::Eof
        ]
    );
    assert_eq!(tokens[0].val, "int");
    assert_eq!((tokens[0].line, tokens[0].col), (2, 1));
    assert_eq!(tokens[3].val, "10");
}

#[test]
fn consecutive_comments_and_trailing_comment() {
    assert_eq!(
        kinds("a // one\n// two\n\n// three\nb // four"),
        vec![TokenType::Ident, TokenType::Ident, TokenType::Eof]
    );
}

#[test]
fn slash_alone_is_division() {
    assert_eq!(
        kinds("a/b /"),
        vec![TokenType::Ident, TokenType::Slash, TokenType::Ident, TokenType::Slash, TokenType::Eof]
    );
}

#[test]
fn separated_operators_are_read_in_order() {
    assert_eq!(
        kinds("+ +-- = ==< <="),
        vec![
            TokenType::Plus,
            TokenType::Plus,
            TokenType::Mminus,
            TokenType::Assign,
            TokenType::Eql,
            TokenType::Lss,
            TokenType::Leq,
            TokenType::Eof
        ]
    );
}

#[test]
fn reserved_words_alone() {
    let words = [
        ("break", TokenType::Break),
        ("struct", TokenType::Struct),
        ("else", TokenType::Else),
        ("const", TokenType::Const),
        ("if", TokenType::If),
        ("new", TokenType::New),
        ("return", TokenType::Return),
        ("void", TokenType::Void),
        ("while", TokenType::While),
    ];
    for (w, k) in words {
        let tokens = all_tokens(w);
        assert_eq!(tokens.len(), 2);
        assert_eq!(tokens[0].token_type, k);
        assert_eq!(tokens[0].val, w);
    }
}

#[test]
fn control_bytes_are_blank() {
    assert_eq!(kinds("\t\r\u{0}x"), vec![TokenType::Ident, TokenType::Eof]);
}
