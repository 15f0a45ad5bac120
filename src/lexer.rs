use vstd::prelude::*;
use vstd::string::{StrSliceExecFns, StringSliceAdditionalSpecFns};
use crate::model::{
    alnum_end, col_at, digit_end, is_digit, is_letter, kind_at, lemma_skip_bounds,
    lemma_token_bounds, line_at, read_count, skip_to_token, text_at, text_of, token_end,
    token_start, NEWLINE,
};
use crate::token::{keyword_kind, Token, TokenType};

verus! {

/// The line and column never exceed what `n` bytes can produce.
proof fn lemma_position_bounds(s: Seq<u8>, n: int)
    ensures
        line_at(s, n) <= if n > 0 { n + 1 } else { 1 },
        col_at(s, n) <= if n > 0 { n } else { 0 },
    decreases n,
{
    if n > 0 {
        lemma_position_bounds(s, n - 1);
    }
}

/// Relies on `String::push`: the character is appended at the end.
#[verifier::external_body]
fn push_char(s: &mut String, c: char)
    ensures
        final(s)@ == old(s)@.push(c),
{
    s.push(c)
}

/// Whether the two texts are the same, character by character.
fn same_text(a: &str, b: &str) -> (r: bool)
    ensures
        r == (a@ == b@),
{
    let n = a.unicode_len();
    if n != b.unicode_len() {
        return false;
    }
    let mut i: usize = 0;
    while i < n
        invariant
            n == a@.len() == b@.len(),
            i <= n,
            a@.subrange(0, i as int) == b@.subrange(0, i as int),
        decreases n - i,
    {
        if a.get_char(i) != b.get_char(i) {
            return false;
        }
        assert(a@.subrange(0, i + 1) =~= a@.subrange(0, i as int).push(a@[i as int]));
        assert(b@.subrange(0, i + 1) =~= b@.subrange(0, i as int).push(b@[i as int]));
        i = i + 1;
    }
    assert(a@ =~= a@.subrange(0, n as int));
    assert(b@ =~= b@.subrange(0, n as int));
    true
}

fn is_letter_byte(c: u8) -> (r: bool)
    ensures
        r == is_letter(c),
{
    (97 <= c && c <= 122) || (65 <= c && c <= 90)
}

fn is_digit_byte(c: u8) -> (r: bool)
    ensures
        r == is_digit(c),
{
    48 <= c && c <= 57
}

/// A lexer over a borrowed text, read byte by byte: only ASCII bytes make
/// words, numbers and operators, and every other byte outside a comment is an
/// `Invalid` token of its own.
pub struct Lexer<'a> {
    input: &'a [u8],
    pos: usize,
    line: usize,
    col: usize,
}

impl<'a> Lexer<'a> {
    /// The bytes being scanned.
    pub closed spec fn source(&self) -> Seq<u8> {
        self.input@
    }

    /// The cursor: the index of the byte under it (the input's length at end
    /// of input).
    pub closed spec fn cursor(&self) -> int {
        self.pos as int
    }

    /// The cursor lies within the input, and the line and column are those
    /// reached once the byte under the cursor has been read.
    pub closed spec fn wf(&self) -> bool {
        &&& self.input@.len() < usize::MAX
        &&& self.pos <= self.input@.len()
        &&& self.line == line_at(self.input@, read_count(self.input@, self.pos as int))
        &&& self.col == col_at(self.input@, read_count(self.input@, self.pos as int))
    }

    /// A lexer on `input`, its cursor on the first byte.
    pub fn init(input: &'a str) -> (l: Lexer<'a>)
        requires
            input.spec_bytes().len() < usize::MAX,
        ensures
            l.wf(),
            l.source() == input.spec_bytes(),
            l.cursor() == 0,
    {
        let bytes = input.as_bytes();
        let mut lexer = Lexer { input: bytes, pos: 0, line: 1, col: 0 };
        proof {
            assert(line_at(bytes@, 0) == 1 && col_at(bytes@, 0) == 0);
        }
        if bytes.len() > 0 {
            lexer.col = 1;
            if bytes[0] == NEWLINE {
                lexer.line = 2;
                lexer.col = 0;
            }
        }
        lexer
    }

    /// Scans the next token and moves the cursor past it. Blanks and line
    /// comments before it are skipped; at end of input the token is `Eof`
    /// and the cursor stays where it is.
    pub fn next(&mut self) -> (t: Token)
        requires
            old(self).wf(),
        ensures
            final(self).wf(),
            final(self).source() == old(self).source(),
            ({
                let s = old(self).source();
                let j = token_start(s, old(self).cursor());
                &&& t.token_type == kind_at(s, j)
                &&& t.val@ == text_at(s, j)
                &&& t.line == line_at(s, read_count(s, j))
                &&& t.col == col_at(s, read_count(s, j))
                &&& final(self).cursor() == token_end(s, j)
            }),
            t.token_type == TokenType::Eof ==> final(self).cursor() == final(self).source().len(),
            t.token_type != TokenType::Eof ==> final(self).cursor() > old(self).cursor(),
            old(self).cursor() == old(self).source().len() ==> t.token_type == TokenType::Eof
                && final(self).cursor() == old(self).cursor(),
    {
        let ghost s = self.input@;
        let ghost i0 = self.pos as int;
        proof {
            lemma_skip_bounds(s, i0, false);
        }
        loop
            invariant
                self.wf(),
                self.input@ == s,
                i0 <= self.pos,
                skip_to_token(s, self.pos as int, false) == token_start(s, i0),
            ensures
                self.wf(),
                self.input@ == s,
                i0 <= self.pos,
                self.pos as int == token_start(s, i0),
            decreases s.len() - self.pos,
        {
            if self.pos >= self.input.len() {
                break;
            }
            let c = self.input[self.pos];
            if c <= 32 {
                // a space or a control byte
                self.next_ch();
            } else if c == 47 && self.pos + 1 < self.input.len() && self.input[self.pos + 1] == 47 {
                // `//`: skip to the end of the line
                let ghost here = self.pos as int;
                self.next_ch();
                self.next_ch();
                while self.pos < self.input.len() && self.input[self.pos] != NEWLINE
                    invariant
                        self.wf(),
                        self.input@ == s,
                        here < self.pos,
                        i0 <= self.pos,
                        skip_to_token(s, self.pos as int, true) == token_start(s, i0),
                    decreases s.len() - self.pos,
                {
                    self.next_ch();
                }
            } else {
                break;
            }
        }
        let ghost j = self.pos as int;
        proof {
            lemma_token_bounds(s, j);
        }
        let mut token = Token {
            token_type: TokenType::Invalid,
            line: self.line,
            col: self.col,
            val: String::new(),
        };
        if self.pos >= self.input.len() {
            token.token_type = TokenType::Eof;
            return token;
        }
        let c = self.input[self.pos];
        if is_letter_byte(c) {
            token.token_type = self.read_name(&mut token);
        } else if is_digit_byte(c) {
            token.token_type = self.read_number(&mut token);
        } else {
            self.next_ch();
            token.token_type = match c {
                42 => TokenType::Times, // *
                37 => TokenType::Rem, // %
                44 => TokenType::Comma, // ,
                59 => TokenType::Semicolon, // ;
                46 => TokenType::Period, // .
                40 => TokenType::Lpar, // (
                41 => TokenType::Rpar, // )
                91 => TokenType::Lbrack, // [
                93 => TokenType::Rbrack, // ]
                123 => TokenType::Lbrace, // {
                125 => TokenType::Rbrace, // }
                47 => TokenType::Slash, // /
                43 => if self.at(43) { // +
                    self.next_ch();
                    TokenType::Pplus
                } else {
                    TokenType::Plus
                },
                45 => if self.at(45) { // -
                    self.next_ch();
                    TokenType::Mminus
                } else {
                    TokenType::Minus
                },
                61 => if self.at(61) { // =
                    self.next_ch();
                    TokenType::Eql
                } else {
                    TokenType::Assign
                },
                33 => if self.at(61) { // !
                    self.next_ch();
                    TokenType::Neq
                } else {
                    TokenType::Invalid
                },
                60 => if self.at(61) { // <
                    self.next_ch();
                    TokenType::Leq
                } else {
                    TokenType::Lss
                },
                62 => if self.at(61) { // >
                    self.next_ch();
                    TokenType::Geq
                } else {
                    TokenType::Gtr
                },
                38 => if self.at(38) { // &
                    self.next_ch();
                    TokenType::And
                } else {
                    TokenType::Invalid
                },
                124 => if self.at(124) { // |
                    self.next_ch();
                    TokenType::Or
                } else {
                    TokenType::Invalid
                },
                _ => TokenType::Invalid,
            };
        }
        token
    }

    /// Moves the cursor one byte on, unless it is at end of input.
    fn next_ch(&mut self)
        requires
            old(self).wf(),
        ensures
            final(self).wf(),
            final(self).source() == old(self).source(),
            final(self).cursor() == if old(self).cursor() < old(self).source().len() {
                old(self).cursor() + 1
            } else {
                old(self).cursor()
            },
    {
        if self.pos < self.input.len() {
            proof {
                lemma_position_bounds(self.input@, self.pos + 1);
            }
            self.pos = self.pos + 1;
            if self.pos < self.input.len() {
                self.col = self.col + 1;
                if self.input[self.pos] == NEWLINE {
                    self.line = self.line + 1;
                    self.col = 0;
                }
            }
        }
    }

    /// Reads the word under the cursor into `token.val`; returns its kind.
    fn read_name(&mut self, token: &mut Token) -> (r: TokenType)
        requires
            old(self).wf(),
            old(self).cursor() < old(self).source().len(),
            is_letter(old(self).source()[old(self).cursor()]),
        ensures
            final(self).wf(),
            final(self).source() == old(self).source(),
            final(self).cursor() == token_end(old(self).source(), old(self).cursor()),
            final(token).val@ == text_at(old(self).source(), old(self).cursor()),
            final(token).token_type == old(token).token_type,
            final(token).line == old(token).line,
            final(token).col == old(token).col,
            r == kind_at(old(self).source(), old(self).cursor()),
    {
        let ghost s = self.input@;
        let ghost start = self.pos as int;
        let mut value = String::new();
        push_char(&mut value, self.input[self.pos] as char);
        self.next_ch();
        assert(value@ =~= text_of(s.subrange(start, self.pos as int)));
        while self.pos < self.input.len() && (is_letter_byte(self.input[self.pos]) || is_digit_byte(
            self.input[self.pos],
        ))
            invariant
                self.wf(),
                self.input@ == s,
                0 <= start < self.pos,
                value@ == text_of(s.subrange(start, self.pos as int)),
                alnum_end(s, self.pos as int) == alnum_end(s, start + 1),
            decreases s.len() - self.pos,
        {
            push_char(&mut value, self.input[self.pos] as char);
            assert(s.subrange(start, self.pos + 1) =~= s.subrange(start, self.pos as int).push(
                s[self.pos as int],
            ));
            assert(value@ =~= text_of(s.subrange(start, self.pos + 1)));
            self.next_ch();
        }
        token.val = value;
        Self::look_up_ident(token.val.as_str())
    }

    /// The reserved word that `value` spells, or `Ident`.
    fn look_up_ident(value: &str) -> (r: TokenType)
        ensures
            r == keyword_kind(value@),
    {
        if same_text(value, "break") {
            TokenType::Break
        } else if same_text(value, "struct") {
            TokenType::Struct
        } else if same_text(value, "else") {
            TokenType::Else
        } else if same_text(value, "const") {
            TokenType::Const
        } else if same_text(value, "if") {
            TokenType::If
        } else if same_text(value, "new") {
            TokenType::New
        } else if same_text(value, "return") {
            TokenType::Return
        } else if same_text(value, "void") {
            TokenType::Void
        } else if same_text(value, "while") {
            TokenType::While
        } else {
            TokenType::Ident
        }
    }

    /// Reads the number under the cursor into `token.val`.
    fn read_number(&mut self, token: &mut Token) -> (r: TokenType)
        requires
            old(self).wf(),
            old(self).cursor() < old(self).source().len(),
            is_digit(old(self).source()[old(self).cursor()]),
        ensures
            final(self).wf(),
            final(self).source() == old(self).source(),
            final(self).cursor() == token_end(old(self).source(), old(self).cursor()),
            final(token).val@ == text_at(old(self).source(), old(self).cursor()),
            final(token).token_type == old(token).token_type,
            final(token).line == old(token).line,
            final(token).col == old(token).col,
            r == kind_at(old(self).source(), old(self).cursor()),
    {
        let ghost s = self.input@;
        let ghost start = self.pos as int;
        let mut value = String::new();
        push_char(&mut value, self.input[self.pos] as char);
        self.next_ch();
        assert(value@ =~= text_of(s.subrange(start, self.pos as int)));
        while self.pos < self.input.len() && is_digit_byte(self.input[self.pos])
            invariant
                self.wf(),
                self.input@ == s,
                0 <= start < self.pos,
                value@ == text_of(s.subrange(start, self.pos as int)),
                digit_end(s, self.pos as int) == digit_end(s, start + 1),
            decreases s.len() - self.pos,
        {
            push_char(&mut value, self.input[self.pos] as char);
            assert(s.subrange(start, self.pos + 1) =~= s.subrange(start, self.pos as int).push(
                s[self.pos as int],
            ));
            assert(value@ =~= text_of(s.subrange(start, self.pos + 1)));
            self.next_ch();
        }
        token.val = value;
        TokenType::Number
    }

    /// Whether the byte under the cursor is `c`.
    fn at(&self, c: u8) -> (r: bool)
        requires
            self.wf(),
        ensures
            r == (self.cursor() < self.source().len() && self.source()[self.cursor()] == c),
    {
        self.pos < self.input.len() && self.input[self.pos] == c
    }
}

} // verus!
