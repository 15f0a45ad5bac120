//! What the lexer computes, stated over the input's bytes.
//!
//! A cursor is an index into the input; the byte under it counts as read.
//! From a cursor `i` the next token starts at `token_start(s, i)`, has kind
//! `kind_at`, text `text_at` and ends (exclusive) at `token_end`; the lexer's
//! cursor moves to that end.
use vstd::prelude::*;
use crate::token::{keyword_kind, TokenType};

verus! {

/// The newline byte, which ends a line and a line comment.
pub const NEWLINE: u8 = 10;

/// Bytes up to and including the space are skipped between tokens.
pub open spec fn is_blank(c: u8) -> bool {
    c <= 32
}

/// ASCII `a`-`z` or `A`-`Z`.
pub open spec fn is_letter(c: u8) -> bool {
    (97 <= c && c <= 122) || (65 <= c && c <= 90)
}

/// ASCII `0`-`9`.
pub open spec fn is_digit(c: u8) -> bool {
    48 <= c && c <= 57
}

pub open spec fn is_alnum(c: u8) -> bool {
    is_letter(c) || is_digit(c)
}

/// The line reached once the first `n` bytes are read: one more than the
/// number of newlines among them.
pub open spec fn line_at(s: Seq<u8>, n: int) -> nat
    decreases n,
{
    if n <= 0 {
        1
    } else if s[n - 1] == NEWLINE {
        line_at(s, n - 1) + 1
    } else {
        line_at(s, n - 1)
    }
}

/// The column reached once the first `n` bytes are read: each byte adds one,
/// a newline resets it to zero.
pub open spec fn col_at(s: Seq<u8>, n: int) -> nat
    decreases n,
{
    if n <= 0 {
        0
    } else if s[n - 1] == NEWLINE {
        0
    } else {
        col_at(s, n - 1) + 1
    }
}

/// How many bytes have been read while the cursor rests on `i`.
pub open spec fn read_count(s: Seq<u8>, i: int) -> int {
    if i < s.len() {
        i + 1
    } else {
        s.len() as int
    }
}

/// Whether a line comment (`//`) opens at `i`.
pub open spec fn opens_comment(s: Seq<u8>, i: int) -> bool {
    0 <= i && i + 1 < s.len() && s[i] == 47 && s[i + 1] == 47
}

/// Where the next token begins when scanning from `i`, skipping blanks and
/// line comments; `in_comment` holds while inside a comment.
pub open spec fn skip_to_token(s: Seq<u8>, i: int, in_comment: bool) -> int
    decreases s.len() - i,
{
    if i < 0 || i >= s.len() {
        i
    } else if in_comment {
        skip_to_token(s, i + 1, s[i] != NEWLINE)
    } else if is_blank(s[i]) {
        skip_to_token(s, i + 1, false)
    } else if opens_comment(s, i) {
        skip_to_token(s, i + 2, true)
    } else {
        i
    }
}

/// Where the token read from cursor `i` begins (`s.len()` at end of input).
pub open spec fn token_start(s: Seq<u8>, i: int) -> int {
    skip_to_token(s, i, false)
}

/// The end of the run of letters and digits that starts at `i`.
pub open spec fn alnum_end(s: Seq<u8>, i: int) -> int
    decreases s.len() - i,
{
    if 0 <= i < s.len() && is_alnum(s[i]) {
        alnum_end(s, i + 1)
    } else {
        i
    }
}

/// The end of the run of digits that starts at `i`.
pub open spec fn digit_end(s: Seq<u8>, i: int) -> int
    decreases s.len() - i,
{
    if 0 <= i < s.len() && is_digit(s[i]) {
        digit_end(s, i + 1)
    } else {
        i
    }
}

/// The two-byte operator spelled `c d`, if any.
pub open spec fn pair_kind(c: u8, d: u8) -> Option<TokenType> {
    if c == 43 && d == 43 { // ++
        Some(TokenType::Pplus)
    } else if c == 45 && d == 45 { // --
        Some(TokenType::Mminus)
    } else if c == 61 && d == 61 { // ==
        Some(TokenType::Eql)
    } else if c == 33 && d == 61 { // !=
        Some(TokenType::Neq)
    } else if c == 60 && d == 61 { // <=
        Some(TokenType::Leq)
    } else if c == 62 && d == 61 { // >=
        Some(TokenType::Geq)
    } else if c == 38 && d == 38 { // &&
        Some(TokenType::And)
    } else if c == 124 && d == 124 { // ||
        Some(TokenType::Or)
    } else {
        None
    }
}

/// The kind of the one-byte token `c`; `Invalid` where `c` alone is no token.
pub open spec fn single_kind(c: u8) -> TokenType {
    if c == 42 { // *
        TokenType::Times
    } else if c == 37 { // %
        TokenType::Rem
    } else if c == 44 { // ,
        TokenType::Comma
    } else if c == 59 { // ;
        TokenType::Semicolon
    } else if c == 46 { // .
        TokenType::Period
    } else if c == 40 { // (
        TokenType::Lpar
    } else if c == 41 { // )
        TokenType::Rpar
    } else if c == 91 { // [
        TokenType::Lbrack
    } else if c == 93 { // ]
        TokenType::Rbrack
    } else if c == 123 { // {
        TokenType::Lbrace
    } else if c == 125 { // }
        TokenType::Rbrace
    } else if c == 43 { // +
        TokenType::Plus
    } else if c == 45 { // -
        TokenType::Minus
    } else if c == 61 { // =
        TokenType::Assign
    } else if c == 60 { // <
        TokenType::Lss
    } else if c == 62 { // >
        TokenType::Gtr
    } else if c == 47 { // /
        TokenType::Slash
    } else {
        TokenType::Invalid
    }
}

/// The two-byte operator that starts at `j`, if any.
pub open spec fn pair_at(s: Seq<u8>, j: int) -> Option<TokenType> {
    if 0 <= j && j + 1 < s.len() {
        pair_kind(s[j], s[j + 1])
    } else {
        None
    }
}

/// The bytes as characters, one for one.
pub open spec fn text_of(b: Seq<u8>) -> Seq<char> {
    b.map_values(|c: u8| c as char)
}

/// Where the token that begins at `j` ends (exclusive).
pub open spec fn token_end(s: Seq<u8>, j: int) -> int {
    if j >= s.len() {
        s.len() as int
    } else if is_letter(s[j]) {
        alnum_end(s, j + 1)
    } else if is_digit(s[j]) {
        digit_end(s, j + 1)
    } else if pair_at(s, j) is Some {
        j + 2
    } else {
        j + 1
    }
}

/// The text carried by the token that begins at `j`: its spelling for a word
/// or a number, empty otherwise.
pub open spec fn text_at(s: Seq<u8>, j: int) -> Seq<char> {
    if 0 <= j < s.len() && is_alnum(s[j]) {
        text_of(s.subrange(j, token_end(s, j)))
    } else {
        Seq::empty()
    }
}

/// The kind of the token that begins at `j`.
pub open spec fn kind_at(s: Seq<u8>, j: int) -> TokenType {
    if j >= s.len() {
        TokenType::Eof
    } else if is_letter(s[j]) {
        keyword_kind(text_at(s, j))
    } else if is_digit(s[j]) {
        TokenType::Number
    } else if pair_at(s, j) is Some {
        pair_at(s, j)->0
    } else {
        single_kind(s[j])
    }
}

/// Skipping never moves back and never passes the end of input.
pub proof fn lemma_skip_bounds(s: Seq<u8>, i: int, in_comment: bool)
    requires
        0 <= i <= s.len(),
    ensures
        i <= skip_to_token(s, i, in_comment) <= s.len(),
    decreases s.len() - i,
{
    if i < s.len() {
        if in_comment {
            lemma_skip_bounds(s, i + 1, s[i] != NEWLINE);
        } else if is_blank(s[i]) {
            lemma_skip_bounds(s, i + 1, false);
        } else if opens_comment(s, i) {
            lemma_skip_bounds(s, i + 2, true);
        }
    }
}

/// A run ends between its start and the end of input.
pub proof fn lemma_run_bounds(s: Seq<u8>, i: int)
    requires
        0 <= i <= s.len(),
    ensures
        i <= alnum_end(s, i) <= s.len(),
        i <= digit_end(s, i) <= s.len(),
    decreases s.len() - i,
{
    if i < s.len() {
        lemma_run_bounds(s, i + 1);
    }
}

/// A token that begins before the end of input takes at least one byte;
/// at the end of input the token is `Eof` and takes none.
pub proof fn lemma_token_bounds(s: Seq<u8>, j: int)
    requires
        0 <= j <= s.len(),
    ensures
        j < s.len() ==> j < token_end(s, j) <= s.len() && kind_at(s, j) != TokenType::Eof,
        j == s.len() ==> token_end(s, j) == j && kind_at(s, j) == TokenType::Eof,
{
    if j < s.len() {
        lemma_run_bounds(s, j + 1);
    }
}

/// The kinds that successive scans yield from cursor `i`, ending with the
/// first `Eof`.
pub open spec fn kinds_from(s: Seq<u8>, i: int) -> Seq<TokenType>
    decreases s.len() - i,
    when 0 <= i <= s.len()
    via kinds_from_decreases
{
    let j = token_start(s, i);
    if j >= s.len() {
        seq![TokenType::Eof]
    } else {
        seq![kind_at(s, j)] + kinds_from(s, token_end(s, j))
    }
}

#[via_fn]
proof fn kinds_from_decreases(s: Seq<u8>, i: int) {
    lemma_skip_bounds(s, i, false);
    lemma_token_bounds(s, token_start(s, i));
}

/// How an operator or punctuation kind is spelled; empty for other kinds.
pub open spec fn spelling(k: TokenType) -> Seq<u8> {
    match k {
        TokenType::Plus => seq![43u8],
        TokenType::Minus => seq![45u8],
        TokenType::Times => seq![42u8],
        TokenType::Slash => seq![47u8],
        TokenType::Rem => seq![37u8],
        TokenType::Eql => seq![61u8, 61u8],
        TokenType::Neq => seq![33u8, 61u8],
        TokenType::Lss => seq![60u8],
        TokenType::Leq => seq![60u8, 61u8],
        TokenType::Gtr => seq![62u8],
        TokenType::Geq => seq![62u8, 61u8],
        TokenType::And => seq![38u8, 38u8],
        TokenType::Or => seq![124u8, 124u8],
        TokenType::Assign => seq![61u8],
        TokenType::Pplus => seq![43u8, 43u8],
        TokenType::Mminus => seq![45u8, 45u8],
        TokenType::Semicolon => seq![59u8],
        TokenType::Comma => seq![44u8],
        TokenType::Period => seq![46u8],
        TokenType::Lpar => seq![40u8],
        TokenType::Rpar => seq![41u8],
        TokenType::Lbrack => seq![91u8],
        TokenType::Rbrack => seq![93u8],
        TokenType::Lbrace => seq![123u8],
        TokenType::Rbrace => seq![125u8],
        _ => Seq::empty(),
    }
}

/// Whether `k` is an operator or punctuation kind.
pub open spec fn is_punct(k: TokenType) -> bool {
    spelling(k).len() > 0
}

/// The spellings of `ks`, one after another.
pub open spec fn spell_all(ks: Seq<TokenType>) -> Seq<u8>
    decreases ks.len(),
{
    if ks.len() == 0 {
        Seq::empty()
    } else {
        spelling(ks[0]) + spell_all(ks.drop_first())
    }
}

/// Whether the byte `c` followed by `d` reads as one unit: a two-byte
/// operator or the opening of a comment.
pub open spec fn joins(c: u8, d: u8) -> bool {
    pair_kind(c, d) is Some || (c == 47 && d == 47)  // `//`
}

/// Whether no one-byte spelling in `ks` joins with the first byte of the
/// spelling after it.
pub open spec fn separable(ks: Seq<TokenType>) -> bool {
    forall|n: int|
        0 <= n < ks.len() - 1 && #[trigger] spelling(ks[n]).len() == 1 ==> !joins(
            spelling(ks[n])[0],
            spelling(ks[n + 1])[0],
        )
}

} // verus!
