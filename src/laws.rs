//! Properties of the scanner, proved over the model of `crate::model`.
use vstd::prelude::*;
use crate::model::{
    alnum_end, digit_end, is_alnum, is_digit, is_letter, is_punct, joins, kind_at, kinds_from,
    opens_comment, pair_at, pair_kind, separable, single_kind, skip_to_token, spell_all, spelling,
    text_at, text_of, token_end, token_start, NEWLINE,
};
use crate::token::{keyword_kind, TokenType};

verus! {

/// A run of digits from `k` that stops at `e` ends at `e`.
proof fn lemma_digit_end(s: Seq<u8>, k: int, e: int)
    requires
        0 <= k <= e <= s.len(),
        forall|m: int| k <= m < e ==> is_digit(#[trigger] s[m]),
        e == s.len() || !is_digit(s[e]),
    ensures
        digit_end(s, k) == e,
    decreases e - k,
{
    if k < e {
        lemma_digit_end(s, k + 1, e);
    }
}

/// A run of letters and digits from `k` that stops at `e` ends at `e`.
proof fn lemma_alnum_end(s: Seq<u8>, k: int, e: int)
    requires
        0 <= k <= e <= s.len(),
        forall|m: int| k <= m < e ==> is_alnum(#[trigger] s[m]),
        e == s.len() || !is_alnum(s[e]),
    ensures
        alnum_end(s, k) == e,
    decreases e - k,
{
    if k < e {
        lemma_alnum_end(s, k + 1, e);
    }
}

/// A run of digits of any length, followed by anything but a digit, is one
/// `Number` token whose text is the whole run.
pub proof fn lemma_digit_run(d: Seq<u8>, rest: Seq<u8>)
    requires
        d.len() > 0,
        forall|m: int| 0 <= m < d.len() ==> is_digit(#[trigger] d[m]),
        rest.len() == 0 || !is_digit(rest[0]),
    ensures
        token_start(d + rest, 0) == 0,
        kind_at(d + rest, 0) == TokenType::Number,
        text_at(d + rest, 0) == text_of(d),
        token_end(d + rest, 0) == d.len(),
{
    let s = d + rest;
    assert forall|m: int| 1 <= m < d.len() implies is_digit(#[trigger] s[m]) by {
        assert(s[m] == d[m]);
    }
    assert(s[0] == d[0]);
    lemma_digit_end(s, 1, d.len() as int);
    assert(s.subrange(0, d.len() as int) =~= d);
}

/// A word (a letter, then letters and digits), followed by anything but a
/// letter or digit, is one token: its reserved word's kind if it spells one,
/// `Ident` otherwise; its text is the whole word.
pub proof fn lemma_word(w: Seq<u8>, rest: Seq<u8>)
    requires
        w.len() > 0,
        is_letter(w[0]),
        forall|m: int| 0 <= m < w.len() ==> is_alnum(#[trigger] w[m]),
        rest.len() == 0 || !is_alnum(rest[0]),
    ensures
        token_start(w + rest, 0) == 0,
        kind_at(w + rest, 0) == keyword_kind(text_of(w)),
        text_at(w + rest, 0) == text_of(w),
        token_end(w + rest, 0) == w.len(),
{
    let s = w + rest;
    assert forall|m: int| 1 <= m < w.len() implies is_alnum(#[trigger] s[m]) by {
        assert(s[m] == w[m]);
    }
    assert(s[0] == w[0]);
    lemma_alnum_end(s, 1, w.len() as int);
    assert(s.subrange(0, w.len() as int) =~= w);
}

/// Inside a comment, scanning from `m` goes on from the newline at `k`.
proof fn lemma_comment_body(s: Seq<u8>, m: int, k: int)
    requires
        0 <= m <= k <= s.len(),
        k == s.len() || s[k] == NEWLINE,
        forall|p: int| m <= p < k ==> #[trigger] s[p] != NEWLINE,
    ensures
        skip_to_token(s, m, true) == if k < s.len() {
            token_start(s, k + 1)
        } else {
            s.len() as int
        },
    decreases k - m,
{
    if m < k {
        lemma_comment_body(s, m + 1, k);
    }
}

/// A line comment yields no token: the token read from its start is the one
/// read from just after the newline that ends it, or `Eof` when the input
/// ends inside it.
pub proof fn lemma_comment_skipped(s: Seq<u8>, i: int, k: int)
    requires
        opens_comment(s, i),
        i + 2 <= k <= s.len(),
        k == s.len() || s[k] == NEWLINE,
        forall|p: int| i + 2 <= p < k ==> #[trigger] s[p] != NEWLINE,
    ensures
        token_start(s, i) == if k < s.len() {
            token_start(s, k + 1)
        } else {
            s.len() as int
        },
        k == s.len() ==> kind_at(s, token_start(s, i)) == TokenType::Eof,
{
    lemma_comment_body(s, i + 2, k);
}

/// Once a scan yields `Eof` the cursor is at the end of input, and every
/// scan from there yields `Eof` again and leaves the cursor where it is.
pub proof fn lemma_end_is_terminal(s: Seq<u8>, i: int)
    requires
        0 <= i <= s.len(),
        kind_at(s, token_start(s, i)) == TokenType::Eof,
    ensures
        token_end(s, token_start(s, i)) == s.len(),
        token_start(s, s.len() as int) == s.len(),
        kind_at(s, s.len() as int) == TokenType::Eof,
        token_end(s, s.len() as int) == s.len(),
        kinds_from(s, s.len() as int) == seq![TokenType::Eof],
{
    crate::model::lemma_skip_bounds(s, i, false);
    crate::model::lemma_token_bounds(s, token_start(s, i));
}

/// Each operator or punctuation kind is read back from its spelling.
proof fn lemma_spelling_read(k: TokenType)
    requires
        is_punct(k),
    ensures
        spelling(k).len() == 1 ==> single_kind(spelling(k)[0]) == k && spelling(k)[0] > 32
            && !is_alnum(spelling(k)[0]),
        spelling(k).len() == 2 ==> pair_kind(spelling(k)[0], spelling(k)[1]) == Some(k)
            && spelling(k)[0] > 32 && spelling(k)[0] != 47 && !is_alnum(spelling(k)[0]),
        spelling(k).len() == 1 || spelling(k).len() == 2,
{
}

/// Operators and punctuation written one after another, where no one-byte
/// spelling joins with the next, are read back kind by kind and then `Eof`.
pub proof fn lemma_punct_sequence(ks: Seq<TokenType>)
    requires
        forall|n: int| 0 <= n < ks.len() ==> is_punct(#[trigger] ks[n]),
        separable(ks),
    ensures
        kinds_from(spell_all(ks), 0) == ks.push(TokenType::Eof),
{
    let s = spell_all(ks);
    assert(s.subrange(0, s.len() as int) =~= s);
    lemma_punct_suffix(s, 0, ks);
}

proof fn lemma_punct_suffix(s: Seq<u8>, i: int, ks: Seq<TokenType>)
    requires
        0 <= i <= s.len(),
        s.subrange(i, s.len() as int) == spell_all(ks),
        forall|n: int| 0 <= n < ks.len() ==> is_punct(#[trigger] ks[n]),
        separable(ks),
    ensures
        kinds_from(s, i) == ks.push(TokenType::Eof),
    decreases ks.len(),
{
    if ks.len() == 0 {
        assert(s.subrange(i, s.len() as int).len() == 0);
        assert(token_start(s, i) == i);
        assert(kinds_from(s, i) == seq![TokenType::Eof]);
        assert(ks.push(TokenType::Eof) =~= seq![TokenType::Eof]);
    } else {
        let k = ks[0];
        let sp = spelling(k);
        let tail = ks.drop_first();
        lemma_spelling_read(k);
        assert(is_punct(ks[0]));
        let e = i + sp.len();
        assert(s.subrange(i, s.len() as int) == sp + spell_all(tail));
        assert(s[i] == sp[0]) by {
            assert(s.subrange(i, s.len() as int)[0] == s[i]);
        }
        assert(e <= s.len()) by {
            assert(s.subrange(i, s.len() as int).len() == sp.len() + spell_all(tail).len());
        }
        assert(s.subrange(e, s.len() as int) =~= spell_all(tail)) by {
            assert(s.subrange(e, s.len() as int) =~= s.subrange(i, s.len() as int).subrange(
                sp.len() as int,
                s.len() - i,
            ));
        }
        if sp.len() == 2 {
            assert(s[i + 1] == sp[1]) by {
                assert(s.subrange(i, s.len() as int)[1] == s[i + 1]);
            }
        }
        if sp.len() == 1 && e < s.len() {
            assert(tail.len() > 0);
            assert(is_punct(tail[0])) by {
                assert(tail[0] == ks[1]);
            }
            lemma_spelling_read(tail[0]);
            assert(spell_all(tail)[0] == spelling(tail[0])[0]);
            assert(s[e] == spell_all(tail)[0]) by {
                assert(s.subrange(e, s.len() as int)[0] == s[e]);
            }
            assert(!joins(spelling(ks[0])[0], spelling(ks[1])[0]));
        }
        assert(!opens_comment(s, i));
        assert(token_start(s, i) == i);
        assert(pair_at(s, i) == if sp.len() == 2 {
            Some(k)
        } else {
            None
        });
        assert(kind_at(s, i) == k);
        assert(token_end(s, i) == e);
        assert forall|n: int| 0 <= n < tail.len() implies is_punct(#[trigger] tail[n]) by {
            assert(tail[n] == ks[n + 1]);
        }
        assert(separable(tail)) by {
            assert forall|n: int|
                0 <= n < tail.len() - 1 && #[trigger] spelling(tail[n]).len() == 1 implies !joins(
                spelling(tail[n])[0],
                spelling(tail[n + 1])[0],
            ) by {
                assert(tail[n] == ks[n + 1] && tail[n + 1] == ks[n + 2]);
                assert(spelling(ks[n + 1]).len() == 1);
            }
        }
        lemma_punct_suffix(s, e, tail);
        assert(kinds_from(s, i) == seq![k] + kinds_from(s, e));
        assert(ks.push(TokenType::Eof) =~= seq![k] + tail.push(TokenType::Eof));
    }
}

} // verus!
