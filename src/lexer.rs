//! The lexer: from the bytes of a query to tokens with spans, and the
//! spans of its comments.
use vstd::prelude::*;

use crate::span::Span;
use crate::token::{QueryError, TokKind, Token, tokens_ok};

verus! {

pub open spec fn is_ident_start(c: u8) -> bool {
    (97u8 <= c <= 122u8) || (65u8 <= c <= 90u8) || c == 95u8
}

pub open spec fn is_digit(c: u8) -> bool {
    48u8 <= c <= 57u8
}

pub open spec fn is_ident_char(c: u8) -> bool {
    is_ident_start(c) || is_digit(c)
}

pub open spec fn is_space(c: u8) -> bool {
    c == 32u8 || c == 9u8 || c == 10u8 || c == 13u8
}

pub open spec fn is_quote(c: u8) -> bool {
    c == 34u8 || c == 39u8
}

/// The byte after `i`, or 0 past the end.
pub open spec fn byte_after(src: Seq<u8>, i: int) -> u8 {
    if i + 1 < src.len() {
        src[i + 1]
    } else {
        0
    }
}

/// The byte two after `i`, or 0 past the end.
pub open spec fn byte_after2(src: Seq<u8>, i: int) -> u8 {
    if i + 2 < src.len() {
        src[i + 2]
    } else {
        0
    }
}

/// The end of the run of identifier characters from `i`.
pub open spec fn ident_end(src: Seq<u8>, i: nat) -> nat
    decreases src.len() - i,
{
    if i < src.len() && is_ident_char(src[i as int]) {
        ident_end(src, i + 1)
    } else {
        i
    }
}

/// The end of the run of decimal digits from `i`.
pub open spec fn digits_end(src: Seq<u8>, i: nat) -> nat
    decreases src.len() - i,
{
    if i < src.len() && is_digit(src[i as int]) {
        digits_end(src, i + 1)
    } else {
        i
    }
}

/// The end of the number literal from `i`: an integer part, then a fraction
/// if a digit follows the point, then an exponent if a digit follows `e`
/// and its optional sign.
pub open spec fn number_end(src: Seq<u8>, i: nat) -> nat {
    let e = digits_end(src, i);
    let f = if e + 1 < src.len() && src[e as int] == 46u8 && is_digit(src[e + 1 as int]) {
        digits_end(src, e + 1)
    } else {
        e
    };
    if f < src.len() && (src[f as int] == 101u8 || src[f as int] == 69u8) {
        let d = if f + 1 < src.len() && (src[f + 1 as int] == 43u8 || src[f + 1 as int] == 45u8) {
            f + 2
        } else {
            f + 1
        };
        if d < src.len() && is_digit(src[d as int]) {
            digits_end(src, d)
        } else {
            f
        }
    } else {
        f
    }
}

/// Scanning the string literal opened at `i` from byte `k`: the end just
/// past its closing quote, or the span of the error. A string that the
/// text ends inside spans from its quote to the end; an unknown escape spans
/// its two bytes.
pub open spec fn string_end(src: Seq<u8>, i: nat, k: nat) -> Result<nat, Span>
    decreases src.len() - k,
{
    if k >= src.len() {
        Err(Span { start: i as usize, end: src.len() as usize })
    } else if src[k as int] == src[i as int] {
        Ok(k + 1)
    } else if src[k as int] == 92u8 {
        if k + 1 >= src.len() {
            Err(Span { start: i as usize, end: src.len() as usize })
        } else if !is_escape_char(src[k + 1 as int]) {
            Err(Span { start: k as usize, end: (k + 2) as usize })
        } else {
            string_end(src, i, k + 2)
        }
    } else {
        string_end(src, i, k + 1)
    }
}

/// The kind and end of the token that starts at byte `i`, which is neither
/// whitespace nor the start of a comment, or the span of a lexical error.
pub open spec fn token_at(src: Seq<u8>, i: nat) -> Result<(TokKind, nat), Span> {
    let c = src[i as int];
    if is_ident_start(c) {
        Ok((TokKind::Ident, ident_end(src, i + 1)))
    } else if c == 36u8 {
        let e = ident_end(src, i + 1);
        if e == i + 1 {
            Err(Span { start: i as usize, end: (i + 1) as usize })
        } else {
            Ok((TokKind::Param, e))
        }
    } else if is_digit(c) {
        Ok((TokKind::Num, number_end(src, i)))
    } else if is_quote(c) {
        match string_end(src, i, i + 1) {
            Ok(e) => Ok((TokKind::Str, e)),
            Err(s) => Err(s),
        }
    } else {
        match punct_spec(c, byte_after(src, i as int), byte_after2(src, i as int)) {
            Some((k, w)) => Ok((k, i + w)),
            None => Err(Span { start: i as usize, end: (i + 1) as usize }),
        }
    }
}

/// The end of a comment whose text continues at `j`: the next line break,
/// or the end of the text.
pub open spec fn comment_end(src: Seq<u8>, j: nat) -> nat
    decreases src.len() - j,
{
    if j < src.len() && src[j as int] != 10u8 {
        comment_end(src, j + 1)
    } else {
        j
    }
}

/// Lexing `src` from byte `i`, with `toks` and `cs` read so far: the tokens
/// (ending with the end marker) and comment spans, or the span of the first
/// lexical error.
pub open spec fn lex_from(src: Seq<u8>, i: nat, toks: Seq<Token>, cs: Seq<Span>) -> Result<(Seq<Token>, Seq<Span>), Span>
    decreases src.len() - i,
{
    if i >= src.len() {
        Ok((toks.push(Token { kind: TokKind::Eof, span: Span { start: src.len() as usize, end: src.len() as usize } }), cs))
    } else if is_space(src[i as int]) {
        lex_from(src, i + 1, toks, cs)
    } else if src[i as int] == 47u8 && i + 1 < src.len() && src[i + 1 as int] == 47u8 {
        let j = comment_end(src, i + 2);
        if i < j <= src.len() {
            lex_from(src, j, toks, cs.push(Span { start: i as usize, end: j as usize }))
        } else {
            Err(Span { start: i as usize, end: i as usize })
        }
    } else {
        match token_at(src, i) {
            Ok((k, e)) => if i < e <= src.len() {
                lex_from(src, e, toks.push(Token { kind: k, span: Span { start: i as usize, end: e as usize } }), cs)
            } else {
                Err(Span { start: i as usize, end: i as usize })
            },
            Err(s) => Err(s),
        }
    }
}

/// `s` is where lexing `src` fails.
pub open spec fn lex_error_at(src: Seq<u8>, s: Span) -> bool {
    lex_spec(src) == Err::<(Seq<Token>, Seq<Span>), Span>(s)
}

/// What lexing a whole text yields.
pub open spec fn lex_spec(src: Seq<u8>) -> Result<(Seq<Token>, Seq<Span>), Span> {
    lex_from(src, 0, Seq::empty(), Seq::empty())
}

fn ident_start(c: u8) -> (r: bool)
    ensures
        r == is_ident_start(c),
{
    (97u8 <= c && c <= 122u8) || (65u8 <= c && c <= 90u8) || c == 95u8
}

fn digit(c: u8) -> (r: bool)
    ensures
        r == is_digit(c),
{
    48u8 <= c && c <= 57u8
}

fn ident_char(c: u8) -> (r: bool)
    ensures
        r == is_ident_char(c),
{
    ident_start(c) || digit(c)
}

fn space(c: u8) -> (r: bool)
    ensures
        r == is_space(c),
{
    c == 32u8 || c == 9u8 || c == 10u8 || c == 13u8
}

/// The end of the run of identifier characters that starts at `i`.
fn scan_while_ident(src: &[u8], i: usize) -> (e: usize)
    requires
        i <= src@.len(),
    ensures
        i <= e <= src@.len(),
        e == ident_end(src@, i as nat),
        forall|k: int| i <= k < e ==> is_ident_char(#[trigger] src@[k]),
        e == src@.len() || !is_ident_char(src@[e as int]),
{
    let mut e = i;
    while e < src.len() && ident_char(src[e])
        invariant
            i <= e <= src@.len(),
            ident_end(src@, i as nat) == ident_end(src@, e as nat),
            forall|k: int| i <= k < e ==> is_ident_char(#[trigger] src@[k]),
        decreases src@.len() - e,
    {
        e = e + 1;
    }
    e
}

/// The end of the run of decimal digits that starts at `i`.
fn scan_digits(src: &[u8], i: usize) -> (e: usize)
    requires
        i <= src@.len(),
    ensures
        i <= e <= src@.len(),
        e == digits_end(src@, i as nat),
        forall|k: int| i <= k < e ==> is_digit(#[trigger] src@[k]),
        e == src@.len() || !is_digit(src@[e as int]),
{
    let mut e = i;
    while e < src.len() && digit(src[e])
        invariant
            i <= e <= src@.len(),
            digits_end(src@, i as nat) == digits_end(src@, e as nat),
            forall|k: int| i <= k < e ==> is_digit(#[trigger] src@[k]),
        decreases src@.len() - e,
    {
        e = e + 1;
    }
    e
}

/// The end of the number literal that starts with the digit at `i`: an
/// integer part, an optional fraction and an optional exponent.
fn scan_number(src: &[u8], i: usize) -> (e: usize)
    requires
        i < src@.len(),
        is_digit(src@[i as int]),
    ensures
        i < e <= src@.len(),
        e == number_end(src@, i as nat),
{
    let n = src.len();
    let mut e = scan_digits(src, i);
    if e < n && n - e > 1 && src[e] == 46u8 && digit(src[e + 1]) {
        e = scan_digits(src, e + 1);
    }
    if e < n && (src[e] == 101u8 || src[e] == 69u8) {
        let mut d = e + 1;
        if d < n && (src[d] == 43u8 || src[d] == 45u8) {
            d = d + 1;
        }
        if d < n && digit(src[d]) {
            e = scan_digits(src, d);
        }
    }
    e
}

pub open spec fn is_escape_char(c: u8) -> bool {
    c == 34u8 || c == 39u8 || c == 92u8 || c == 47u8 || c == 98u8 || c == 102u8 || c == 110u8
        || c == 114u8 || c == 116u8 || c == 117u8
}

/// The end of the string literal whose opening quote is at `i`, just past
/// the closing quote. An unterminated string or an unknown escape is a
/// lexical error.
fn scan_string(src: &[u8], i: usize) -> (r: Result<usize, QueryError>)
    requires
        i < src@.len(),
        is_quote(src@[i as int]),
    ensures
        match r {
            Ok(e) => i < e <= src@.len() && string_end(src@, i as nat, (i + 1) as nat) == Ok::<nat, Span>(e as nat),
            Err(err) => err is LexError && err.span_of().valid(src@.len()) && string_end(src@, i as nat, (i + 1) as nat) == Err::<nat, Span>(err.span_of()),
        },
{
    let n = src.len();
    let quote = src[i];
    let mut k = i + 1;
    while k < n
        invariant
            i < k <= n,
            n == src@.len(),
            is_quote(src@[i as int]),
            quote == src@[i as int],
            string_end(src@, i as nat, (i + 1) as nat) == string_end(src@, i as nat, k as nat),
        decreases n - k,
    {
        let c = src[k];
        proof {
            reveal_with_fuel(string_end, 2);
        }
        if c == quote {
            assert(string_end(src@, i as nat, k as nat) == Ok::<nat, Span>((k + 1) as nat));
            return Ok(k + 1);
        } else if c == 92u8 {
            if k + 1 >= n {
                return Err(QueryError::LexError { span: Span { start: i, end: n } });
            }
            let x = src[k + 1];
            if !(x == 34u8 || x == 39u8 || x == 92u8 || x == 47u8 || x == 98u8 || x == 102u8
                || x == 110u8 || x == 114u8 || x == 116u8 || x == 117u8) {
                return Err(QueryError::LexError { span: Span { start: k, end: k + 2 } });
            }
            k = k + 2;
        } else {
            k = k + 1;
        }
    }
    Err(QueryError::LexError { span: Span { start: i, end: n } })
}

/// The operator or punctuation token that starts with byte `c` followed by
/// `next` and `third`, and its length. Longer operators win over their
/// prefixes.
pub open spec fn punct_spec(c: u8, next: u8, third: u8) -> Option<(TokKind, nat)> {
    if c == 46u8 {
        if next == 46u8 && third == 46u8 {
            Some((TokKind::Ellipsis, 3))
        } else if next == 46u8 {
            Some((TokKind::DotDot, 2))
        } else {
            Some((TokKind::Dot, 1))
        }
    } else if c == 42u8 {
        if next == 42u8 { Some((TokKind::StarStar, 2)) } else { Some((TokKind::Star, 1)) }
    } else if c == 45u8 {
        if next == 62u8 { Some((TokKind::Arrow, 2)) } else { Some((TokKind::Minus, 1)) }
    } else if c == 61u8 {
        if next == 61u8 {
            Some((TokKind::EqEq, 2))
        } else if next == 62u8 {
            Some((TokKind::FatArrow, 2))
        } else {
            None
        }
    } else if c == 33u8 {
        if next == 61u8 { Some((TokKind::NotEq, 2)) } else { Some((TokKind::Bang, 1)) }
    } else if c == 60u8 {
        if next == 61u8 { Some((TokKind::Le, 2)) } else { Some((TokKind::Lt, 1)) }
    } else if c == 62u8 {
        if next == 61u8 { Some((TokKind::Ge, 2)) } else { Some((TokKind::Gt, 1)) }
    } else if c == 38u8 {
        if next == 38u8 { Some((TokKind::AndAnd, 2)) } else { None }
    } else if c == 124u8 {
        if next == 124u8 { Some((TokKind::OrOr, 2)) } else { Some((TokKind::Pipe, 1)) }
    } else if c == 64u8 {
        Some((TokKind::At, 1))
    } else if c == 94u8 {
        Some((TokKind::Caret, 1))
    } else if c == 91u8 {
        Some((TokKind::LBracket, 1))
    } else if c == 93u8 {
        Some((TokKind::RBracket, 1))
    } else if c == 123u8 {
        Some((TokKind::LBrace, 1))
    } else if c == 125u8 {
        Some((TokKind::RBrace, 1))
    } else if c == 40u8 {
        Some((TokKind::LParen, 1))
    } else if c == 41u8 {
        Some((TokKind::RParen, 1))
    } else if c == 44u8 {
        Some((TokKind::Comma, 1))
    } else if c == 58u8 {
        Some((TokKind::Colon, 1))
    } else if c == 43u8 {
        Some((TokKind::Plus, 1))
    } else if c == 47u8 {
        Some((TokKind::Slash, 1))
    } else if c == 37u8 {
        Some((TokKind::Percent, 1))
    } else {
        None
    }
}

/// The operator or punctuation token at `i`, and where it ends. Longer
/// operators win over their prefixes.
fn scan_punct(src: &[u8], i: usize) -> (r: Option<(TokKind, usize)>)
    requires
        i < src@.len(),
    ensures
        match r {
            Some((k, e)) => i < e <= src@.len() && k != TokKind::Eof && punct_spec(
                src@[i as int],
                byte_after(src@, i as int),
                byte_after2(src@, i as int),
            ) == Some((k, (e - i) as nat)),
            None => punct_spec(src@[i as int], byte_after(src@, i as int), byte_after2(src@, i as int))
                is None,
        },
{
    let n = src.len();
    let c = src[i];
    let next: u8 = if i + 1 < n { src[i + 1] } else { 0 };
    let third: u8 = if n - i > 2 { src[i + 2] } else { 0 };
    if c == 46u8 {
        if next == 46u8 && third == 46u8 {
            Some((TokKind::Ellipsis, i + 3))
        } else if next == 46u8 {
            Some((TokKind::DotDot, i + 2))
        } else {
            Some((TokKind::Dot, i + 1))
        }
    } else if c == 42u8 {
        if next == 42u8 { Some((TokKind::StarStar, i + 2)) } else { Some((TokKind::Star, i + 1)) }
    } else if c == 45u8 {
        if next == 62u8 { Some((TokKind::Arrow, i + 2)) } else { Some((TokKind::Minus, i + 1)) }
    } else if c == 61u8 {
        if next == 61u8 {
            Some((TokKind::EqEq, i + 2))
        } else if next == 62u8 {
            Some((TokKind::FatArrow, i + 2))
        } else {
            None
        }
    } else if c == 33u8 {
        if next == 61u8 { Some((TokKind::NotEq, i + 2)) } else { Some((TokKind::Bang, i + 1)) }
    } else if c == 60u8 {
        if next == 61u8 { Some((TokKind::Le, i + 2)) } else { Some((TokKind::Lt, i + 1)) }
    } else if c == 62u8 {
        if next == 61u8 { Some((TokKind::Ge, i + 2)) } else { Some((TokKind::Gt, i + 1)) }
    } else if c == 38u8 {
        if next == 38u8 { Some((TokKind::AndAnd, i + 2)) } else { None }
    } else if c == 124u8 {
        if next == 124u8 { Some((TokKind::OrOr, i + 2)) } else { Some((TokKind::Pipe, i + 1)) }
    } else if c == 64u8 {
        Some((TokKind::At, i + 1))
    } else if c == 94u8 {
        Some((TokKind::Caret, i + 1))
    } else if c == 91u8 {
        Some((TokKind::LBracket, i + 1))
    } else if c == 93u8 {
        Some((TokKind::RBracket, i + 1))
    } else if c == 123u8 {
        Some((TokKind::LBrace, i + 1))
    } else if c == 125u8 {
        Some((TokKind::RBrace, i + 1))
    } else if c == 40u8 {
        Some((TokKind::LParen, i + 1))
    } else if c == 41u8 {
        Some((TokKind::RParen, i + 1))
    } else if c == 44u8 {
        Some((TokKind::Comma, i + 1))
    } else if c == 58u8 {
        Some((TokKind::Colon, i + 1))
    } else if c == 43u8 {
        Some((TokKind::Plus, i + 1))
    } else if c == 47u8 {
        Some((TokKind::Slash, i + 1))
    } else if c == 37u8 {
        Some((TokKind::Percent, i + 1))
    } else {
        None
    }
}

/// `c` is a `//` comment of `src`: it runs to the line break or the end of
/// the text, without the line break.
pub open spec fn is_comment(src: Seq<u8>, c: Span) -> bool {
    &&& c.start + 2 <= c.end <= src.len()
    &&& src[c.start as int] == 47u8 && src[c.start + 1] == 47u8
    &&& forall|k: int| c.start <= k < c.end ==> #[trigger] src[k] != 10u8
    &&& (c.end == src.len() || src[c.end as int] == 10u8)
}

/// Comments read from `src`: each is a comment of the text, and they come in
/// source order without overlap.
pub open spec fn comments_ok(src: Seq<u8>, cs: Seq<Span>) -> bool {
    &&& forall|k: int| 0 <= k < cs.len() ==> #[trigger] is_comment(src, cs[k])
    &&& forall|a: int, b: int| 0 <= a < b < cs.len() ==> #[trigger] cs[a].end <= #[trigger] cs[b].start
}

pub open spec fn in_token(toks: Seq<Token>, k: int) -> bool {
    exists|t: int| 0 <= t < toks.len() && #[trigger] toks[t].span.start <= k < toks[t].span.end
}

pub open spec fn in_comment(cs: Seq<Span>, k: int) -> bool {
    exists|c: int| 0 <= c < cs.len() && #[trigger] cs[c].start <= k < cs[c].end
}

/// Byte `k` of `src` is whitespace, part of a token or part of a comment.
pub open spec fn covered(src: Seq<u8>, toks: Seq<Token>, cs: Seq<Span>, k: int) -> bool {
    is_space(src[k]) || in_token(toks, k) || in_comment(cs, k)
}

/// Every byte of `src` is whitespace or part of a comment.
pub open spec fn blank(src: Seq<u8>) -> bool {
    exists|cs: Seq<Span>|
        comments_ok(src, cs) && forall|k: int| 0 <= k < src.len() ==> is_space(#[trigger] src[k]) || in_comment(cs, k)
}

proof fn lemma_covered_grows(src: Seq<u8>, toks: Seq<Token>, cs: Seq<Span>, toks2: Seq<Token>, cs2: Seq<Span>, i: int)
    requires
        toks.len() <= toks2.len(),
        cs.len() <= cs2.len(),
        forall|t: int| 0 <= t < toks.len() ==> toks2[t] == toks[t],
        forall|c: int| 0 <= c < cs.len() ==> cs2[c] == cs[c],
        forall|k: int| 0 <= k < i ==> #[trigger] covered(src, toks, cs, k),
    ensures
        forall|k: int| 0 <= k < i ==> #[trigger] covered(src, toks2, cs2, k),
{
    assert forall|k: int| 0 <= k < i implies #[trigger] covered(src, toks2, cs2, k) by {
        assert(covered(src, toks, cs, k));
        if in_token(toks, k) {
            let t = choose|t: int| 0 <= t < toks.len() && #[trigger] toks[t].span.start <= k < toks[t].span.end;
            assert(toks2[t] == toks[t]);
            assert(in_token(toks2, k));
        } else if in_comment(cs, k) {
            let c = choose|c: int| 0 <= c < cs.len() && #[trigger] cs[c].start <= k < cs[c].end;
            assert(cs2[c] == cs[c]);
            assert(in_comment(cs2, k));
        }
    }
}

/// Splits a query into tokens, skipping whitespace and `//` comments, and
/// ends the sequence with the end marker. Stops at the first malformed token.
pub fn tokenize(src: &[u8]) -> (r: Result<Vec<Token>, QueryError>)
    ensures
        match r {
            Ok(toks) => tokens_ok(toks@, src@.len()) && lex_spec(src@) is Ok && lex_spec(src@)->Ok_0.0 == toks@,
            Err(e) => e is LexError && e.span_of().valid(src@.len()) && lex_error_at(src@, e.span_of()),
        },
{
    let (toks, _) = tokenize_with_comments(src)?;
    Ok(toks)
}

/// `tokenize`, which also hands back the span of each `//` comment, up to
/// but not including its line break.
pub fn tokenize_with_comments(src: &[u8]) -> (r: Result<(Vec<Token>, Vec<Span>), QueryError>)
    ensures
        match r {
            Ok((toks, cs)) => {
                &&& lex_spec(src@) == Ok::<(Seq<Token>, Seq<Span>), Span>((toks@, cs@))
                &&& tokens_ok(toks@, src@.len())
                &&& comments_ok(src@, cs@)
                &&& forall|k: int| 0 <= k < src@.len() ==> #[trigger] covered(src@, toks@, cs@, k)
            },
            Err(e) => e is LexError && e.span_of().valid(src@.len()) && lex_error_at(src@, e.span_of()),
        },
{
    let n = src.len();
    let mut toks: Vec<Token> = Vec::new();
    let mut comments: Vec<Span> = Vec::new();
    let mut i: usize = 0;
    while i < n
        invariant
            i <= n,
            n == src@.len(),
            forall|k: int| 0 <= k < toks.len() ==> #[trigger] toks@[k].span.valid(n as nat),
            forall|k: int| 0 <= k < toks.len() ==> #[trigger] toks@[k].kind != TokKind::Eof,
            forall|k: int| 0 <= k < toks.len() ==> #[trigger] toks@[k].span.start < toks@[k].span.end,
            forall|k: int| 0 <= k < toks.len() ==> #[trigger] toks@[k].span.end <= i,
            forall|a: int, b: int| 0 <= a < b < toks.len() ==> #[trigger] toks@[a].span.end <= #[trigger] toks@[b].span.start,
            comments_ok(src@, comments@),
            forall|k: int| 0 <= k < comments.len() ==> #[trigger] comments@[k].end <= i,
            forall|k: int| 0 <= k < i ==> #[trigger] covered(src@, toks@, comments@, k),
            lex_spec(src@) == lex_from(src@, i as nat, toks@, comments@),
        decreases n - i,
    {
        let c = src[i];
        if space(c) {
            assert forall|k: int| 0 <= k < i + 1 implies #[trigger] covered(src@, toks@, comments@, k) by {
                if k < i {
                    assert(covered(src@, toks@, comments@, k));
                }
            }
            i = i + 1;
            continue;
        }
        if c == 47u8 && i + 1 < n && src[i + 1] == 47u8 {
            let mut j = i + 2;
            while j < n && src[j] != 10u8
                invariant
                    i < j <= n,
                    n == src@.len(),
                    i + 2 <= j,
                    forall|k: int| i <= k < j ==> #[trigger] src@[k] != 10u8,
                    comment_end(src@, (i + 2) as nat) == comment_end(src@, j as nat),
                decreases n - j,
            {
                j = j + 1;
            }
            let ghost cs0 = comments@;
            comments.push(Span { start: i, end: j });
            proof {
                lemma_covered_grows(src@, toks@, cs0, toks@, comments@, i as int);
                assert forall|k: int| 0 <= k < j implies #[trigger] covered(src@, toks@, comments@, k) by {
                    if k >= i {
                        assert(comments@[comments@.len() - 1].start <= k < comments@[comments@.len() - 1].end);
                    }
                }
                assert(is_comment(src@, comments@[comments@.len() - 1]));
            }
            i = j;
            continue;
        }
        let kind: TokKind;
        let end: usize;
        if ident_start(c) {
            kind = TokKind::Ident;
            end = scan_while_ident(src, i + 1);
        } else if c == 36u8 {
            let e = scan_while_ident(src, i + 1);
            if e == i + 1 {
                return Err(QueryError::LexError { span: Span { start: i, end: i + 1 } });
            }
            kind = TokKind::Param;
            end = e;
        } else if digit(c) {
            kind = TokKind::Num;
            end = scan_number(src, i);
        } else if c == 34u8 || c == 39u8 {
            match scan_string(src, i) {
                Ok(e) => {
                    kind = TokKind::Str;
                    end = e;
                },
                Err(err) => {
                    return Err(err);
                },
            }
        } else {
            match scan_punct(src, i) {
                Some((k, e)) => {
                    kind = k;
                    end = e;
                },
                None => {
                    return Err(QueryError::LexError { span: Span { start: i, end: i + 1 } });
                },
            }
        }
        let ghost toks0 = toks@;
        toks.push(Token { kind, span: Span { start: i, end } });
        proof {
            lemma_covered_grows(src@, toks0, comments@, toks@, comments@, i as int);
            assert forall|k: int| 0 <= k < end implies #[trigger] covered(src@, toks@, comments@, k) by {
                if k >= i {
                    assert(toks@[toks@.len() - 1].span.start <= k < toks@[toks@.len() - 1].span.end);
                }
            }
        }
        i = end;
    }
    let ghost toks0 = toks@;
    toks.push(Token { kind: TokKind::Eof, span: Span { start: n, end: n } });
    proof {
        lemma_covered_grows(src@, toks0, comments@, toks@, comments@, n as int);
    }
    Ok((toks, comments))
}

} // verus!
