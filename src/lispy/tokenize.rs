//! The lexer: bytes to tokens.
use vstd::prelude::*;
use vstd::slice::{slice_subrange, slice_to_vec};
use crate::error::{Error, ErrorV};
use crate::lispy::tokens::{Token, TokV, toks_view};
use crate::ty::TyLit;

verus! {

/// Source text split into tokens.
pub struct Lex {
    pub orig: String,
    pub tokens: Vec<Token>,
}

pub open spec fn is_space(b: u8) -> bool {
    b == 32 || b == 9 || b == 10 || b == 13
}

pub open spec fn is_alpha(b: u8) -> bool {
    (65 <= b <= 90) || (97 <= b <= 122)
}

pub open spec fn is_digit(b: u8) -> bool {
    48 <= b <= 57
}

pub open spec fn is_alnum(b: u8) -> bool {
    is_alpha(b) || is_digit(b)
}

/// The characters of ASCII bytes.
pub open spec fn ascii_chars(b: Seq<u8>) -> Seq<char> {
    b.map_values(|x: u8| x as char)
}

/// Whether `tag` stands in `s` at position `p`.
pub open spec fn has_tag(s: Seq<u8>, p: int, tag: Seq<u8>) -> bool {
    0 <= p && p + tag.len() <= s.len() && s.subrange(p, p + tag.len()) == tag
}

/// The number of letters and digits that follow one another from `p`.
pub open spec fn alnum_run(s: Seq<u8>, p: int) -> nat
    decreases s.len() - p,
{
    if 0 <= p < s.len() && is_alnum(s[p]) {
        1 + alnum_run(s, p + 1)
    } else {
        0
    }
}

/// The number of decimal digits that follow one another from `p`.
pub open spec fn digit_run(s: Seq<u8>, p: int) -> nat
    decreases s.len() - p,
{
    if 0 <= p < s.len() && is_digit(s[p]) {
        1 + digit_run(s, p + 1)
    } else {
        0
    }
}

/// The value of a sequence of decimal digits.
pub open spec fn digits_value(d: Seq<u8>) -> int
    decreases d.len(),
{
    if d.len() == 0 {
        0
    } else {
        digits_value(d.drop_last()) * 10 + (d.last() - 48)
    }
}

/// An identifier at `p`: a letter, then letters and digits, as many as follow.
pub open spec fn ident_token(s: Seq<u8>, p: int) -> Option<(TokV, nat)> {
    if 0 <= p < s.len() && is_alpha(s[p]) {
        let n = alnum_run(s, p);
        Some((TokV::Id(ascii_chars(s.subrange(p, p + n))), n))
    } else {
        None
    }
}

/// The length of an optional sign at `p`.
pub open spec fn sign_len(s: Seq<u8>, p: int) -> nat {
    if 0 <= p < s.len() && (s[p] == 43 || s[p] == 45) {
        1
    } else {
        0
    }
}

/// An integer literal at `p`: an optional sign and all the digits that
/// follow, whose value fits in an `i64`.
pub open spec fn int_token(s: Seq<u8>, p: int) -> Option<(TokV, nat)> {
    let k = sign_len(s, p);
    let n = digit_run(s, p + k);
    let v = digits_value(s.subrange(p + k, p + k + n));
    let signed = if k == 1 && s[p] == 45 { -v } else { v };
    if n > 0 && i64::MIN <= signed <= i64::MAX {
        Some((TokV::Int(signed as i64), k + n))
    } else {
        None
    }
}

/// The token at `p` and its length: the first rule that matches, in the
/// order `#F`, `#T`, `!`, `if`, identifier, `,`, `/lam`, `:`, `#B`, `->`,
/// `.`, `(`, `)`, `_|_`, integer, `#Int`.
pub open spec fn token_at(s: Seq<u8>, p: int) -> Option<(TokV, nat)> {
    if has_tag(s, p, seq![35u8, 70u8]) {
        Some((TokV::False, 2))
    } else if has_tag(s, p, seq![35u8, 84u8]) {
        Some((TokV::True, 2))
    } else if has_tag(s, p, seq![33u8]) {
        Some((TokV::Not, 1))
    } else if has_tag(s, p, seq![105u8, 102u8]) {
        Some((TokV::If, 2))
    } else if ident_token(s, p) is Some {
        ident_token(s, p)
    } else if has_tag(s, p, seq![44u8]) {
        Some((TokV::Comma, 1))
    } else if has_tag(s, p, seq![47u8, 108u8, 97u8, 109u8]) {
        Some((TokV::Lambda, 4))
    } else if has_tag(s, p, seq![58u8]) {
        Some((TokV::Colon, 1))
    } else if has_tag(s, p, seq![35u8, 66u8]) {
        Some((TokV::TypeLit(TyLit::Bool), 2))
    } else if has_tag(s, p, seq![45u8, 62u8]) {
        Some((TokV::Arrow, 2))
    } else if has_tag(s, p, seq![46u8]) {
        Some((TokV::Dot, 1))
    } else if has_tag(s, p, seq![40u8]) {
        Some((TokV::LParen, 1))
    } else if has_tag(s, p, seq![41u8]) {
        Some((TokV::RParen, 1))
    } else if has_tag(s, p, seq![95u8, 124u8, 95u8]) {
        Some((TokV::Bottom, 3))
    } else if int_token(s, p) is Some {
        int_token(s, p)
    } else if has_tag(s, p, seq![35u8, 73u8, 110u8, 116u8]) {
        Some((TokV::TypeLit(TyLit::Int), 4))
    } else {
        None
    }
}

/// Lexing from `p`: skip white space, take the token there, go on after it;
/// stop at the end or where no rule matches. Gives the tokens and the
/// position where it stopped.
pub open spec fn lex_from(s: Seq<u8>, p: int) -> (Seq<TokV>, int)
    decreases s.len() - p,
{
    if p < 0 || p >= s.len() {
        (Seq::empty(), p)
    } else if is_space(s[p]) {
        lex_from(s, p + 1)
    } else {
        match token_at(s, p) {
            None => (Seq::empty(), p),
            Some((t, n)) => {
                if 0 < n && p + n <= s.len() {
                    let rest = lex_from(s, p + n);
                    (seq![t] + rest.0, rest.1)
                } else {
                    (Seq::empty(), p)
                }
            },
        }
    }
}

/// The tokens of `s`, where the whole input lexes.
pub open spec fn lex(s: Seq<u8>) -> Option<Seq<TokV>> {
    if lex_from(s, 0).1 == s.len() {
        Some(lex_from(s, 0).0)
    } else {
        None
    }
}

/// Whether an executable scan result matches a specified one.
pub open spec fn scanned(r: Option<(usize, Token)>, m: Option<(TokV, nat)>) -> bool {
    match (r, m) {
        (None, None) => true,
        (Some((n, t)), Some((tv, k))) => t@ == tv && n as nat == k,
        _ => false,
    }
}

/// Relies on std::str::from_utf8: bytes below 128 are valid UTF-8, each the
/// one character of its own code.
#[verifier::external_body]
fn ascii_string(b: &[u8]) -> (r: String)
    requires
        forall|i: int| 0 <= i < b@.len() ==> b@[i] < 128,
    ensures
        r@ == ascii_chars(b@),
{
    String::from(std::str::from_utf8(b).unwrap())
}

fn tag1(data: &[u8], p: usize, a: u8) -> (r: bool)
    requires
        p <= data@.len(),
    ensures
        r == has_tag(data@, p as int, seq![a]),
{
    let r = p < data.len() && data[p] == a;
    assert(r ==> data@.subrange(p as int, p + 1) =~= seq![a]);
    assert(p + 1 <= data@.len() ==> data@.subrange(p as int, p + 1)[0] == data@[p as int]);
    r
}

fn tag2(data: &[u8], p: usize, a: u8, b: u8) -> (r: bool)
    requires
        p <= data@.len(),
    ensures
        r == has_tag(data@, p as int, seq![a, b]),
{
    let r = data.len() - p >= 2 && data[p] == a && data[p + 1] == b;
    proof {
        if p + 2 <= data@.len() {
            let t = data@.subrange(p as int, p + 2);
            assert(t[0] == data@[p as int] && t[1] == data@[p + 1]);
            assert(r ==> t =~= seq![a, b]);
        }
    }
    r
}

fn tag3(data: &[u8], p: usize, a: u8, b: u8, c: u8) -> (r: bool)
    requires
        p <= data@.len(),
    ensures
        r == has_tag(data@, p as int, seq![a, b, c]),
{
    let r = data.len() - p >= 3 && data[p] == a && data[p + 1] == b && data[p + 2] == c;
    proof {
        if p + 3 <= data@.len() {
            let t = data@.subrange(p as int, p + 3);
            assert(t[0] == data@[p as int] && t[1] == data@[p + 1] && t[2] == data@[p + 2]);
            assert(r ==> t =~= seq![a, b, c]);
        }
    }
    r
}

fn tag4(data: &[u8], p: usize, a: u8, b: u8, c: u8, d: u8) -> (r: bool)
    requires
        p <= data@.len(),
    ensures
        r == has_tag(data@, p as int, seq![a, b, c, d]),
{
    let r = data.len() - p >= 4 && data[p] == a && data[p + 1] == b && data[p + 2] == c
        && data[p + 3] == d;
    proof {
        if p + 4 <= data@.len() {
            let t = data@.subrange(p as int, p + 4);
            assert(t[0] == data@[p as int] && t[1] == data@[p + 1] && t[2] == data@[p + 2]
                && t[3] == data@[p + 3]);
            assert(r ==> t =~= seq![a, b, c, d]);
        }
    }
    r
}

fn alnum_end(data: &[u8], p: usize) -> (q: usize)
    requires
        p <= data@.len(),
    ensures
        q == p + alnum_run(data@, p as int),
        q <= data@.len(),
{
    let mut q = p;
    while q < data.len() && (is_alpha_byte(data[q]) || is_digit_byte(data[q]))
        invariant
            p <= q <= data@.len(),
            alnum_run(data@, p as int) == (q - p) + alnum_run(data@, q as int),
        decreases data@.len() - q,
    {
        q += 1;
    }
    q
}

fn digit_end(data: &[u8], p: usize) -> (q: usize)
    requires
        p <= data@.len(),
    ensures
        q == p + digit_run(data@, p as int),
        q <= data@.len(),
{
    let mut q = p;
    while q < data.len() && is_digit_byte(data[q])
        invariant
            p <= q <= data@.len(),
            digit_run(data@, p as int) == (q - p) + digit_run(data@, q as int),
        decreases data@.len() - q,
    {
        q += 1;
    }
    q
}

fn is_alpha_byte(b: u8) -> (r: bool)
    ensures
        r == is_alpha(b),
{
    (65 <= b && b <= 90) || (97 <= b && b <= 122)
}

fn is_digit_byte(b: u8) -> (r: bool)
    ensures
        r == is_digit(b),
{
    48 <= b && b <= 57
}

proof fn lemma_alnum_run(s: Seq<u8>, p: int)
    ensures
        alnum_run(s, p) > 0 ==> 0 <= p && p + alnum_run(s, p) <= s.len(),
        forall|i: int| p <= i < p + alnum_run(s, p) ==> is_alnum(#[trigger] s[i]),
    decreases s.len() - p,
{
    if 0 <= p < s.len() && is_alnum(s[p]) {
        lemma_alnum_run(s, p + 1);
        assert(alnum_run(s, p) == 1 + alnum_run(s, p + 1));
        assert forall|i: int| p <= i < p + alnum_run(s, p) implies is_alnum(#[trigger] s[i]) by {
            if i > p {
                assert(p + 1 <= i < p + 1 + alnum_run(s, p + 1));
            }
        }
    }
}

proof fn lemma_digit_run(s: Seq<u8>, p: int)
    ensures
        digit_run(s, p) > 0 ==> 0 <= p && p + digit_run(s, p) <= s.len(),
        forall|i: int| p <= i < p + digit_run(s, p) ==> is_digit(#[trigger] s[i]),
    decreases s.len() - p,
{
    if 0 <= p < s.len() && is_digit(s[p]) {
        lemma_digit_run(s, p + 1);
        assert(digit_run(s, p) == 1 + digit_run(s, p + 1));
        assert forall|i: int| p <= i < p + digit_run(s, p) implies is_digit(#[trigger] s[i]) by {
            if i > p {
                assert(p + 1 <= i < p + 1 + digit_run(s, p + 1));
            }
        }
    }
}

proof fn lemma_digits_value_grows(d: Seq<u8>, k: int)
    requires
        0 <= k <= d.len(),
        forall|i: int| 0 <= i < d.len() ==> #[trigger] is_digit(d[i]),
    ensures
        0 <= digits_value(d.take(k)) <= digits_value(d),
    decreases d.len(),
{
    if d.len() == 0 {
        assert(d.take(k) =~= d);
    } else {
        let e = d.drop_last();
        assert forall|i: int| 0 <= i < e.len() implies #[trigger] is_digit(e[i]) by {
            assert(e[i] == d[i]);
        }
        lemma_digits_value_grows(e, e.len() as int);
        assert(e.take(e.len() as int) =~= e);
        if k == d.len() {
            assert(d.take(k) =~= d);
        } else {
            lemma_digits_value_grows(e, k);
            assert(e.take(k) =~= d.take(k));
        }
        assert(is_digit(d[d.len() - 1]));
    }
}

/// The integer literal at `p`, if one stands there.
fn int_at(data: &[u8], p: usize) -> (r: Option<(usize, Token)>)
    requires
        p <= data@.len(),
    ensures
        scanned(r, int_token(data@, p as int)),
        r matches Some((n, _)) ==> n >= 1 && p + n <= data@.len(),
{
    let ghost s = data@;
    let mut k: usize = 0;
    let mut neg = false;
    if p < data.len() && (data[p] == 43 || data[p] == 45) {
        k = 1;
        neg = data[p] == 45;
    }
    let start = p + k;
    let end = digit_end(data, start);
    if end == start {
        return None;
    }
    let limit: u64 = if neg { 0x8000_0000_0000_0000 } else { 0x7fff_ffff_ffff_ffff };
    let ghost d = s.subrange(start as int, end as int);
    proof {
        lemma_digit_run(s, start as int);
        assert forall|i: int| 0 <= i < d.len() implies #[trigger] is_digit(d[i]) by {
            assert(is_digit(s[start + i]));
        }
    }
    let mut acc: u64 = 0;
    let mut i: usize = start;
    while i < end
        invariant
            start <= i <= end,
            end <= s.len(),
            d == s.subrange(start as int, end as int),
            forall|j: int| 0 <= j < d.len() ==> #[trigger] is_digit(d[j]),
            acc as int == digits_value(d.take(i - start)),
            acc <= limit,
            limit >= 9,
            limit == (if neg { 0x8000_0000_0000_0000u64 } else { 0x7fff_ffff_ffff_ffffu64 }),
            k == sign_len(s, p as int),
            neg == (k == 1 && s[p as int] == 45),
            start == p + k,
            end == start + digit_run(s, start as int),
            s == data@,
        decreases end - i,
    {
        let c = data[i];
        proof {
            assert(d[i - start] == c);
            assert(is_digit(d[i - start]));
        }
        let dg: u64 = (c - 48) as u64;
        proof {
            assert(d.take(i - start + 1).drop_last() =~= d.take(i - start));
            assert(d.take(i - start + 1).last() == c);
        }
        if acc > (limit - dg) / 10 {
            proof {
                assert(acc * 10 + dg > limit) by (nonlinear_arith)
                    requires acc > (limit - dg) / 10, dg <= 9, limit >= 9;
                lemma_digits_value_grows(d, i - start + 1);
                assert(digits_value(d.take(i - start + 1)) == acc * 10 + dg);
                assert(digits_value(d) > limit);
            }
            return None;
        }
        proof {
            assert(acc * 10 + dg <= limit) by (nonlinear_arith)
                requires acc <= (limit - dg) / 10, dg <= 9, limit >= 9;
        }
        acc = acc * 10 + dg;
        i += 1;
    }
    proof {
        assert(d.take(end - start) =~= d);
    }
    let value: i64 = if neg {
        if acc == 0x8000_0000_0000_0000 {
            i64::MIN
        } else {
            -(acc as i64)
        }
    } else {
        acc as i64
    };
    Some((end - p, Token::Int(value)))
}

/// The identifier at `p`, if one stands there.
fn variable_at(data: &[u8], p: usize) -> (r: Option<(usize, Token)>)
    requires
        p <= data@.len(),
    ensures
        scanned(r, ident_token(data@, p as int)),
        r matches Some((n, _)) ==> n >= 1 && p + n <= data@.len(),
{
    if p < data.len() && is_alpha_byte(data[p]) {
        let q = alnum_end(data, p);
        let b = slice_subrange(data, p, q);
        proof {
            lemma_alnum_run(data@, p as int);
            assert forall|i: int| 0 <= i < b@.len() implies b@[i] < 128 by {
                assert(is_alnum(data@[p + i]));
            }
        }
        let name = ascii_string(b);
        Some((q - p, Token::Id(name)))
    } else {
        None
    }
}

/// The integer literal at the start of `data`, with its length.
pub fn integer(data: &[u8]) -> (r: Option<(usize, Token)>)
    ensures
        scanned(r, int_token(data@, 0)),
{
    int_at(data, 0)
}

/// The identifier at the start of `data`, with its length.
pub fn variable(data: &[u8]) -> (r: Option<(usize, Token)>)
    ensures
        scanned(r, ident_token(data@, 0)),
{
    variable_at(data, 0)
}

fn fixed(n: usize, t: Token) -> (r: Option<(usize, Token)>)
    ensures
        r == Some((n, t)),
{
    Some((n, t))
}

/// The token at `p` and its length, if a rule matches there.
fn token(data: &[u8], p: usize) -> (r: Option<(usize, Token)>)
    requires
        p <= data@.len(),
    ensures
        scanned(r, token_at(data@, p as int)),
        r matches Some((n, _)) ==> n >= 1 && p + n <= data@.len(),
{
    if tag2(data, p, 35u8, 70u8) {
        fixed(2, Token::False)
    } else if tag2(data, p, 35u8, 84u8) {
        fixed(2, Token::True)
    } else if tag1(data, p, 33u8) {
        fixed(1, Token::Not)
    } else if tag2(data, p, 105u8, 102u8) {
        fixed(2, Token::If)
    } else if let Some(r) = variable_at(data, p) {
        Some(r)
    } else if tag1(data, p, 44u8) {
        fixed(1, Token::Comma)
    } else if tag4(data, p, 47u8, 108u8, 97u8, 109u8) {
        fixed(4, Token::Lambda)
    } else if tag1(data, p, 58u8) {
        fixed(1, Token::Colon)
    } else if tag2(data, p, 35u8, 66u8) {
        fixed(2, Token::TypeLit(TyLit::Bool))
    } else if tag2(data, p, 45u8, 62u8) {
        fixed(2, Token::Arrow)
    } else if tag1(data, p, 46u8) {
        fixed(1, Token::Dot)
    } else if tag1(data, p, 40u8) {
        fixed(1, Token::LParen)
    } else if tag1(data, p, 41u8) {
        fixed(1, Token::RParen)
    } else if tag3(data, p, 95u8, 124u8, 95u8) {
        fixed(3, Token::Bottom)
    } else if let Some(r) = int_at(data, p) {
        Some(r)
    } else if tag4(data, p, 35u8, 73u8, 110u8, 116u8) {
        fixed(4, Token::TypeLit(TyLit::Int))
    } else {
        None
    }
}

} // verus!

verus! {

fn is_space_byte(b: u8) -> (r: bool)
    ensures
        r == is_space(b),
{
    b == 32 || b == 9 || b == 10 || b == 13
}

proof fn lemma_tag_ascii(s: Seq<u8>, p: int, tag: Seq<u8>)
    requires
        has_tag(s, p, tag),
        forall|j: int| 0 <= j < tag.len() ==> #[trigger] tag[j] < 128,
    ensures
        forall|i: int| p <= i < p + tag.len() ==> #[trigger] s[i] < 128,
{
    assert forall|i: int| p <= i < p + tag.len() implies #[trigger] s[i] < 128 by {
        assert(s.subrange(p, p + tag.len())[i - p] == s[i]);
        assert(tag[i - p] < 128);
    }
}

/// The bytes of a token are ASCII.
proof fn lemma_token_ascii(s: Seq<u8>, p: int)
    requires
        token_at(s, p) is Some,
    ensures
        forall|i: int| p <= i < p + token_at(s, p).unwrap().1 ==> #[trigger] s[i] < 128,
{
    if has_tag(s, p, seq![35u8, 70u8]) {
        lemma_tag_ascii(s, p, seq![35u8, 70u8]);
    } else if has_tag(s, p, seq![35u8, 84u8]) {
        lemma_tag_ascii(s, p, seq![35u8, 84u8]);
    } else if has_tag(s, p, seq![33u8]) {
        lemma_tag_ascii(s, p, seq![33u8]);
    } else if has_tag(s, p, seq![105u8, 102u8]) {
        lemma_tag_ascii(s, p, seq![105u8, 102u8]);
    } else if ident_token(s, p) is Some {
        lemma_alnum_run(s, p);
        assert forall|i: int| p <= i < p + token_at(s, p).unwrap().1 implies #[trigger] s[i] < 128 by {
            assert(is_alnum(s[i]));
        }
    } else if has_tag(s, p, seq![44u8]) {
        lemma_tag_ascii(s, p, seq![44u8]);
    } else if has_tag(s, p, seq![47u8, 108u8, 97u8, 109u8]) {
        lemma_tag_ascii(s, p, seq![47u8, 108u8, 97u8, 109u8]);
    } else if has_tag(s, p, seq![58u8]) {
        lemma_tag_ascii(s, p, seq![58u8]);
    } else if has_tag(s, p, seq![35u8, 66u8]) {
        lemma_tag_ascii(s, p, seq![35u8, 66u8]);
    } else if has_tag(s, p, seq![45u8, 62u8]) {
        lemma_tag_ascii(s, p, seq![45u8, 62u8]);
    } else if has_tag(s, p, seq![46u8]) {
        lemma_tag_ascii(s, p, seq![46u8]);
    } else if has_tag(s, p, seq![40u8]) {
        lemma_tag_ascii(s, p, seq![40u8]);
    } else if has_tag(s, p, seq![41u8]) {
        lemma_tag_ascii(s, p, seq![41u8]);
    } else if has_tag(s, p, seq![95u8, 124u8, 95u8]) {
        lemma_tag_ascii(s, p, seq![95u8, 124u8, 95u8]);
    } else if int_token(s, p) is Some {
        let k = sign_len(s, p);
        lemma_digit_run(s, p + k);
        assert forall|i: int| p <= i < p + token_at(s, p).unwrap().1 implies #[trigger] s[i] < 128 by {
            if i >= p + k {
                assert(is_digit(s[i]));
            }
        }
    } else {
        lemma_tag_ascii(s, p, seq![35u8, 73u8, 110u8, 116u8]);
    }
}

/// Where the whole rest of the input lexes, it is ASCII.
proof fn lemma_lex_ascii(s: Seq<u8>, p: int)
    requires
        0 <= p,
        lex_from(s, p).1 == s.len(),
    ensures
        forall|i: int| p <= i < s.len() ==> #[trigger] s[i] < 128,
    decreases s.len() - p,
{
    if p < s.len() {
        if is_space(s[p]) {
            lemma_lex_ascii(s, p + 1);
        } else {
            let n = token_at(s, p).unwrap().1;
            lemma_token_ascii(s, p);
            lemma_lex_ascii(s, p + n);
            assert forall|i: int| p <= i < s.len() implies #[trigger] s[i] < 128 by {
                if i >= p + n {
                } else {
                }
            }
        }
    }
}

/// The tokens from the start of `data` up to where no rule matches, and the
/// position where lexing stopped.
pub fn tokenize(data: &[u8]) -> (r: (usize, Vec<Token>))
    ensures
        toks_view(r.1@) == lex_from(data@, 0).0,
        r.0 as int == lex_from(data@, 0).1,
        r.0 <= data@.len(),
{
    let ghost s = data@;
    let mut p: usize = 0;
    let mut toks: Vec<Token> = Vec::new();
    let mut stuck = false;
    while p < data.len() && !stuck
        invariant
            p <= s.len(),
            s == data@,
            toks_view(toks@) + lex_from(s, p as int).0 == lex_from(s, 0).0,
            lex_from(s, p as int).1 == lex_from(s, 0).1,
            stuck ==> lex_from(s, p as int) == (Seq::<TokV>::empty(), p as int),
        decreases s.len() - p + (if stuck { 0int } else { 1int }),
    {
        if is_space_byte(data[p]) {
            p += 1;
        } else {
            match token(data, p) {
                None => {
                    stuck = true;
                },
                Some((n, t)) => {
                    proof {
                        assert(toks_view(toks@.push(t)) =~= toks_view(toks@).push(t@));
                        assert(lex_from(s, p as int).0 == seq![t@] + lex_from(s, p + n).0);
                        assert(toks_view(toks@).push(t@) + lex_from(s, p + n).0 =~= toks_view(toks@)
                            + (seq![t@] + lex_from(s, p + n).0));
                    }
                    toks.push(t);
                    p += n;
                },
            }
        }
    }
    assert(toks_view(toks@) + Seq::<TokV>::empty() =~= toks_view(toks@));
    (p, toks)
}

/// The tokens of the whole input, or the part of it where no rule matched.
pub fn scan(data: &[u8]) -> (r: Result<Lex, Error>)
    ensures
        match r {
            Ok(l) => lex(data@) == Some(toks_view(l.tokens@)) && l.orig@ == ascii_chars(data@),
            Err(e) => lex(data@) is None && e@ == ErrorV::Lex(
                data@.subrange(lex_from(data@, 0).1, data@.len() as int),
            ),
        },
{
    let (end, toks) = tokenize(data);
    if end == data.len() {
        proof {
            lemma_lex_ascii(data@, 0);
        }
        Ok(Lex { orig: ascii_string(data), tokens: toks })
    } else {
        let rest = slice_to_vec(slice_subrange(data, end, data.len()));
        Err(Error::Lex(rest))
    }
}

} // verus!

verus! {

/// Whether the text of `t` lexes back to `t` alone: every token but an
/// identifier that is not a letter followed by letters and digits, or that
/// begins with the keyword `if`.
pub open spec fn stands_alone(t: TokV) -> bool {
    match t {
        TokV::Id(s) => s.len() > 0 && is_alpha(s[0] as u8) && (forall|i: int|
            0 <= i < s.len() ==> #[trigger] is_alnum(s[i] as u8) && (s[i] as u32) < 128) && !(
        s.len() >= 2 && s[0] == 'i' && s[1] == 'f'),
        _ => true,
    }
}

proof fn lemma_tag_mismatch(s: Seq<u8>, p: int, tag: Seq<u8>)
    requires
        0 <= p < s.len(),
        tag.len() > 0,
        s[p] != tag[0] || (tag.len() > 1 && p + 1 < s.len() && s[p + 1] != tag[1]),
    ensures
        !has_tag(s, p, tag),
{
    if has_tag(s, p, tag) {
        assert(s.subrange(p, p + tag.len())[0] == s[p]);
        if tag.len() > 1 && p + 1 < s.len() {
            assert(s.subrange(p, p + tag.len())[1] == s[p + 1]);
        }
    }
}

proof fn lemma_tag_whole(s: Seq<u8>)
    ensures
        has_tag(s, 0, s),
{
    assert(s.subrange(0, s.len() as int) =~= s);
}

proof fn lemma_runs_to_end(s: Seq<u8>, p: int)
    requires
        0 <= p <= s.len(),
        forall|i: int| p <= i < s.len() ==> #[trigger] is_alnum(s[i]),
    ensures
        alnum_run(s, p) == s.len() - p,
    decreases s.len() - p,
{
    if p < s.len() {
        lemma_runs_to_end(s, p + 1);
    }
}

proof fn lemma_digits_to_end(s: Seq<u8>, p: int)
    requires
        0 <= p <= s.len(),
        forall|i: int| p <= i < s.len() ==> #[trigger] is_digit(s[i]),
    ensures
        digit_run(s, p) == s.len() - p,
    decreases s.len() - p,
{
    if p < s.len() {
        lemma_digits_to_end(s, p + 1);
    }
}

/// The bytes of a numeral are digits, and their value is the number.
proof fn lemma_numeral(d: Seq<u8>, m: nat)
    requires
        ascii_chars(d) == crate::text::nat_text(m),
    ensures
        forall|i: int| 0 <= i < d.len() ==> #[trigger] is_digit(d[i]),
        digits_value(d) == m,
        d.len() > 0,
    decreases m,
{
    let t = crate::text::nat_text(m);
    assert(d.len() == t.len());
    let k = (m % 10) as nat;
    assert(d[d.len() - 1] as char == t[t.len() - 1]);
    assert(crate::text::digit_char(k) as u32 == 48 + k);
    assert(ascii_chars(d)[d.len() - 1] == d[d.len() - 1] as char);
    assert(d[d.len() - 1] == 48 + k);
    if m < 10 {
        assert(d.drop_last() =~= Seq::<u8>::empty());
    } else {
        let t2 = crate::text::nat_text(m / 10);
        assert(t == t2.push(crate::text::digit_char(k)));
        assert forall|i: int| 0 <= i < d.len() - 1 implies #[trigger] ascii_chars(d.drop_last())[i] == t2[i] by {
            assert(ascii_chars(d)[i] == t[i]);
            assert(ascii_chars(d)[i] == d[i] as char);
            assert(ascii_chars(d.drop_last())[i] == d.drop_last()[i] as char);
            assert(d.drop_last()[i] == d[i]);
            assert(t[i] == t2[i]);
        }
        assert(ascii_chars(d.drop_last()) =~= t2);
        lemma_numeral(d.drop_last(), m / 10);
        assert(digits_value(d) == digits_value(d.drop_last()) * 10 + (d[d.len() - 1] - 48));
        assert forall|i: int| 0 <= i < d.len() implies #[trigger] is_digit(d[i]) by {
            if i < d.len() - 1 {
                assert(d.drop_last()[i] == d[i]);
            }
        }
    }
}

proof fn lemma_lexes_alone(b: Seq<u8>, t: TokV)
    requires
        b.len() > 0,
        !is_space(b[0]),
        token_at(b, 0) == Some((t, b.len())),
    ensures
        lex(b) == Some(seq![t]),
{
    assert(lex_from(b, b.len() as int) == (Seq::<TokV>::empty(), b.len() as int));
    assert(seq![t] + Seq::<TokV>::empty() =~= seq![t]);
}

/// Round trip: the text of a token that stands alone lexes to that token
/// and nothing else.
pub proof fn lemma_token_text_lexes(t: TokV, b: Seq<u8>)
    requires
        stands_alone(t),
        ascii_chars(b) == crate::lispy::tokens::tok_text(t),
    ensures
        lex(b) == Some(seq![t]),
{
    let text = crate::lispy::tokens::tok_text(t);
    assert(b.len() == text.len());
    assert forall|i: int| 0 <= i < b.len() implies #[trigger] (b[i] as char) == text[i] by {
        assert(ascii_chars(b)[i] == b[i] as char);
    }
    match t {
        TokV::Id(s) => {
            assert(b[0] as char == s[0]);
            assert forall|i: int| 0 <= i < b.len() implies #[trigger] is_alnum(b[i]) by {
                assert(b[i] as char == s[i]);
                assert(is_alnum(s[i] as u8));
            }
            lemma_runs_to_end(b, 0);
            assert(b.subrange(0, b.len() as int) =~= b);
            lemma_tag_mismatch(b, 0, seq![35u8, 70u8]);
            lemma_tag_mismatch(b, 0, seq![35u8, 84u8]);
            lemma_tag_mismatch(b, 0, seq![33u8]);
            if b.len() >= 2 {
                assert(b[1] as char == s[1]);
                lemma_tag_mismatch(b, 0, seq![105u8, 102u8]);
            }
            lemma_lexes_alone(b, t);
        },
        TokV::Int(n) => {
            if n < 0 {
                let d = b.subrange(1, b.len() as int);
                assert(b[0] as char == '-');
                assert(ascii_chars(d) =~= crate::text::nat_text((-n) as nat));
                lemma_numeral(d, (-n) as nat);
                assert forall|i: int| 1 <= i < b.len() implies #[trigger] is_digit(b[i]) by {
                    assert(d[i - 1] == b[i]);
                }
                lemma_digits_to_end(b, 1);
                assert(is_digit(b[1]));
            } else {
                assert(ascii_chars(b) =~= crate::text::nat_text(n as nat));
                lemma_numeral(b, n as nat);
                lemma_digits_to_end(b, 0);
                assert(b.subrange(0, b.len() as int) =~= b);
            }
            assert(is_digit(b[0]) || b[0] == 45);
            if b[0] != 35u8 || (b.len() > 1 && b[1] != 70u8) {
                lemma_tag_mismatch(b, 0, seq![35u8, 70u8]);
            }
            if b[0] != 35u8 || (b.len() > 1 && b[1] != 84u8) {
                lemma_tag_mismatch(b, 0, seq![35u8, 84u8]);
            }
            if b[0] != 33u8 {
                lemma_tag_mismatch(b, 0, seq![33u8]);
            }
            if b[0] != 105u8 || (b.len() > 1 && b[1] != 102u8) {
                lemma_tag_mismatch(b, 0, seq![105u8, 102u8]);
            }
            if b[0] != 44u8 {
                lemma_tag_mismatch(b, 0, seq![44u8]);
            }
            if b[0] != 47u8 || (b.len() > 1 && b[1] != 108u8) {
                lemma_tag_mismatch(b, 0, seq![47u8, 108u8, 97u8, 109u8]);
            }
            if b[0] != 58u8 {
                lemma_tag_mismatch(b, 0, seq![58u8]);
            }
            if b[0] != 35u8 || (b.len() > 1 && b[1] != 66u8) {
                lemma_tag_mismatch(b, 0, seq![35u8, 66u8]);
            }
            if b[0] != 45u8 || (b.len() > 1 && b[1] != 62u8) {
                lemma_tag_mismatch(b, 0, seq![45u8, 62u8]);
            }
            if b[0] != 46u8 {
                lemma_tag_mismatch(b, 0, seq![46u8]);
            }
            if b[0] != 40u8 {
                lemma_tag_mismatch(b, 0, seq![40u8]);
            }
            if b[0] != 41u8 {
                lemma_tag_mismatch(b, 0, seq![41u8]);
            }
            if b[0] != 95u8 || (b.len() > 1 && b[1] != 124u8) {
                lemma_tag_mismatch(b, 0, seq![95u8, 124u8, 95u8]);
            }
            if b[0] != 35u8 || (b.len() > 1 && b[1] != 73u8) {
                lemma_tag_mismatch(b, 0, seq![35u8, 73u8, 110u8, 116u8]);
            }
            lemma_lexes_alone(b, t);
        },
        _ => {
            assert(b.len() > 0 && b[0] as char == text[0]);
            assert(b.len() > 1 ==> b[1] as char == text[1]);
            match t {
                TokV::True => {
                    assert(b =~= seq![35u8, 84u8]);
                },
                TokV::False => {
                    assert(b =~= seq![35u8, 70u8]);
                },
                TokV::Not => {
                    assert(b =~= seq![33u8]);
                },
                TokV::If => {
                    assert(b =~= seq![105u8, 102u8]);
                },
                TokV::Comma => {
                    assert(b =~= seq![44u8]);
                },
                TokV::Lambda => {
                    assert(b =~= seq![47u8, 108u8, 97u8, 109u8]);
                },
                TokV::Colon => {
                    assert(b =~= seq![58u8]);
                },
                TokV::Arrow => {
                    assert(b =~= seq![45u8, 62u8]);
                },
                TokV::Dot => {
                    assert(b =~= seq![46u8]);
                },
                TokV::LParen => {
                    assert(b =~= seq![40u8]);
                },
                TokV::RParen => {
                    assert(b =~= seq![41u8]);
                },
                TokV::Bottom => {
                    assert(b =~= seq![95u8, 124u8, 95u8]);
                },
                TokV::TypeLit(TyLit::Bool) => {
                    assert(b =~= seq![35u8, 66u8]);
                },
                TokV::TypeLit(TyLit::Int) => {
                    assert(b =~= seq![35u8, 73u8, 110u8, 116u8]);
                },
                _ => {},
            }
            lemma_tag_whole(b);
            if b[0] != 35u8 || (b.len() > 1 && b[1] != 70u8) {
                lemma_tag_mismatch(b, 0, seq![35u8, 70u8]);
            }
            if b[0] != 35u8 || (b.len() > 1 && b[1] != 84u8) {
                lemma_tag_mismatch(b, 0, seq![35u8, 84u8]);
            }
            if b[0] != 33u8 {
                lemma_tag_mismatch(b, 0, seq![33u8]);
            }
            if b[0] != 105u8 || (b.len() > 1 && b[1] != 102u8) {
                lemma_tag_mismatch(b, 0, seq![105u8, 102u8]);
            }
            if b[0] != 44u8 {
                lemma_tag_mismatch(b, 0, seq![44u8]);
            }
            if b[0] != 47u8 || (b.len() > 1 && b[1] != 108u8) {
                lemma_tag_mismatch(b, 0, seq![47u8, 108u8, 97u8, 109u8]);
            }
            if b[0] != 58u8 {
                lemma_tag_mismatch(b, 0, seq![58u8]);
            }
            if b[0] != 35u8 || (b.len() > 1 && b[1] != 66u8) {
                lemma_tag_mismatch(b, 0, seq![35u8, 66u8]);
            }
            if b[0] != 45u8 || (b.len() > 1 && b[1] != 62u8) {
                lemma_tag_mismatch(b, 0, seq![45u8, 62u8]);
            }
            if b[0] != 46u8 {
                lemma_tag_mismatch(b, 0, seq![46u8]);
            }
            if b[0] != 40u8 {
                lemma_tag_mismatch(b, 0, seq![40u8]);
            }
            if b[0] != 41u8 {
                lemma_tag_mismatch(b, 0, seq![41u8]);
            }
            if b[0] != 95u8 || (b.len() > 1 && b[1] != 124u8) {
                lemma_tag_mismatch(b, 0, seq![95u8, 124u8, 95u8]);
            }
            if b[0] != 35u8 || (b.len() > 1 && b[1] != 73u8) {
                lemma_tag_mismatch(b, 0, seq![35u8, 73u8, 110u8, 116u8]);
            }
            lemma_lexes_alone(b, t);
        },
    }
}

} // verus!
