//! Lexical analysis: turns one line of source bytes into tokens, one at a
//! time. `spec_token_at` is the mathematical model: given the source and a
//! position it says which token starts there (after skipping whitespace) and
//! where the next scan begins. Every executable matcher is proved equal to
//! its spec counterpart.

use vstd::prelude::*;
use crate::token::{SpecToken, Token, Type};

verus! {

// ---------------------------------------------------------------------------
// Byte classes
// ---------------------------------------------------------------------------

/// Whitespace: space, tab, newline.
pub open spec fn is_ws(b: u8) -> bool {
    b == 32u8 || b == 9u8 || b == 10u8  // ' ', '\t', '\n'
}

/// Bytes allowed in a numeric literal: decimal digits and the underscore.
pub open spec fn is_num_byte(b: u8) -> bool {
    b == 95u8 || (48u8 <= b && b <= 57u8)  // '_', '0' to '9'
}

/// ASCII letters, which may start an identifier.
pub open spec fn is_alpha_byte(b: u8) -> bool {
    (97u8 <= b && b <= 122u8) || (65u8 <= b && b <= 90u8)  // 'a' to 'z', 'A' to 'Z'
}

/// Bytes allowed after the first byte of an identifier.
pub open spec fn is_ident_byte(b: u8) -> bool {
    is_alpha_byte(b) || is_num_byte(b)
}

// ---------------------------------------------------------------------------
// Maximal runs of a byte class
// ---------------------------------------------------------------------------

/// The end of the maximal run of bytes satisfying `p` that starts at `pos`.
pub open spec fn run_end(s: Seq<u8>, pos: int, p: spec_fn(u8) -> bool) -> int
    decreases s.len() - pos,
{
    if pos < 0 || pos >= s.len() || !p(s[pos]) {
        pos
    } else {
        run_end(s, pos + 1, p)
    }
}

pub open spec fn ws_end(s: Seq<u8>, pos: int) -> int {
    run_end(s, pos, |b: u8| is_ws(b))
}

pub open spec fn num_end(s: Seq<u8>, pos: int) -> int {
    run_end(s, pos, |b: u8| is_num_byte(b))
}

pub open spec fn ident_end(s: Seq<u8>, pos: int) -> int {
    run_end(s, pos, |b: u8| is_ident_byte(b))
}

pub open spec fn nonws_end(s: Seq<u8>, pos: int) -> int {
    run_end(s, pos, |b: u8| !is_ws(b))
}

/// A whitespace run stays inside the source, every byte in it is
/// whitespace, and the byte after it (if any) is not.
pub proof fn lemma_ws_end(s: Seq<u8>, pos: int)
    requires
        0 <= pos <= s.len(),
    ensures
        pos <= ws_end(s, pos) <= s.len(),
        forall|i: int| pos <= i < ws_end(s, pos) ==> is_ws(s[i]),
        ws_end(s, pos) < s.len() ==> !is_ws(s[ws_end(s, pos)]),
    decreases s.len() - pos,
{
    if pos < s.len() && is_ws(s[pos]) {
        assert(ws_end(s, pos) == ws_end(s, pos + 1));
        lemma_ws_end(s, pos + 1);
    }
}

/// The same facts for a numeric run, with strict progress on a numeric byte.
pub proof fn lemma_num_end(s: Seq<u8>, pos: int)
    requires
        0 <= pos <= s.len(),
    ensures
        pos <= num_end(s, pos) <= s.len(),
        forall|i: int| pos <= i < num_end(s, pos) ==> is_num_byte(s[i]),
        num_end(s, pos) < s.len() ==> !is_num_byte(s[num_end(s, pos)]),
        pos < s.len() && is_num_byte(s[pos]) ==> pos < num_end(s, pos),
    decreases s.len() - pos,
{
    if pos < s.len() && is_num_byte(s[pos]) {
        assert(num_end(s, pos) == num_end(s, pos + 1));
        lemma_num_end(s, pos + 1);
    }
}

/// The same facts for an identifier run.
pub proof fn lemma_ident_end(s: Seq<u8>, pos: int)
    requires
        0 <= pos <= s.len(),
    ensures
        pos <= ident_end(s, pos) <= s.len(),
        forall|i: int| pos <= i < ident_end(s, pos) ==> is_ident_byte(s[i]),
        ident_end(s, pos) < s.len() ==> !is_ident_byte(s[ident_end(s, pos)]),
        pos < s.len() && is_ident_byte(s[pos]) ==> pos < ident_end(s, pos),
    decreases s.len() - pos,
{
    if pos < s.len() && is_ident_byte(s[pos]) {
        assert(ident_end(s, pos) == ident_end(s, pos + 1));
        lemma_ident_end(s, pos + 1);
    }
}

/// The same facts for a run of non-whitespace bytes.
pub proof fn lemma_nonws_end(s: Seq<u8>, pos: int)
    requires
        0 <= pos <= s.len(),
    ensures
        pos <= nonws_end(s, pos) <= s.len(),
        forall|i: int| pos <= i < nonws_end(s, pos) ==> !is_ws(s[i]),
        nonws_end(s, pos) < s.len() ==> is_ws(s[nonws_end(s, pos)]),
        pos < s.len() && !is_ws(s[pos]) ==> pos < nonws_end(s, pos),
    decreases s.len() - pos,
{
    if pos < s.len() && !is_ws(s[pos]) {
        assert(nonws_end(s, pos) == nonws_end(s, pos + 1));
        lemma_nonws_end(s, pos + 1);
    }
}

// ---------------------------------------------------------------------------
// Fixed words
// ---------------------------------------------------------------------------

pub open spec fn lit_let() -> Seq<u8> {
    seq![108u8, 101u8, 116u8]
}

pub open spec fn lit_true() -> Seq<u8> {
    seq![116u8, 114u8, 117u8, 101u8]
}

pub open spec fn lit_false() -> Seq<u8> {
    seq![102u8, 97u8, 108u8, 115u8, 101u8]
}

pub open spec fn lit_eof() -> Seq<u8> {
    seq![69u8, 79u8, 70u8]
}

/// The word `w` occurs in `s` starting at `pos`.
pub open spec fn word_at(s: Seq<u8>, pos: int, w: Seq<u8>) -> bool {
    &&& 0 <= pos
    &&& pos + w.len() <= s.len()
    &&& s.subrange(pos, pos + w.len()) == w
}

// ---------------------------------------------------------------------------
// Spec matchers, one per token family, in the priority order the lexer
// applies them
// ---------------------------------------------------------------------------

/// A float literal: a run of numeric bytes, one point, and at least one more
/// numeric byte; the token extends over the trailing numeric run.
pub open spec fn spec_float_token(src: Seq<u8>, pos: int) -> Option<SpecToken> {
    if 0 <= pos < src.len() && is_num_byte(src[pos]) {
        let r1 = num_end(src, pos);
        if r1 < src.len() && src[r1] == 46u8 && r1 + 1 < src.len() && is_num_byte(src[r1 + 1]) {  // '.'
            let r2 = num_end(src, r1 + 1);
            Some(SpecToken { loc: pos, value: src.subrange(pos, r2), t_type: Type::Float })
        } else {
            None
        }
    } else {
        None
    }
}

/// An integer literal: a maximal run of numeric bytes.
pub open spec fn spec_int_token(src: Seq<u8>, pos: int) -> Option<SpecToken> {
    if 0 <= pos < src.len() && is_num_byte(src[pos]) {
        Some(SpecToken { loc: pos, value: src.subrange(pos, num_end(src, pos)), t_type: Type::Int })
    } else {
        None
    }
}

/// `true` or `false` as a whole word: followed by whitespace or the end of
/// the input.
pub open spec fn spec_bool_token(src: Seq<u8>, pos: int) -> Option<SpecToken> {
    if word_at(src, pos, lit_true()) && (pos + 4 == src.len() || is_ws(src[pos + 4])) {
        Some(SpecToken { loc: pos, value: lit_true(), t_type: Type::Bool })
    } else if word_at(src, pos, lit_false()) && (pos + 5 == src.len() || is_ws(src[pos + 5])) {
        Some(SpecToken { loc: pos, value: lit_false(), t_type: Type::Bool })
    } else {
        None
    }
}

/// The keyword `let` as a prefix.
pub open spec fn spec_keyword_token(src: Seq<u8>, pos: int) -> Option<SpecToken> {
    if word_at(src, pos, lit_let()) {
        Some(SpecToken { loc: pos, value: lit_let(), t_type: Type::Let })
    } else {
        None
    }
}

/// An identifier: a letter, then a maximal run of letters, digits and
/// underscores.
pub open spec fn spec_ident_token(src: Seq<u8>, pos: int) -> Option<SpecToken> {
    if 0 <= pos < src.len() && is_alpha_byte(src[pos]) {
        Some(
            SpecToken {
                loc: pos,
                value: src.subrange(pos, ident_end(src, pos)),
                t_type: Type::Identifier,
            },
        )
    } else {
        None
    }
}

/// Keyword and identifier both match: the longer wins, ties favour the
/// keyword.
pub open spec fn spec_keyword_or_identifier_token(src: Seq<u8>, pos: int) -> Option<SpecToken> {
    match spec_keyword_token(src, pos) {
        Some(k) => match spec_ident_token(src, pos) {
            Some(i) => if k.value.len() >= i.value.len() {
                Some(k)
            } else {
                Some(i)
            },
            None => Some(k),
        },
        None => spec_ident_token(src, pos),
    }
}

/// The fallback: a maximal run of non-whitespace bytes that nothing else
/// recognised.
pub open spec fn spec_unknown_token(src: Seq<u8>, pos: int) -> SpecToken {
    SpecToken { loc: pos, value: src.subrange(pos, nonws_end(src, pos)), t_type: Type::Unknown }
}

// ---------------------------------------------------------------------------
// The token that starts at a position, and the position after it
// ---------------------------------------------------------------------------

pub open spec fn single_byte_token(loc: int, b: u8, t_type: Type) -> SpecToken {
    SpecToken { loc, value: seq![b], t_type }
}

/// The model of the lexer: skip whitespace, then match, in priority order,
/// the single-byte tokens, float and integer literals, boolean literals,
/// keyword-or-identifier, and finally an unknown run. Returns the token and
/// the position at which the next scan starts.
pub open spec fn spec_token_at(src: Seq<u8>, pos: int) -> (SpecToken, int) {
    let start = ws_end(src, pos);
    if start >= src.len() {
        (SpecToken { loc: start, value: lit_eof(), t_type: Type::EOF }, start)
    } else {
        let b = src[start];
        if b == 40u8 {  // '('
            (single_byte_token(start, b, Type::OpenParen), start + 1)
        } else if b == 41u8 {  // ')'
            (single_byte_token(start, b, Type::CloseParen), start + 1)
        } else if b == 43u8 {  // '+'
            (single_byte_token(start, b, Type::Plus), start + 1)
        } else if b == 45u8 {  // '-'
            (single_byte_token(start, b, Type::Minus), start + 1)
        } else if b == 42u8 {  // '*'
            (single_byte_token(start, b, Type::Multiply), start + 1)
        } else if b == 47u8 {  // '/'
            (single_byte_token(start, b, Type::Divide), start + 1)
        } else {
            match spec_float_token(src, start) {
                Some(t) => (t, start + t.value.len()),
                None => match spec_int_token(src, start) {
                    Some(t) => (t, start + t.value.len()),
                    None => match spec_bool_token(src, start) {
                        Some(t) => (t, start + t.value.len()),
                        None => match spec_keyword_or_identifier_token(src, start) {
                            Some(t) => (t, start + t.value.len()),
                            None => {
                                let t = spec_unknown_token(src, start);
                                (t, start + t.value.len())
                            },
                        },
                    },
                },
            }
        }
    }
}

/// Scanning makes progress: the next position stays inside the source, a
/// non-end token advances it strictly, and the end token stands exactly at
/// the end of the source.
pub proof fn lemma_token_at(src: Seq<u8>, pos: int)
    requires
        0 <= pos <= src.len(),
    ensures
        pos <= spec_token_at(src, pos).1 <= src.len(),
        spec_token_at(src, pos).0.t_type != Type::EOF ==> pos < spec_token_at(src, pos).1,
        spec_token_at(src, pos).0.t_type == Type::EOF ==> spec_token_at(src, pos).1 == src.len(),
{
    lemma_ws_end(src, pos);
    let start = ws_end(src, pos);
    if start < src.len() {
        let b = src[start];
        if b == 40u8 || b == 41u8 || b == 43u8 || b == 45u8 || b == 42u8 || b == 47u8 {
        } else if is_num_byte(b) {
            lemma_num_end(src, start);
            let r1 = num_end(src, start);
            if r1 < src.len() && src[r1] == 46u8 && r1 + 1 < src.len() && is_num_byte(
                src[r1 + 1],
            ) {
                lemma_num_end(src, r1 + 1);
            }
        } else {
            match spec_bool_token(src, start) {
                Some(t) => {},
                None => {
                    if is_alpha_byte(b) {
                        lemma_ident_end(src, start);
                        match spec_keyword_token(src, start) {
                            Some(k) => {
                                assert(k.value.len() == 3);
                            },
                            None => {},
                        }
                    } else {
                        // the keyword cannot match here: its first byte is a letter
                        if word_at(src, start, lit_let()) {
                            assert(src.subrange(start, start + 3)[0] == src[start]);
                            assert(false);
                        }
                        lemma_nonws_end(src, start);
                    }
                },
            }
        }
    }
}

// ---------------------------------------------------------------------------
// Executable matchers
// ---------------------------------------------------------------------------

pub open spec fn opt_tok_view(r: Option<Token>) -> Option<SpecToken> {
    match r {
        Some(t) => Some(t@),
        None => None,
    }
}

fn is_white_space(byte: &u8) -> (r: bool)
    ensures
        r == is_ws(*byte),
{
    *byte == 10u8 || *byte == 32u8 || *byte == 9u8
}

fn is_num(byte: u8) -> (r: bool)
    ensures
        r == is_num_byte(byte),
{
    byte == 95u8 || (48u8 <= byte && byte <= 57u8)
}

fn is_alpha(byte: u8) -> (r: bool)
    ensures
        r == is_alpha_byte(byte),
{
    (97u8 <= byte && byte <= 122u8) || (65u8 <= byte && byte <= 90u8)
}

/// Scans the maximal run of numeric bytes starting at `pos`.
fn scan_num_end(source: &[u8], pos: usize) -> (r: usize)
    requires
        pos < source@.len(),
        is_num_byte(source@[pos as int]),
    ensures
        r as int == num_end(source@, pos as int),
        pos < r <= source@.len(),
{
    let ghost src = source@;
    let n = source.len();
    let mut i = pos + 1;
    proof {
        assert(num_end(src, pos as int) == num_end(src, pos + 1));
    }
    while i < n && is_num(source[i])
        invariant
            pos < i <= n,
            n == src.len(),
            src == source@,
            num_end(src, pos as int) == num_end(src, i as int),
        decreases n - i,
    {
        proof {
            assert(num_end(src, i as int) == num_end(src, i + 1));
        }
        i = i + 1;
    }
    proof {
        assert(num_end(src, i as int) == i as int);
        lemma_num_end(src, pos as int);
    }
    i
}

/// Looks for a float literal at `pos`.
fn float_token(source: &[u8], pos: usize) -> (r: Option<Token>)
    requires
        pos < source@.len(),
    ensures
        opt_tok_view(r) == spec_float_token(source@, pos as int),
{
    let ghost src = source@;
    if !is_num(source[pos]) {
        return None;
    }
    let r1 = scan_num_end(source, pos);
    let n = source.len();
    if r1 < n && source[r1] == 46u8 && r1 + 1 < n && is_num(source[r1 + 1]) {
        let r2 = scan_num_end(source, r1 + 1);
        let t = Token::from_bytes(vstd::slice::slice_subrange(source, pos, r2), pos, Type::Float);
        proof {
            assert(t@ == spec_float_token(src, pos as int).unwrap());
        }
        Some(t)
    } else {
        None
    }
}

/// Looks for an integer literal at `pos`.
fn int_token(source: &[u8], pos: usize) -> (r: Option<Token>)
    requires
        pos < source@.len(),
    ensures
        opt_tok_view(r) == spec_int_token(source@, pos as int),
{
    let ghost src = source@;
    if !is_num(source[pos]) {
        return None;
    }
    let r1 = scan_num_end(source, pos);
    let t = Token::from_bytes(vstd::slice::slice_subrange(source, pos, r1), pos, Type::Int);
    proof {
        assert(t@ == spec_int_token(src, pos as int).unwrap());
    }
    Some(t)
}

/// Compares the bytes at `pos` with a whole word.
fn matches_word(source: &[u8], pos: usize, w: &[u8]) -> (r: bool)
    requires
        pos <= source@.len(),
    ensures
        r == word_at(source@, pos as int, w@),
{
    let ghost src = source@;
    let n = source.len();
    let m = w.len();
    if n - pos < m {
        return false;
    }
    let mut j: usize = 0;
    while j < m
        invariant
            0 <= j <= m,
            m == w@.len(),
            pos + m <= n,
            n == src.len(),
            src == source@,
            forall|k: int| 0 <= k < j ==> src[pos + k] == w@[k],
        decreases m - j,
    {
        if source[pos + j] != w[j] {
            proof {
                assert(src.subrange(pos as int, pos + m) != w@) by {
                    assert(src.subrange(pos as int, pos + m)[j as int] == src[pos + j]);
                }
            }
            return false;
        }
        j = j + 1;
    }
    proof {
        assert(src.subrange(pos as int, pos + m) =~= w@);
    }
    true
}

fn true_word() -> (v: Vec<u8>)
    ensures
        v@ == lit_true(),
{
    let mut v: Vec<u8> = Vec::new();
    v.push(116u8);
    v.push(114u8);
    v.push(117u8);
    v.push(101u8);
    proof {
        assert(v@ =~= lit_true());
    }
    v
}

fn false_word() -> (v: Vec<u8>)
    ensures
        v@ == lit_false(),
{
    let mut v: Vec<u8> = Vec::new();
    v.push(102u8);
    v.push(97u8);
    v.push(108u8);
    v.push(115u8);
    v.push(101u8);
    proof {
        assert(v@ =~= lit_false());
    }
    v
}

fn let_word() -> (v: Vec<u8>)
    ensures
        v@ == lit_let(),
{
    let mut v: Vec<u8> = Vec::new();
    v.push(108u8);
    v.push(101u8);
    v.push(116u8);
    proof {
        assert(v@ =~= lit_let());
    }
    v
}

/// Looks for a boolean literal at `pos`.
fn bool_token(source: &[u8], pos: usize) -> (r: Option<Token>)
    requires
        pos < source@.len(),
    ensures
        opt_tok_view(r) == spec_bool_token(source@, pos as int),
{
    let n = source.len();
    let tw = true_word();
    if matches_word(source, pos, tw.as_slice()) && (pos + 4 == n || is_white_space(
        &source[pos + 4],
    )) {
        return Some(Token::from_bytes(tw.as_slice(), pos, Type::Bool));
    }
    let fw = false_word();
    if matches_word(source, pos, fw.as_slice()) && (pos + 5 == n || is_white_space(
        &source[pos + 5],
    )) {
        return Some(Token::from_bytes(fw.as_slice(), pos, Type::Bool));
    }
    None
}

/// Looks for the `let` keyword at `pos`.
fn keyword_token(source: &[u8], pos: usize) -> (r: Option<Token>)
    requires
        pos < source@.len(),
    ensures
        opt_tok_view(r) == spec_keyword_token(source@, pos as int),
{
    let lw = let_word();
    if matches_word(source, pos, lw.as_slice()) {
        Some(Token::from_bytes(lw.as_slice(), pos, Type::Let))
    } else {
        None
    }
}

/// Looks for an identifier at `pos`.
fn ident_token(source: &[u8], pos: usize) -> (r: Option<Token>)
    requires
        pos < source@.len(),
    ensures
        opt_tok_view(r) == spec_ident_token(source@, pos as int),
{
    let ghost src = source@;
    if !is_alpha(source[pos]) {
        return None;
    }
    let n = source.len();
    let mut i = pos + 1;
    proof {
        assert(ident_end(src, pos as int) == ident_end(src, pos + 1));
    }
    while i < n && (is_alpha(source[i]) || is_num(source[i]))
        invariant
            pos < i <= n,
            n == src.len(),
            src == source@,
            ident_end(src, pos as int) == ident_end(src, i as int),
        decreases n - i,
    {
        proof {
            assert(ident_end(src, i as int) == ident_end(src, i + 1));
        }
        i = i + 1;
    }
    proof {
        assert(ident_end(src, i as int) == i as int);
    }
    let t = Token::from_bytes(
        vstd::slice::slice_subrange(source, pos, i),
        pos,
        Type::Identifier,
    );
    proof {
        assert(t@ == spec_ident_token(src, pos as int).unwrap());
    }
    Some(t)
}

/// Prefers the longer of a keyword and an identifier match; ties favour the
/// keyword.
fn keyword_or_identifier_token(source: &[u8], pos: usize) -> (r: Option<Token>)
    requires
        pos < source@.len(),
    ensures
        opt_tok_view(r) == spec_keyword_or_identifier_token(source@, pos as int),
{
    let keyword = keyword_token(source, pos);
    let ident = ident_token(source, pos);
    match keyword {
        Some(k) => match ident {
            Some(i) => {
                if k.value.len() >= i.value.len() {
                    Some(k)
                } else {
                    Some(i)
                }
            },
            None => Some(k),
        },
        None => ident,
    }
}

/// Collects the run of non-whitespace bytes that nothing else recognised.
fn unknown_token(source: &[u8], pos: usize) -> (r: Token)
    requires
        pos < source@.len(),
        !is_ws(source@[pos as int]),
    ensures
        r@ == spec_unknown_token(source@, pos as int),
{
    let ghost src = source@;
    let n = source.len();
    let mut i = pos + 1;
    proof {
        assert(nonws_end(src, pos as int) == nonws_end(src, pos + 1));
    }
    while i < n && !is_white_space(&source[i])
        invariant
            pos < i <= n,
            n == src.len(),
            src == source@,
            nonws_end(src, pos as int) == nonws_end(src, i as int),
        decreases n - i,
    {
        proof {
            assert(nonws_end(src, i as int) == nonws_end(src, i + 1));
        }
        i = i + 1;
    }
    proof {
        assert(nonws_end(src, i as int) == i as int);
    }
    let t = Token::from_bytes(vstd::slice::slice_subrange(source, pos, i), pos, Type::Unknown);
    proof {
        assert(t@ == spec_unknown_token(src, pos as int));
    }
    t
}

/// Matches the token that starts at `pos` and returns it together with the
/// position where the next scan starts.
fn match_token(source: &[u8], pos: usize) -> (r: (Token, usize))
    requires
        pos <= source@.len(),
    ensures
        r.0@ == spec_token_at(source@, pos as int).0,
        r.1 as int == spec_token_at(source@, pos as int).1,
{
    let ghost src = source@;
    let n = source.len();
    let mut i = pos;
    while i < n && is_white_space(&source[i])
        invariant
            pos <= i <= n,
            n == src.len(),
            src == source@,
            ws_end(src, pos as int) == ws_end(src, i as int),
        decreases n - i,
    {
        proof {
            assert(ws_end(src, i as int) == ws_end(src, i + 1));
        }
        i = i + 1;
    }
    proof {
        assert(ws_end(src, i as int) == i as int);
    }
    if i == n {
        let mut value: Vec<u8> = Vec::new();
        value.push(69u8);
        value.push(79u8);
        value.push(70u8);
        proof {
            assert(value@ =~= lit_eof());
        }
        let t = Token { loc: i, value, t_type: Type::EOF };
        proof {
            assert(t@ == spec_token_at(src, pos as int).0);
        }
        return (t, i);
    }
    let b = source[i];
    if b == 40u8 {
        return (Token::from_byte(&source[i], i, Type::OpenParen), i + 1);
    }
    if b == 41u8 {
        return (Token::from_byte(&source[i], i, Type::CloseParen), i + 1);
    }
    if b == 43u8 {
        return (Token::from_byte(&source[i], i, Type::Plus), i + 1);
    }
    if b == 45u8 {
        return (Token::from_byte(&source[i], i, Type::Minus), i + 1);
    }
    if b == 42u8 {
        return (Token::from_byte(&source[i], i, Type::Multiply), i + 1);
    }
    if b == 47u8 {
        return (Token::from_byte(&source[i], i, Type::Divide), i + 1);
    }
    proof {
        lemma_token_at(src, pos as int);
    }
    match float_token(source, i) {
        Some(t) => {
            let l = t.value.len();
            return (t, i + l);
        },
        None => {},
    }
    match int_token(source, i) {
        Some(t) => {
            let l = t.value.len();
            return (t, i + l);
        },
        None => {},
    }
    match bool_token(source, i) {
        Some(t) => {
            let l = t.value.len();
            return (t, i + l);
        },
        None => {},
    }
    match keyword_or_identifier_token(source, i) {
        Some(t) => {
            let l = t.value.len();
            return (t, i + l);
        },
        None => {},
    }
    let t = unknown_token(source, i);
    let l = t.value.len();
    (t, i + l)
}

// ---------------------------------------------------------------------------
// The lexer
// ---------------------------------------------------------------------------

/// Produces the tokens of one line of source bytes, one token of lookahead.
/// `peek` returns the pending token without consuming it; `take` consumes it
/// and prepares the next one; past the end of the input `take` keeps
/// returning the end token.
pub struct Lexer<'a> {
    source: &'a [u8],
    idx: usize,
    next_token: Token,
    cursor: Ghost<int>,
}

impl<'a> Lexer<'a> {
    /// The source bytes under scan.
    pub closed spec fn src(&self) -> Seq<u8> {
        self.source@
    }

    /// The position at which the pending token's match starts.
    pub closed spec fn pos(&self) -> int {
        self.cursor@
    }

    /// The lookahead agrees with the model at the current position.
    pub closed spec fn wf(&self) -> bool {
        &&& 0 <= self.cursor@ <= self.source@.len()
        &&& self.next_token@ == spec_token_at(self.source@, self.cursor@).0
        &&& self.idx as int == spec_token_at(self.source@, self.cursor@).1
    }

    /// A well-formed lexer scans inside its source.
    pub proof fn lemma_wf(&self)
        requires
            self.wf(),
        ensures
            0 <= self.pos() <= self.src().len(),
    {
    }

    pub fn new(source: &'a [u8]) -> (r: Self)
        ensures
            r.wf(),
            r.src() == source@,
            r.pos() == 0,
    {
        let (next_token, idx) = match_token(source, 0);
        Lexer { source, idx, next_token, cursor: Ghost(0) }
    }

    /// The pending token, without consuming it.
    pub fn peek(&self) -> (tok: Token)
        requires
            self.wf(),
        ensures
            tok@ == spec_token_at(self.src(), self.pos()).0,
    {
        self.next_token.clone()
    }

    /// Consumes and returns the pending token; at the end of the input the
    /// end token is returned again and the state does not change.
    pub fn take(&mut self) -> (tok: Token)
        requires
            old(self).wf(),
        ensures
            final(self).wf(),
            final(self).src() == old(self).src(),
            tok@ == spec_token_at(old(self).src(), old(self).pos()).0,
            tok.t_type == Type::EOF ==> final(self).pos() == old(self).pos(),
            tok.t_type != Type::EOF ==> final(self).pos() == spec_token_at(
                old(self).src(),
                old(self).pos(),
            ).1,
    {
        let tok = self.next_token.clone();
        if tok.t_type == Type::EOF {
            return tok;
        }
        proof {
            lemma_token_at(self.source@, self.cursor@);
        }
        let prev_idx = self.idx;
        let (next_token, idx) = match_token(self.source, prev_idx);
        self.next_token = next_token;
        self.idx = idx;
        self.cursor = Ghost(prev_idx as int);
        tok
    }
}

} // verus!
