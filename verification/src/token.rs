//! Tokens: classified slices of source text, each carrying its kind, its
//! exact matched bytes, and the byte offset at which the match started.

use vstd::prelude::*;

verus! {

/// The kind of a lexical unit.
#[derive(Clone, Copy, PartialEq, Eq, Structural, Debug)]
pub enum Type {
    EOF,
    Unknown,
    OpenParen,
    CloseParen,
    Plus,
    Minus,
    Multiply,
    Divide,
    Let,
    Identifier,
    Int,
    Float,
    Bool,
}

/// A classified lexical unit: the byte offset where the match started, the
/// exact matched bytes, and the kind.
#[derive(Debug)]
pub struct Token {
    pub loc: usize,
    pub value: Vec<u8>,
    pub t_type: Type,
}

/// The mathematical model of a token.
pub struct SpecToken {
    pub loc: int,
    pub value: Seq<u8>,
    pub t_type: Type,
}

impl View for Token {
    type V = SpecToken;

    open spec fn view(&self) -> SpecToken {
        SpecToken { loc: self.loc as int, value: self.value@, t_type: self.t_type }
    }
}

impl Clone for Token {
    fn clone(&self) -> (r: Self)
        ensures
            r@ == self@,
    {
        let r = Token { loc: self.loc, value: self.value.clone(), t_type: self.t_type };
        proof {
            assert(r.value@ =~= self.value@);
            assert(r@ =~= self@);
        }
        r
    }
}

impl Token {
    /// Builds a token over a copy of the given bytes.
    pub fn from_bytes(source: &[u8], loc: usize, t_type: Type) -> (r: Token)
        ensures
            r@ == (SpecToken { loc: loc as int, value: source@, t_type }),
    {
        let r = Token { loc, value: vstd::slice::slice_to_vec(source), t_type };
        proof {
            assert(r@ =~= (SpecToken { loc: loc as int, value: source@, t_type }));
        }
        r
    }

    /// Builds a token whose text is one byte.
    pub fn from_byte(byte: &u8, loc: usize, t_type: Type) -> (r: Token)
        ensures
            r@ == (SpecToken { loc: loc as int, value: seq![*byte], t_type }),
    {
        let mut value: Vec<u8> = Vec::new();
        value.push(*byte);
        let r = Token { loc, value, t_type };
        proof {
            assert(r.value@ =~= seq![*byte]);
            assert(r@ =~= (SpecToken { loc: loc as int, value: seq![*byte], t_type }));
        }
        r
    }
}

} // verus!
