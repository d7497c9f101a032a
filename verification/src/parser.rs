//! Recursive-descent parsing: a token stream becomes an ordered sequence of
//! expressions. `spec_parse` is the mathematical model of the whole parse;
//! the executable parser is proved to return exactly its result, as a value
//! on success and as the same error on structurally invalid input.

use vstd::prelude::*;
use crate::ast::{Expr, ExprV, SExpr, expr_view, exprs_view, lemma_exprs_view_push};
use crate::lexer::{Lexer, lemma_token_at, lit_true, spec_token_at};
use crate::token::{SpecToken, Token, Type};

verus! {

// ---------------------------------------------------------------------------
// Errors
// ---------------------------------------------------------------------------

/// Why a parse was aborted.
#[derive(Debug)]
pub enum ParseError {
    /// A token kind that cannot start an expression stood where an
    /// expression was expected: an unknown byte run, a bare operator, a
    /// keyword or a stray closing parenthesis.
    UnexpectedToken(Token),
    /// An integer literal with no digit, a byte outside digits and
    /// underscores, or a value too large for a 64-bit signed integer.
    InvalidIntLiteral(Token),
    /// The input ended before the form opened at this byte offset was
    /// closed.
    UnclosedSExpr(usize),
}

/// The mathematical model of a parse error.
pub enum ParseErrorV {
    UnexpectedToken(SpecToken),
    InvalidIntLiteral(SpecToken),
    UnclosedSExpr(int),
}

impl View for ParseError {
    type V = ParseErrorV;

    open spec fn view(&self) -> ParseErrorV {
        match self {
            ParseError::UnexpectedToken(t) => ParseErrorV::UnexpectedToken(t@),
            ParseError::InvalidIntLiteral(t) => ParseErrorV::InvalidIntLiteral(t@),
            ParseError::UnclosedSExpr(loc) => ParseErrorV::UnclosedSExpr(*loc as int),
        }
    }
}

// ---------------------------------------------------------------------------
// Integer literals
// ---------------------------------------------------------------------------

pub open spec fn is_digit(b: u8) -> bool {
    48 <= b && b <= 57
}

/// The numeric value of a literal: digits accumulate left to right,
/// underscores are skipped.
pub open spec fn digits_value(s: Seq<u8>) -> int
    decreases s.len(),
{
    if s.len() == 0 {
        0
    } else {
        let v = digits_value(s.drop_last());
        if is_digit(s.last()) {
            v * 10 + (s.last() - 48)  // 48 is the byte '0'
        } else {
            v
        }
    }
}

pub open spec fn has_digit(s: Seq<u8>) -> bool {
    exists|i: int| 0 <= i < s.len() && is_digit(s[i])
}

pub open spec fn all_num_bytes(s: Seq<u8>) -> bool {
    forall|i: int| 0 <= i < s.len() ==> crate::lexer::is_num_byte(s[i])
}

/// A literal denotes an integer when it holds only digits and underscores,
/// at least one digit, and a value that fits in a 64-bit signed integer.
pub open spec fn int_text_valid(s: Seq<u8>) -> bool {
    &&& all_num_bytes(s)
    &&& has_digit(s)
    &&& digits_value(s) <= i64::MAX
}

pub proof fn lemma_digits_value_nonneg(s: Seq<u8>)
    ensures
        digits_value(s) >= 0,
    decreases s.len(),
{
    if s.len() > 0 {
        lemma_digits_value_nonneg(s.drop_last());
    }
}

/// The value can only grow as the literal extends to the right.
pub proof fn lemma_digits_value_prefix(s: Seq<u8>, i: int)
    requires
        0 <= i <= s.len(),
    ensures
        digits_value(s.subrange(0, i)) <= digits_value(s),
    decreases s.len() - i,
{
    if i == s.len() {
        assert(s.subrange(0, i) =~= s);
    } else {
        lemma_digits_value_prefix(s.subrange(0, s.len() - 1), i);
        assert(s.subrange(0, s.len() - 1) =~= s.drop_last());
        assert(s.subrange(0, s.len() - 1).subrange(0, i) =~= s.subrange(0, i));
        lemma_digits_value_nonneg(s.drop_last());
    }
}

/// Parses an integer literal's bytes, exactly when the literal is valid.
fn parse_int(text: &Vec<u8>) -> (r: Option<i64>)
    ensures
        int_text_valid(text@) ==> r == Some((digits_value(text@) as i64)),
        !int_text_valid(text@) ==> r is None,
{
    let ghost s = text@;
    let n = text.len();
    let mut acc: i64 = 0;
    let mut seen_digit = false;
    let mut i: usize = 0;
    while i < n
        invariant
            0 <= i <= n,
            n == s.len(),
            s == text@,
            all_num_bytes(s.subrange(0, i as int)),
            seen_digit == has_digit(s.subrange(0, i as int)),
            0 <= acc,
            acc as int == digits_value(s.subrange(0, i as int)),
        decreases n - i,
    {
        let b = text[i];
        proof {
            assert(s.subrange(0, i + 1).drop_last() =~= s.subrange(0, i as int));
            assert(s.subrange(0, i + 1).last() == s[i as int]);
        }
        if 48 <= b && b <= 57 {
            let d = (b - 48) as i64;
            let stepped = match acc.checked_mul(10) {
                Some(m) => m.checked_add(d),
                None => None,
            };
            match stepped {
                Some(v) => {
                    acc = v;
                    seen_digit = true;
                },
                None => {
                    proof {
                        assert(digits_value(s.subrange(0, i + 1)) > i64::MAX);
                        lemma_digits_value_prefix(s, i + 1);
                    }
                    return None;
                },
            }
        } else if b == 95 {
        } else {
            proof {
                assert(!crate::lexer::is_num_byte(s[i as int]));
            }
            return None;
        }
        i = i + 1;
    }
    proof {
        assert(s.subrange(0, n as int) =~= s);
    }
    if seen_digit {
        Some(acc)
    } else {
        None
    }
}

/// Tests whether a boolean literal's bytes spell the true word.
fn is_true_word(v: &Vec<u8>) -> (r: bool)
    ensures
        r == (v@ == lit_true()),
{
    if v.len() == 4 && v[0] == 116 && v[1] == 114 && v[2] == 117 && v[3] == 101 {
        proof {
            assert(v@ =~= lit_true());
        }
        true
    } else {
        proof {
            if v@ == lit_true() {
                assert(v@.len() == 4);
                assert(v@[0] == 116 && v@[1] == 114 && v@[2] == 117 && v@[3] == 101);
            }
        }
        false
    }
}

// ---------------------------------------------------------------------------
// The model of the parse
// ---------------------------------------------------------------------------

/// The expression that starts at `pos`, or `Ok(None)` at the end of the
/// input, together with the position after it.
pub open spec fn spec_parse_expr(src: Seq<u8>, pos: int) -> (Result<Option<ExprV>, ParseErrorV>, int)
    decreases src.len() - pos, 1int,
{
    let (t, e) = spec_token_at(src, pos);
    match t.t_type {
        Type::OpenParen => {
            let (r, e2) = spec_parse_sexpr(src, pos);
            (
                match r {
                    Ok(Some(sx)) => Ok(Some(sx)),
                    Ok(None) => Ok(Some(ExprV::Empty)),
                    Err(err) => Err(err),
                },
                e2,
            )
        },
        Type::Int => if int_text_valid(t.value) {
            (Ok(Some(ExprV::Int(digits_value(t.value) as i64))), e)
        } else {
            (Err(ParseErrorV::InvalidIntLiteral(t)), e)
        },
        Type::Float => (Ok(Some(ExprV::Float(t.value))), e),
        Type::Bool => (Ok(Some(ExprV::Bool(t.value == lit_true()))), e),
        Type::Identifier => (Ok(Some(ExprV::Identifier(t.value))), e),
        Type::EOF => (Ok(None), pos),
        _ => (Err(ParseErrorV::UnexpectedToken(t)), pos),
    }
}

/// A parenthesized form at `pos`: `Ok(None)` models the empty form `()`.
pub open spec fn spec_parse_sexpr(src: Seq<u8>, pos: int) -> (Result<
    Option<ExprV>,
    ParseErrorV,
>, int)
    decreases src.len() - pos, 0int,
{
    let (t1, e1) = spec_token_at(src, pos);
    if t1.t_type != Type::OpenParen {
        // callers establish an opening parenthesis; this arm is unreachable
        (Err(ParseErrorV::UnexpectedToken(t1)), pos)
    } else {
        let (op, e2) = spec_token_at(src, e1);
        if op.t_type == Type::CloseParen {
            (Ok(None), e2)
        } else if op.t_type == Type::EOF {
            (Err(ParseErrorV::UnclosedSExpr(t1.loc)), e1)
        } else if pos < src.len() {
            let p2 = if pos < e2 && e2 <= src.len() {
                e2
            } else {
                src.len() as int
            };
            let (r, e3) = spec_parse_args(src, p2, t1.loc);
            (
                match r {
                    Ok(args) => Ok(Some(ExprV::SExpr { op, args })),
                    Err(err) => Err(err),
                },
                e3,
            )
        } else {
            // past the end only the end token matches; this arm is
            // unreachable
            (Err(ParseErrorV::UnclosedSExpr(t1.loc)), e1)
        }
    }
}

/// The arguments of a form: expressions up to and including the closing
/// parenthesis; the end of the input first is an unclosed form.
pub open spec fn spec_parse_args(src: Seq<u8>, pos: int, oploc: int) -> (Result<
    Seq<ExprV>,
    ParseErrorV,
>, int)
    decreases src.len() - pos, 2int,
{
    let (t, e) = spec_token_at(src, pos);
    if t.t_type == Type::CloseParen {
        (Ok(Seq::empty()), e)
    } else if t.t_type == Type::EOF {
        (Err(ParseErrorV::UnclosedSExpr(oploc)), pos)
    } else {
        let (r, e2) = spec_parse_expr(src, pos);
        match r {
            Ok(Some(ev)) => if pos < src.len() {
                let p2 = if pos < e2 && e2 <= src.len() {
                    e2
                } else {
                    src.len() as int
                };
                let (rest, e3) = spec_parse_args(src, p2, oploc);
                (
                    match rest {
                        Ok(s) => Ok(seq![ev] + s),
                        Err(err) => Err(err),
                    },
                    e3,
                )
            } else {
                // past the end only the end token matches; unreachable
                (Ok(seq![ev]), e2)
            },
            // an expression is always found here: the token is neither a
            // closing parenthesis nor the end; unreachable
            Ok(None) => (Ok(Seq::empty()), e2),
            Err(err) => (Err(err), e2),
        }
    }
}

/// The whole parse: expressions until the end of the input.
pub open spec fn spec_parse(src: Seq<u8>, pos: int) -> (Result<Seq<ExprV>, ParseErrorV>, int)
    decreases src.len() - pos, 2int,
{
    let (r, e) = spec_parse_expr(src, pos);
    match r {
        Ok(None) => (Ok(Seq::empty()), e),
        Ok(Some(ev)) => if pos < src.len() {
            let p2 = if pos < e && e <= src.len() {
                e
            } else {
                src.len() as int
            };
            let (rest, e2) = spec_parse(src, p2);
            (
                match rest {
                    Ok(s) => Ok(seq![ev] + s),
                    Err(err) => Err(err),
                },
                e2,
            )
        } else {
            // past the end only the end token matches; unreachable
            (Ok(seq![ev]), e)
        },
        Err(err) => (Err(err), e),
    }
}

// ---------------------------------------------------------------------------
// Positions only move forward, and stay inside the source
// ---------------------------------------------------------------------------

pub proof fn lemma_parse_expr_bounds(src: Seq<u8>, pos: int)
    requires
        0 <= pos <= src.len(),
    ensures
        pos <= spec_parse_expr(src, pos).1 <= src.len(),
        spec_parse_expr(src, pos).0 matches Ok(Some(_)) ==> pos < spec_parse_expr(src, pos).1,
        spec_parse_expr(src, pos).0 matches Ok(None) ==> spec_token_at(src, pos).0.t_type
            == Type::EOF,
    decreases src.len() - pos, 1int,
{
    lemma_token_at(src, pos);
    let (t, e) = spec_token_at(src, pos);
    if t.t_type == Type::OpenParen {
        lemma_parse_sexpr_bounds(src, pos);
    }
}

pub proof fn lemma_parse_sexpr_bounds(src: Seq<u8>, pos: int)
    requires
        0 <= pos <= src.len(),
        spec_token_at(src, pos).0.t_type == Type::OpenParen,
    ensures
        pos <= spec_parse_sexpr(src, pos).1 <= src.len(),
        spec_parse_sexpr(src, pos).0 is Ok ==> pos < spec_parse_sexpr(src, pos).1,
    decreases src.len() - pos, 0int,
{
    lemma_token_at(src, pos);
    let (t1, e1) = spec_token_at(src, pos);
    let (op, e2) = spec_token_at(src, e1);
    lemma_token_at(src, e1);
    if op.t_type == Type::CloseParen {
    } else if op.t_type == Type::EOF {
    } else {
        lemma_parse_args_bounds(src, e2, t1.loc);
    }
}

pub proof fn lemma_parse_args_bounds(src: Seq<u8>, pos: int, oploc: int)
    requires
        0 <= pos <= src.len(),
    ensures
        pos <= spec_parse_args(src, pos, oploc).1 <= src.len(),
    decreases src.len() - pos, 2int,
{
    lemma_token_at(src, pos);
    let (t, e) = spec_token_at(src, pos);
    if t.t_type == Type::CloseParen {
    } else if t.t_type == Type::EOF {
    } else {
        lemma_parse_expr_bounds(src, pos);
        let (r, e2) = spec_parse_expr(src, pos);
        match r {
            Ok(Some(ev)) => {
                lemma_parse_args_bounds(src, e2, oploc);
            },
            Ok(None) => {},
            Err(err) => {},
        }
    }
}

// ---------------------------------------------------------------------------
// The parser
// ---------------------------------------------------------------------------

pub open spec fn expr_opt_result_view(r: Result<Option<Expr>, ParseError>) -> Result<
    Option<ExprV>,
    ParseErrorV,
> {
    match r {
        Ok(Some(e)) => Ok(Some(expr_view(e))),
        Ok(None) => Ok(None),
        Err(err) => Err(err@),
    }
}

pub open spec fn exprs_result_view(r: Result<Vec<Expr>, ParseError>) -> Result<
    Seq<ExprV>,
    ParseErrorV,
> {
    match r {
        Ok(es) => Ok(exprs_view(es@)),
        Err(err) => Err(err@),
    }
}

/// Parses one line of source bytes into a sequence of expressions, owning
/// the lexer it reads from.
pub struct Parser<'a> {
    lexer: Lexer<'a>,
}

impl<'a> Parser<'a> {
    pub closed spec fn wf(&self) -> bool {
        self.lexer.wf()
    }

    pub closed spec fn src(&self) -> Seq<u8> {
        self.lexer.src()
    }

    pub closed spec fn pos(&self) -> int {
        self.lexer.pos()
    }

    pub fn new(source: &'a [u8]) -> (r: Self)
        ensures
            r.wf(),
            r.src() == source@,
            r.pos() == 0,
    {
        let lexer = Lexer::new(source);
        Parser { lexer }
    }

    /// Parses expressions until the end of the input, returning them in
    /// order, or the error that aborted the parse.
    #[verifier::loop_isolation(false)]
    pub fn parse(&mut self) -> (r: Result<Vec<Expr>, ParseError>)
        requires
            old(self).wf(),
        ensures
            final(self).wf(),
            final(self).src() == old(self).src(),
            exprs_result_view(r) == spec_parse(old(self).src(), old(self).pos()).0,
    {
        let ghost src = self.src();
        let ghost pos0 = self.pos();
        proof {
            self.lexer.lemma_wf();
        }
        let mut exprs: Vec<Expr> = Vec::new();
        loop
            invariant
                self.wf(),
                self.src() == src,
                0 <= self.pos() <= src.len(),
                spec_parse(src, pos0).1 == spec_parse(src, self.pos()).1,
                spec_parse(src, pos0).0 == match spec_parse(src, self.pos()).0 {
                    Ok(s) => Ok::<Seq<ExprV>, ParseErrorV>(exprs_view(exprs@) + s),
                    Err(err) => Err(err),
                },
            decreases src.len() - self.pos(),
        {
            let ghost cur = self.pos();
            proof {
                lemma_parse_expr_bounds(src, cur);
                lemma_token_at(src, cur);
            }
            match self.parse_expr() {
                Ok(Some(e)) => {
                    proof {
                        lemma_exprs_view_push(exprs@, e);
                        let (rest, _) = spec_parse(src, self.pos());
                        if rest is Ok {
                            assert(exprs_view(exprs@) + (seq![expr_view(e)] + rest->Ok_0)
                                =~= exprs_view(exprs@.push(e)) + rest->Ok_0);
                        }
                    }
                    exprs.push(e);
                },
                Ok(None) => {
                    proof {
                        assert(exprs_view(exprs@) + Seq::<ExprV>::empty() =~= exprs_view(exprs@));
                    }
                    return Ok(exprs);
                },
                Err(err) => {
                    return Err(err);
                },
            }
        }
    }

    /// Parses the expression that starts at the current position;
    /// `Ok(None)` at the end of the input.
    fn parse_expr(&mut self) -> (r: Result<Option<Expr>, ParseError>)
        requires
            old(self).wf(),
        ensures
            final(self).wf(),
            final(self).src() == old(self).src(),
            expr_opt_result_view(r) == spec_parse_expr(old(self).src(), old(self).pos()).0,
            final(self).pos() == spec_parse_expr(old(self).src(), old(self).pos()).1,
        decreases old(self).src().len() - old(self).pos(), 1int,
    {
        let tok = self.lexer.peek();
        match tok.t_type {
            Type::OpenParen => {
                match self.parse_sexpr() {
                    Ok(Some(sx)) => Ok(Some(Expr::SExpr(sx))),
                    Ok(None) => Ok(Some(Expr::Empty)),
                    Err(err) => Err(err),
                }
            },
            Type::Int => {
                let tok = self.lexer.take();
                match parse_int(&tok.value) {
                    Some(i) => Ok(Some(Expr::Int(i))),
                    None => Err(ParseError::InvalidIntLiteral(tok)),
                }
            },
            Type::Float => {
                let tok = self.lexer.take();
                Ok(Some(Expr::Float(tok.value)))
            },
            Type::Bool => {
                let tok = self.lexer.take();
                let b = is_true_word(&tok.value);
                Ok(Some(Expr::Bool(b)))
            },
            Type::Identifier => {
                let ident = self.lexer.take();
                Ok(Some(Expr::Identifier(ident.value)))
            },
            Type::EOF => Ok(None),
            _ => Err(ParseError::UnexpectedToken(tok)),
        }
    }

    /// Parses a parenthesized form; `Ok(None)` is the empty form `()`.
    #[verifier::loop_isolation(false)]
    fn parse_sexpr(&mut self) -> (r: Result<Option<SExpr>, ParseError>)
        requires
            old(self).wf(),
            spec_token_at(old(self).src(), old(self).pos()).0.t_type == Type::OpenParen,
        ensures
            final(self).wf(),
            final(self).src() == old(self).src(),
            match r {
                Ok(Some(sx)) => spec_parse_sexpr(old(self).src(), old(self).pos()).0 == Ok::<
                    Option<ExprV>,
                    ParseErrorV,
                >(Some(ExprV::SExpr { op: sx.op@, args: exprs_view(sx.args@) })),
                Ok(None) => spec_parse_sexpr(old(self).src(), old(self).pos()).0 == Ok::<
                    Option<ExprV>,
                    ParseErrorV,
                >(None),
                Err(err) => spec_parse_sexpr(old(self).src(), old(self).pos()).0 == Err::<
                    Option<ExprV>,
                    ParseErrorV,
                >(err@),
            },
            final(self).pos() == spec_parse_sexpr(old(self).src(), old(self).pos()).1,
        decreases old(self).src().len() - old(self).pos(), 0int,
    {
        let ghost src = self.src();
        let ghost pos0 = self.pos();
        proof {
            self.lexer.lemma_wf();
            lemma_token_at(src, pos0);
        }
        let open_tok = self.lexer.take();
        proof {
            lemma_token_at(src, self.pos());
        }
        let op = self.lexer.take();
        if op.t_type == Type::CloseParen {
            return Ok(None);
        }
        if op.t_type == Type::EOF {
            return Err(ParseError::UnclosedSExpr(open_tok.loc));
        }
        let ghost args_pos = self.pos();
        let ghost oploc = open_tok.loc as int;
        proof {
            lemma_parse_args_bounds(src, args_pos, oploc);
        }
        let mut args: Vec<Expr> = Vec::new();
        loop
            invariant
                self.wf(),
                self.src() == src,
                pos0 < self.pos(),
                0 <= self.pos() <= src.len(),
                spec_parse_args(src, args_pos, oploc).1 == spec_parse_args(
                    src,
                    self.pos(),
                    oploc,
                ).1,
                spec_parse_args(src, args_pos, oploc).0 == match spec_parse_args(
                    src,
                    self.pos(),
                    oploc,
                ).0 {
                    Ok(s) => Ok::<Seq<ExprV>, ParseErrorV>(exprs_view(args@) + s),
                    Err(err) => Err(err),
                },
                spec_parse_sexpr(src, pos0).1 == spec_parse_args(src, args_pos, oploc).1,
                spec_parse_sexpr(src, pos0).0 == match spec_parse_args(src, args_pos, oploc).0 {
                    Ok(s) => Ok::<Option<ExprV>, ParseErrorV>(Some(ExprV::SExpr { op: op@, args: s })),
                    Err(err) => Err(err),
                },
            decreases src.len() - self.pos(),
        {
            let ghost cur = self.pos();
            proof {
                lemma_token_at(src, cur);
                lemma_parse_expr_bounds(src, cur);
            }
            let t = self.lexer.peek();
            if t.t_type == Type::CloseParen {
                let _ = self.lexer.take();
                proof {
                    assert(exprs_view(args@) + Seq::<ExprV>::empty() =~= exprs_view(args@));
                }
                return Ok(Some(SExpr { op, args }));
            }
            if t.t_type == Type::EOF {
                return Err(ParseError::UnclosedSExpr(open_tok.loc));
            }
            match self.parse_expr() {
                Ok(Some(e)) => {
                    proof {
                        lemma_exprs_view_push(args@, e);
                        let (rest, _) = spec_parse_args(src, self.pos(), oploc);
                        if rest is Ok {
                            assert(exprs_view(args@) + (seq![expr_view(e)] + rest->Ok_0)
                                =~= exprs_view(args@.push(e)) + rest->Ok_0);
                        }
                    }
                    args.push(e);
                },
                Ok(None) => {
                    // unreachable: the pending token is neither a closing
                    // parenthesis nor the end of the input
                    proof {
                        assert(false);
                    }
                    return Err(ParseError::UnclosedSExpr(open_tok.loc));
                },
                Err(err) => {
                    return Err(err);
                },
            }
        }
    }
}

} // verus!
