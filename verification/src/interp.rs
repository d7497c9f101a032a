//! Tree-walking evaluation with a persistent identifier environment.
//! `eval_expr` and its companions are the mathematical model: they thread
//! the environment through every evaluation step, so a binding made before
//! an error survives exactly as the executable interpreter leaves it.

use vstd::prelude::*;
use crate::ast::{Expr, ExprV, SExpr, expr_view, exprs_view};
use crate::token::{SpecToken, Token, Type};
use crate::value::{Value, ValueV};

verus! {

// ---------------------------------------------------------------------------
// Errors
// ---------------------------------------------------------------------------

/// Why an evaluation was aborted.
#[derive(Debug)]
pub enum EvalError {
    /// An identifier was referenced with no binding in the environment.
    UnknownIdentifier(Vec<u8>),
    /// An arithmetic operator met an operand that is not an integer: an
    /// empty value, a float or a boolean. Carries the offending value.
    InvalidOperand(Value),
    /// A division with a zero divisor.
    DivisionByZero,
    /// An arithmetic step left the 64-bit signed range.
    Overflow,
    /// `let` with no argument at all.
    LetMissingIdentifier,
    /// `let` whose first argument is not an identifier.
    LetNonIdentifier,
    /// `let` with an argument count other than two.
    LetWrongArity,
    /// A token kind with no evaluation rule stood as an operator. Carries
    /// the token, with its text and kind.
    UnknownOperator(Token),
}

/// The mathematical model of an evaluation error.
pub enum EvalErrorV {
    UnknownIdentifier(Seq<u8>),
    InvalidOperand(ValueV),
    DivisionByZero,
    Overflow,
    LetMissingIdentifier,
    LetNonIdentifier,
    LetWrongArity,
    UnknownOperator(SpecToken),
}

impl View for EvalError {
    type V = EvalErrorV;

    open spec fn view(&self) -> EvalErrorV {
        match self {
            EvalError::UnknownIdentifier(n) => EvalErrorV::UnknownIdentifier(n@),
            EvalError::InvalidOperand(v) => EvalErrorV::InvalidOperand(v@),
            EvalError::DivisionByZero => EvalErrorV::DivisionByZero,
            EvalError::Overflow => EvalErrorV::Overflow,
            EvalError::LetMissingIdentifier => EvalErrorV::LetMissingIdentifier,
            EvalError::LetNonIdentifier => EvalErrorV::LetNonIdentifier,
            EvalError::LetWrongArity => EvalErrorV::LetWrongArity,
            EvalError::UnknownOperator(t) => EvalErrorV::UnknownOperator(t@),
        }
    }
}

pub open spec fn value_result_view(r: Result<Value, EvalError>) -> Result<ValueV, EvalErrorV> {
    match r {
        Ok(v) => Ok(v@),
        Err(err) => Err(err@),
    }
}

// ---------------------------------------------------------------------------
// The environment
// ---------------------------------------------------------------------------

/// The map denoted by a list of bindings: later entries win.
pub open spec fn map_of(entries: Seq<(Seq<u8>, ValueV)>) -> Map<Seq<u8>, ValueV>
    decreases entries.len(),
{
    if entries.len() == 0 {
        Map::empty()
    } else {
        map_of(entries.drop_last()).insert(entries.last().0, entries.last().1)
    }
}

pub open spec fn entries_view(entries: Seq<(Vec<u8>, Value)>) -> Seq<(Seq<u8>, ValueV)> {
    Seq::new(
        entries.len(),
        |i: int|
            if 0 <= i < entries.len() {
                (entries[i].0@, entries[i].1@)
            } else {
                (Seq::empty(), ValueV::Nil)
            },
    )
}

/// The identifier environment: a name-to-value mapping in which an insert
/// binds or overwrites and nothing is ever removed.
pub struct Env {
    entries: Vec<(Vec<u8>, Value)>,
}

impl View for Env {
    type V = Map<Seq<u8>, ValueV>;

    closed spec fn view(&self) -> Map<Seq<u8>, ValueV> {
        map_of(entries_view(self.entries@))
    }
}

fn bytes_eq(a: &Vec<u8>, b: &Vec<u8>) -> (r: bool)
    ensures
        r == (a@ == b@),
{
    if a.len() != b.len() {
        return false;
    }
    let n = a.len();
    let mut i: usize = 0;
    while i < n
        invariant
            0 <= i <= n,
            n == a@.len() == b@.len(),
            forall|k: int| 0 <= k < i ==> a@[k] == b@[k],
        decreases n - i,
    {
        if a[i] != b[i] {
            return false;
        }
        i = i + 1;
    }
    proof {
        assert(a@ =~= b@);
    }
    true
}

impl Env {
    pub fn new() -> (r: Self)
        ensures
            r@ == Map::<Seq<u8>, ValueV>::empty(),
    {
        Env { entries: Vec::new() }
    }

    /// The value bound to a name, newest binding first.
    pub fn get(&self, name: &Vec<u8>) -> (r: Option<Value>)
        ensures
            match r {
                Some(v) => self@.contains_key(name@) && v@ == self@[name@],
                None => !self@.contains_key(name@),
            },
    {
        let ghost ev = entries_view(self.entries@);
        let mut j = self.entries.len();
        proof {
            assert(ev.subrange(0, j as int) =~= ev);
        }
        while j > 0
            invariant
                0 <= j <= self.entries@.len(),
                ev == entries_view(self.entries@),
                self@.contains_key(name@) <==> map_of(ev.subrange(0, j as int)).contains_key(
                    name@,
                ),
                self@.contains_key(name@) ==> self@[name@] == map_of(ev.subrange(0, j as int))[
                    name@
                ],
            decreases j,
        {
            proof {
                assert(ev.subrange(0, j as int).drop_last() =~= ev.subrange(0, j - 1));
                assert(ev.subrange(0, j as int).last() == ev[j - 1]);
            }
            let entry_name = &self.entries[j - 1].0;
            if bytes_eq(entry_name, name) {
                return Some(self.entries[j - 1].1.clone());
            }
            j = j - 1;
        }
        proof {
            assert(ev.subrange(0, 0) =~= Seq::<(Seq<u8>, ValueV)>::empty());
        }
        None
    }

    /// Binds or overwrites a name.
    pub fn insert(&mut self, name: Vec<u8>, value: Value)
        ensures
            final(self)@ == old(self)@.insert(name@, value@),
    {
        let ghost old_entries = self.entries@;
        let ghost pair = (name@, value@);
        self.entries.push((name, value));
        proof {
            assert(entries_view(self.entries@).drop_last() =~= entries_view(old_entries));
            assert(entries_view(self.entries@).last() == pair);
        }
    }
}

// ---------------------------------------------------------------------------
// The model of evaluation
// ---------------------------------------------------------------------------

/// A mathematical integer squeezed back into 64 bits, or an overflow error.
pub open spec fn in_i64(v: int) -> Result<i64, EvalErrorV> {
    if i64::MIN <= v <= i64::MAX {
        Ok(v as i64)
    } else {
        Err(EvalErrorV::Overflow)
    }
}

/// Division truncating toward zero, as the machine divides.
pub open spec fn trunc_div(a: int, b: int) -> int {
    let abs_a = if a < 0 {
        -a
    } else {
        a
    };
    let abs_b = if b < 0 {
        -b
    } else {
        b
    };
    let q = abs_a / abs_b;
    if (a < 0) != (b < 0) {
        -q
    } else {
        q
    }
}

/// One arithmetic step of a fold.
pub open spec fn apply_op(acc: i64, j: i64, op: Type) -> Result<i64, EvalErrorV> {
    match op {
        Type::Plus => in_i64(acc + j),
        Type::Minus => in_i64(acc - j),
        Type::Multiply => in_i64(acc * j),
        Type::Divide => if j == 0 {
            Err(EvalErrorV::DivisionByZero)
        } else {
            in_i64(trunc_div(acc as int, j as int))
        },
        // the fold is only ever applied to the four operators above
        _ => Err(EvalErrorV::Overflow),
    }
}

/// Folds the arguments from index `i` into `acc`, left to right: each must
/// evaluate to an integer, and environment changes made before an error
/// stay.
pub open spec fn eval_fold(
    env: Map<Seq<u8>, ValueV>,
    args: Seq<ExprV>,
    i: int,
    acc: i64,
    op: Type,
) -> (Map<Seq<u8>, ValueV>, Result<ValueV, EvalErrorV>)
    decreases args, args.len() - i, 1int,
{
    if 0 <= i < args.len() {
        let (env1, r) = eval_expr(env, args[i]);
        match r {
            Ok(v) => match v {
                ValueV::Int(j) => match apply_op(acc, j, op) {
                    Ok(next) => eval_fold(env1, args, i + 1, next, op),
                    Err(err) => (env1, Err(err)),
                },
                _ => (env1, Err(EvalErrorV::InvalidOperand(v))),
            },
            Err(err) => (env1, Err(err)),
        }
    } else {
        (env, Ok(ValueV::Int(acc)))
    }
}

/// Minus, multiply and divide: no arguments is the empty value; otherwise
/// the first argument starts the running total and the rest fold into it.
pub open spec fn eval_first_then_fold(
    env: Map<Seq<u8>, ValueV>,
    args: Seq<ExprV>,
    op: Type,
) -> (Map<Seq<u8>, ValueV>, Result<ValueV, EvalErrorV>)
    decreases args, args.len(), 1int,
{
    if args.len() == 0 {
        (env, Ok(ValueV::Nil))
    } else {
        let (env1, r) = eval_expr(env, args[0]);
        match r {
            Ok(v) => match v {
                ValueV::Int(first) => eval_fold(env1, args, 1, first, op),
                _ => (env1, Err(EvalErrorV::InvalidOperand(v))),
            },
            Err(err) => (env1, Err(err)),
        }
    }
}

/// Dispatch on the operator token of a parenthesized form.
pub open spec fn eval_sexpr(
    env: Map<Seq<u8>, ValueV>,
    op: SpecToken,
    args: Seq<ExprV>,
) -> (Map<Seq<u8>, ValueV>, Result<ValueV, EvalErrorV>)
    decreases args, args.len(), 2int,
{
    match op.t_type {
        Type::Plus => if args.len() == 0 {
            (env, Ok(ValueV::Nil))
        } else {
            eval_fold(env, args, 0, 0, Type::Plus)
        },
        Type::Minus => eval_first_then_fold(env, args, Type::Minus),
        Type::Multiply => eval_first_then_fold(env, args, Type::Multiply),
        Type::Divide => eval_first_then_fold(env, args, Type::Divide),
        Type::Let => if args.len() == 0 {
            (env, Err(EvalErrorV::LetMissingIdentifier))
        } else {
            match args[0] {
                ExprV::Identifier(name) => if args.len() != 2 {
                    (env, Err(EvalErrorV::LetWrongArity))
                } else {
                    let (env1, r) = eval_expr(env, args[1]);
                    match r {
                        Ok(v) => (env1.insert(name, v), Ok(ValueV::Nil)),
                        Err(err) => (env1, Err(err)),
                    }
                },
                _ => (env, Err(EvalErrorV::LetNonIdentifier)),
            }
        },
        _ => (env, Err(EvalErrorV::UnknownOperator(op))),
    }
}

/// The value of one expression, and the environment it leaves behind.
pub open spec fn eval_expr(env: Map<Seq<u8>, ValueV>, e: ExprV) -> (
    Map<Seq<u8>, ValueV>,
    Result<ValueV, EvalErrorV>,
)
    decreases e, 0int, 0int,
{
    match e {
        ExprV::SExpr { op, args } => eval_sexpr(env, op, args),
        ExprV::Int(i) => (env, Ok(ValueV::Int(i))),
        ExprV::Identifier(name) => if env.contains_key(name) {
            (env, Ok(env[name]))
        } else {
            (env, Err(EvalErrorV::UnknownIdentifier(name)))
        },
        ExprV::Bool(b) => (env, Ok(ValueV::Bool(b))),
        ExprV::Float(t) => (env, Ok(ValueV::Float(t))),
        ExprV::Empty => (env, Ok(ValueV::Nil)),
    }
}

/// Evaluates the expressions from index `i` in order; `acc` is the value of
/// the last one already evaluated.
pub open spec fn eval_exprs_from(
    env: Map<Seq<u8>, ValueV>,
    es: Seq<ExprV>,
    i: int,
    acc: ValueV,
) -> (Map<Seq<u8>, ValueV>, Result<ValueV, EvalErrorV>)
    decreases es, es.len() - i, 0int,
{
    if 0 <= i < es.len() {
        let (env1, r) = eval_expr(env, es[i]);
        match r {
            Ok(v) => eval_exprs_from(env1, es, i + 1, v),
            Err(err) => (env1, Err(err)),
        }
    } else {
        (env, Ok(acc))
    }
}

/// Evaluates a sequence of expressions in order: the value of the last one,
/// or the empty value for an empty sequence.
pub open spec fn eval_exprs(env: Map<Seq<u8>, ValueV>, es: Seq<ExprV>) -> (
    Map<Seq<u8>, ValueV>,
    Result<ValueV, EvalErrorV>,
) {
    eval_exprs_from(env, es, 0, ValueV::Nil)
}

// ---------------------------------------------------------------------------
// The interpreter
// ---------------------------------------------------------------------------

/// Division truncating toward zero, with the one overflowing quotient
/// reported as an error.
fn div_trunc(a: i64, b: i64) -> (r: Result<i64, EvalError>)
    requires
        b != 0,
    ensures
        match r {
            Ok(q) => apply_op(a, b, Type::Divide) == Ok::<i64, EvalErrorV>(q),
            Err(err) => apply_op(a, b, Type::Divide) == Err::<i64, EvalErrorV>(err@),
        },
{
    let neg = (a < 0) != (b < 0);
    let ua: u64 = if a == i64::MIN {
        9223372036854775808u64
    } else if a < 0 {
        (-a) as u64
    } else {
        a as u64
    };
    let ub: u64 = if b == i64::MIN {
        9223372036854775808u64
    } else if b < 0 {
        (-b) as u64
    } else {
        b as u64
    };
    let q = ua / ub;
    proof {
        assert(ua as int / ub as int <= ua as int) by (nonlinear_arith)
            requires
                ub >= 1,
                ua >= 0,
        ;
    }
    if neg {
        if q == 9223372036854775808u64 {
            Ok(i64::MIN)
        } else {
            Ok(-(q as i64))
        }
    } else {
        if q > i64::MAX as u64 {
            Err(EvalError::Overflow)
        } else {
            Ok(q as i64)
        }
    }
}

/// Walks parsed expressions and evaluates them, keeping the identifier
/// environment across calls for the life of the session.
pub struct Interp {
    identifiers: Env,
}

impl Interp {
    /// The identifier environment as a mapping.
    pub closed spec fn env(&self) -> Map<Seq<u8>, ValueV> {
        self.identifiers@
    }

    pub fn new() -> (r: Self)
        ensures
            r.env() == Map::<Seq<u8>, ValueV>::empty(),
    {
        Interp { identifiers: Env::new() }
    }

    /// Evaluates the expressions in order and returns the last value, or
    /// the empty value for an empty sequence; `let` bindings persist.
    #[verifier::loop_isolation(false)]
    pub fn interp(&mut self, exprs: Vec<Expr>) -> (r: Result<Value, EvalError>)
        ensures
            final(self).env() == eval_exprs(old(self).env(), exprs_view(exprs@)).0,
            value_result_view(r) == eval_exprs(old(self).env(), exprs_view(exprs@)).1,
    {
        let ghost env0 = self.env();
        let ghost ev = exprs_view(exprs@);
        let mut value = Value::Nil;
        let mut i: usize = 0;
        proof {
            assert(value@ == ValueV::Nil);
        }
        while i < exprs.len()
            invariant
                0 <= i <= exprs@.len(),
                ev == exprs_view(exprs@),
                eval_exprs_from(env0, ev, 0, ValueV::Nil) == eval_exprs_from(
                    self.env(),
                    ev,
                    i as int,
                    value@,
                ),
            decreases exprs@.len() - i,
        {
            match self.interp_expr(&exprs[i]) {
                Ok(v) => {
                    value = v;
                },
                Err(err) => {
                    return Err(err);
                },
            }
            i = i + 1;
        }
        Ok(value)
    }

    /// Evaluates one expression against the current environment.
    pub fn interp_expr(&mut self, expr: &Expr) -> (r: Result<Value, EvalError>)
        ensures
            final(self).env() == eval_expr(old(self).env(), expr_view(*expr)).0,
            value_result_view(r) == eval_expr(old(self).env(), expr_view(*expr)).1,
        decreases expr, 2int,
    {
        match expr {
            Expr::SExpr(s) => self.interp_sexpr(s),
            Expr::Int(i) => Ok(Value::Int(*i)),
            Expr::Identifier(name) => match self.identifiers.get(name) {
                Some(v) => Ok(v),
                None => Err(
                    EvalError::UnknownIdentifier(vstd::slice::slice_to_vec(name.as_slice())),
                ),
            },
            Expr::Bool(b) => Ok(Value::Bool(*b)),
            Expr::Float(t) => Ok(Value::Float(vstd::slice::slice_to_vec(t.as_slice()))),
            Expr::Empty => Ok(Value::Nil),
        }
    }

    /// Evaluates a parenthesized form by its operator's rule.
    fn interp_sexpr(&mut self, sexpr: &SExpr) -> (r: Result<Value, EvalError>)
        ensures
            final(self).env() == eval_sexpr(old(self).env(), sexpr.op@, exprs_view(sexpr.args@)).0,
            value_result_view(r) == eval_sexpr(
                old(self).env(),
                sexpr.op@,
                exprs_view(sexpr.args@),
            ).1,
        decreases sexpr, 2int,
    {
        let ghost env0 = self.env();
        let ghost argsv = exprs_view(sexpr.args@);
        match sexpr.op.t_type {
            Type::Plus => {
                if sexpr.args.len() == 0 {
                    return Ok(Value::Nil);
                }
                self.fold_args(sexpr, 0, 0, Type::Plus, Ghost(env0))
            },
            Type::Minus => self.first_then_fold(sexpr, Type::Minus, Ghost(env0)),
            Type::Multiply => self.first_then_fold(sexpr, Type::Multiply, Ghost(env0)),
            Type::Divide => self.first_then_fold(sexpr, Type::Divide, Ghost(env0)),
            Type::Let => {
                if sexpr.args.len() == 0 {
                    return Err(EvalError::LetMissingIdentifier);
                }
                let name = match &sexpr.args[0] {
                    Expr::Identifier(n) => n,
                    _ => {
                        return Err(EvalError::LetNonIdentifier);
                    },
                };
                if sexpr.args.len() != 2 {
                    return Err(EvalError::LetWrongArity);
                }
                let value = match self.interp_expr(&sexpr.args[1]) {
                    Ok(v) => v,
                    Err(err) => {
                        return Err(err);
                    },
                };
                let key = vstd::slice::slice_to_vec(name.as_slice());
                self.identifiers.insert(key, value);
                Ok(Value::Nil)
            },
            _ => Err(EvalError::UnknownOperator(sexpr.op.clone())),
        }
    }

    /// The minus, multiply and divide rule: the first argument starts the
    /// running total.
    fn first_then_fold(&mut self, sexpr: &SExpr, op: Type, Ghost(env0): Ghost<
        Map<Seq<u8>, ValueV>,
    >) -> (r: Result<Value, EvalError>)
        requires
            env0 == old(self).env(),
            op == Type::Minus || op == Type::Multiply || op == Type::Divide,
        ensures
            final(self).env() == eval_first_then_fold(env0, exprs_view(sexpr.args@), op).0,
            value_result_view(r) == eval_first_then_fold(env0, exprs_view(sexpr.args@), op).1,
        decreases sexpr, 1int,
    {
        let ghost argsv = exprs_view(sexpr.args@);
        if sexpr.args.len() == 0 {
            return Ok(Value::Nil);
        }
        let first = match self.interp_expr(&sexpr.args[0]) {
            Ok(v) => v,
            Err(err) => {
                return Err(err);
            },
        };
        let total = match first {
            Value::Int(i) => i,
            other => {
                return Err(EvalError::InvalidOperand(other));
            },
        };
        self.fold_args(sexpr, total, 1, op, Ghost(self.env()))
    }

    /// The common fold: arguments from index `i` join the running total.
    #[verifier::loop_isolation(false)]
    fn fold_args(
        &mut self,
        sexpr: &SExpr,
        total: i64,
        i: usize,
        op: Type,
        Ghost(env0): Ghost<Map<Seq<u8>, ValueV>>,
    ) -> (r: Result<Value, EvalError>)
        requires
            env0 == old(self).env(),
            i <= sexpr.args@.len(),
            op == Type::Plus || op == Type::Minus || op == Type::Multiply || op == Type::Divide,
        ensures
            final(self).env() == eval_fold(env0, exprs_view(sexpr.args@), i as int, total, op).0,
            value_result_view(r) == eval_fold(env0, exprs_view(sexpr.args@), i as int, total, op).1,
        decreases sexpr, 0int,
    {
        let ghost argsv = exprs_view(sexpr.args@);
        let ghost total0 = total;
        let mut total = total;
        let mut idx = i;
        while idx < sexpr.args.len()
            invariant
                i <= idx <= sexpr.args@.len(),
                argsv == exprs_view(sexpr.args@),
                op == Type::Plus || op == Type::Minus || op == Type::Multiply || op
                    == Type::Divide,
                eval_fold(env0, argsv, i as int, total0, op) == eval_fold(
                    self.env(),
                    argsv,
                    idx as int,
                    total,
                    op,
                ),
            decreases sexpr.args@.len() - idx,
        {
            let arg = match self.interp_expr(&sexpr.args[idx]) {
                Ok(v) => v,
                Err(err) => {
                    return Err(err);
                },
            };
            let j = match arg {
                Value::Int(j) => j,
                other => {
                    return Err(EvalError::InvalidOperand(other));
                },
            };
            let stepped: Result<i64, EvalError> = match op {
                Type::Plus => match total.checked_add(j) {
                    Some(v) => Ok(v),
                    None => Err(EvalError::Overflow),
                },
                Type::Minus => match total.checked_sub(j) {
                    Some(v) => Ok(v),
                    None => Err(EvalError::Overflow),
                },
                Type::Multiply => match total.checked_mul(j) {
                    Some(v) => Ok(v),
                    None => Err(EvalError::Overflow),
                },
                _ => {
                    if j == 0 {
                        Err(EvalError::DivisionByZero)
                    } else {
                        div_trunc(total, j)
                    }
                },
            };
            match stepped {
                Ok(v) => {
                    total = v;
                },
                Err(err) => {
                    return Err(err);
                },
            }
            idx = idx + 1;
        }
        Ok(Value::Int(total))
    }
}

} // verus!
