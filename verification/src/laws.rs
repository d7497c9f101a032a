//! Laws of the pipeline, stated over the mathematical model and proved once
//! and for all: they hold of the executable lexer, parser and interpreter
//! through the contracts that tie those to the model.

use vstd::prelude::*;
use crate::ast::ExprV;
use crate::interp::{
    eval_expr, eval_exprs, eval_first_then_fold, eval_fold, eval_sexpr, EvalErrorV,
};
use crate::lexer::{
    is_ws, lemma_num_end, lemma_ws_end, num_end, spec_token_at, ws_end,
};
use crate::parser::{
    all_num_bytes, digits_value, has_digit, spec_parse, spec_parse_expr, ParseErrorV,
};
use crate::token::{SpecToken, Type};
use crate::value::ValueV;

verus! {

/// Law: a valid integer literal — only digits and underscores, at least one
/// digit, value within the 64-bit signed range — lexed and parsed on its
/// own round-trips to exactly the integer it denotes.
pub proof fn lemma_int_literal_round_trip(src: Seq<u8>)
    requires
        src.len() > 0,
        all_num_bytes(src),
        has_digit(src),
        digits_value(src) <= i64::MAX,
    ensures
        spec_parse(src, 0).0 == Ok::<Seq<ExprV>, ParseErrorV>(
            seq![ExprV::Int(digits_value(src) as i64)],
        ),
{
    let n = src.len() as int;
    let v = ExprV::Int(digits_value(src) as i64);
    assert(ws_end(src, 0) == 0);
    lemma_num_end(src, 0);
    assert(num_end(src, 0) == n);
    assert(src.subrange(0, n) =~= src);
    assert(spec_token_at(src, 0).0.t_type == Type::Int);
    assert(spec_token_at(src, 0).0.value == src);
    assert(spec_parse_expr(src, 0) == (Ok::<Option<ExprV>, ParseErrorV>(Some(v)), n));
    lemma_ws_end(src, n);
    assert(ws_end(src, n) == n);
    assert(spec_token_at(src, n).0.t_type == Type::EOF);
    assert(spec_parse_expr(src, n) == (Ok::<Option<ExprV>, ParseErrorV>(None), n));
    assert(spec_parse(src, n).0 == Ok::<Seq<ExprV>, ParseErrorV>(Seq::<ExprV>::empty()));
    assert(seq![v] + Seq::<ExprV>::empty() =~= seq![v]);
    assert(spec_parse(src, 0).0 == Ok::<Seq<ExprV>, ParseErrorV>(seq![v]));
}

/// Law: a whitespace-only line parses to an empty expression sequence, and
/// evaluating an empty sequence yields the empty value and leaves any
/// environment unchanged.
pub proof fn lemma_whitespace_only_line(src: Seq<u8>, env: Map<Seq<u8>, ValueV>)
    requires
        forall|i: int| 0 <= i < src.len() ==> is_ws(src[i]),
    ensures
        spec_parse(src, 0).0 == Ok::<Seq<ExprV>, ParseErrorV>(Seq::<ExprV>::empty()),
        eval_exprs(env, Seq::<ExprV>::empty()) == (env, Ok::<ValueV, EvalErrorV>(ValueV::Nil)),
{
    lemma_ws_end(src, 0);
    assert(ws_end(src, 0) == src.len());
}

/// Law: each arithmetic operator applied to no arguments yields the empty
/// value and leaves the environment unchanged.
pub proof fn lemma_zero_arguments(env: Map<Seq<u8>, ValueV>, op: SpecToken)
    requires
        op.t_type == Type::Plus || op.t_type == Type::Minus || op.t_type == Type::Multiply
            || op.t_type == Type::Divide,
    ensures
        eval_sexpr(env, op, Seq::<ExprV>::empty()) == (env, Ok::<ValueV, EvalErrorV>(ValueV::Nil)),
{
}

/// Law: minus, multiply and divide with a single argument return that
/// argument's integer value unchanged — no negation, no reciprocal — and
/// leave the environment as evaluating the argument left it.
pub proof fn lemma_single_argument_identity(
    env: Map<Seq<u8>, ValueV>,
    op: SpecToken,
    arg: ExprV,
    v: i64,
)
    requires
        op.t_type == Type::Minus || op.t_type == Type::Multiply || op.t_type == Type::Divide,
        eval_expr(env, arg).1 == Ok::<ValueV, EvalErrorV>(ValueV::Int(v)),
    ensures
        eval_sexpr(env, op, seq![arg]) == (eval_expr(env, arg).0, Ok::<ValueV, EvalErrorV>(
            ValueV::Int(v),
        )),
{
    let args = seq![arg];
    assert(args[0] == arg);
    let env1 = eval_expr(env, arg).0;
    assert(eval_fold(env1, args, 1, v, op.t_type) == (env1, Ok::<ValueV, EvalErrorV>(ValueV::Int(v))));
    assert(eval_first_then_fold(env, args, op.t_type) == (env1, Ok::<ValueV, EvalErrorV>(
        ValueV::Int(v),
    )));
}

/// Law: a well-formed `let` evaluates its second argument, binds the result
/// under the name — inserting or overwriting — returns the empty value, and
/// a lookup of that name afterwards yields the bound value.
pub proof fn lemma_let_binds_and_lookup(
    env: Map<Seq<u8>, ValueV>,
    op: SpecToken,
    name: Seq<u8>,
    arg: ExprV,
    v: ValueV,
)
    requires
        op.t_type == Type::Let,
        eval_expr(env, arg).1 == Ok::<ValueV, EvalErrorV>(v),
    ensures
        eval_sexpr(env, op, seq![ExprV::Identifier(name), arg]) == (
            eval_expr(env, arg).0.insert(name, v),
            Ok::<ValueV, EvalErrorV>(ValueV::Nil),
        ),
        eval_expr(eval_expr(env, arg).0.insert(name, v), ExprV::Identifier(name)).1 == Ok::<
            ValueV,
            EvalErrorV,
        >(v),
{
    let args = seq![ExprV::Identifier(name), arg];
    assert(args[0] == ExprV::Identifier(name));
    assert(args[1] == arg);
}

/// Law: referencing a name with no binding is an unknown-identifier error
/// naming it, and leaves the environment unchanged.
pub proof fn lemma_unknown_identifier(env: Map<Seq<u8>, ValueV>, name: Seq<u8>)
    requires
        !env.contains_key(name),
    ensures
        eval_expr(env, ExprV::Identifier(name)) == (env, Err::<ValueV, EvalErrorV>(
            EvalErrorV::UnknownIdentifier(name),
        )),
{
}

} // verus!
