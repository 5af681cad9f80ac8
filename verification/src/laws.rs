//! Laws of the interpreter, stated over the spec-level parser and evaluator
//! and proved once and for all.

use vstd::prelude::*;

use crate::ast::{
    BooleanV, CallExpressionV, ExprV, IfExpressionV, InfixExpressionV, IntegerLiteralV,
    PrefixExpressionV, StmtV,
};
use crate::eval::{
    eval_expr_s, eval_exprs_s, eval_ident_s, eval_prog_from_s, eval_stmt_s, is_error_v,
    is_return_v, run_s,
};
use crate::lexer::lookup_ident_s;
use crate::numbers::{dec_digits, lemma_dec_digits_round_trip, lemma_dec_digits_wf};
use crate::object::{env_get_s, inspect_s, EnvV, ObjV};
use crate::parser::{cur_tok, parse_int_lit_s, ParserV};
use crate::token::TokenType;

verus! {

/// Evaluation is deterministic: what a source string parses to and what a
/// program reduces to are functions of the source text and the starting
/// environment alone, so identical inputs yield identical outputs.
pub proof fn lemma_run_deterministic(src1: Seq<char>, src2: Seq<char>, env1: EnvV, env2: EnvV)
    requires
        src1 == src2,
        env1 == env2,
    ensures
        run_s(src1, env1) == run_s(src2, env2),
{
}

/// An expression that is an integer, string or boolean literal.
pub open spec fn is_literal_expr(e: ExprV) -> bool {
    e is IntegerLiteral || e is StringLiteral || e is Boolean
}

/// Every expression of the list is a literal.
pub open spec fn all_literal_exprs(l: Seq<ExprV>) -> bool {
    forall|i: int| 0 <= i < l.len() ==> is_literal_expr(#[trigger] l[i])
}

/// A literal evaluates to the same value in every environment, without
/// touching the environment, and never to an error.
proof fn lemma_literal_eval_env_free(fuel: nat, e: ExprV, env_a: EnvV, env_b: EnvV)
    requires
        is_literal_expr(e),
    ensures
        eval_expr_s(fuel, e, env_a).0 == eval_expr_s(fuel, e, env_b).0,
        eval_expr_s(fuel, e, env_a).1 == env_a,
        !is_error_v(eval_expr_s(fuel, e, env_a).0),
{
}

/// Literal argument lists evaluate to the same values in every environment.
proof fn lemma_literal_args_env_free(fuel: nat, l: Seq<ExprV>, env_a: EnvV, env_b: EnvV)
    requires
        all_literal_exprs(l),
    ensures
        eval_exprs_s(fuel, l, env_a) == eval_exprs_s(fuel, l, env_b),
    decreases l.len(),
{
    if l.len() > 0 {
        lemma_literal_eval_env_free(fuel, l[0], env_a, env_b);
        assert(all_literal_exprs(l.drop_first()));
        lemma_literal_args_env_free(fuel, l.drop_first(), env_a, env_b);
    }
}

/// The name a call's callee identifier refers to.
pub open spec fn callee_name(x: CallExpressionV) -> Seq<char> {
    match x.func {
        Some(f) => match *f {
            ExprV::Identifier(id) => id.value,
            _ => Seq::empty(),
        },
        None => Seq::empty(),
    }
}

/// Calling a closure by name reads the closure's own captured environment,
/// not the caller's: two environments that bind the callee's name to the
/// same value give a call with literal arguments the same result, no matter
/// what other bindings either environment holds.
pub proof fn lemma_call_depends_on_closure_only(
    fuel: nat,
    x: CallExpressionV,
    env_a: EnvV,
    env_b: EnvV,
)
    requires
        x.func is Some,
        (match x.func {
            Some(f) => (*f) is Identifier,
            None => false,
        }),
        env_get_s(env_a, callee_name(x)) == env_get_s(env_b, callee_name(x)),
        (match x.args {
            Some(l) => all_literal_exprs(l),
            None => true,
        }),
    ensures
        eval_expr_s(fuel, ExprV::CallExpression(x), env_a).0 == eval_expr_s(
            fuel,
            ExprV::CallExpression(x),
            env_b,
        ).0,
{
    match x.func {
        Some(f) => match *f {
            ExprV::Identifier(id) => {
                assert(eval_expr_s(fuel, *f, env_a) == (eval_ident_s(env_a, id.value), env_a));
                assert(eval_expr_s(fuel, *f, env_b) == (eval_ident_s(env_b, id.value), env_b));
                assert(eval_ident_s(env_a, id.value) == eval_ident_s(env_b, id.value));
            },
            _ => {
            },
        },
        None => {
        },
    }
    match x.args {
        Some(l) => {
            lemma_literal_args_env_free(fuel, l, env_a, env_b);
            assert(eval_exprs_s(fuel, l, env_a) == eval_exprs_s(fuel, l, env_b));
        },
        None => {
        },
    }
}

/// The outcome of applying a closure depends only on its parameter list,
/// the statements of its body, its captured environment and the argument
/// values: two closures that agree on those, applied to the same arguments,
/// give the same result — whatever else happened around them since capture.
pub proof fn lemma_apply_depends_only_on_closure(
    fuel: nat,
    f1: crate::object::FunctionV,
    f2: crate::object::FunctionV,
    args: Seq<ObjV>,
)
    requires
        f1.parameters == f2.parameters,
        f1.body.statements == f2.body.statements,
        f1.env == f2.env,
    ensures
        crate::eval::apply_function_s(fuel, ObjV::Function(f1), args)
            == crate::eval::apply_function_s(fuel, ObjV::Function(f2), args),
{
}

/// A prefix expression whose operand evaluates to an error is that same
/// error, message unchanged.
pub proof fn lemma_prefix_propagates_error(fuel: nat, x: PrefixExpressionV, env: EnvV, m: Seq<
    char,
>)
    requires
        (match x.right {
            Some(r) => eval_expr_s(fuel, *r, env).0 == ObjV::Error(m),
            None => false,
        }),
    ensures
        eval_expr_s(fuel, ExprV::PrefixExpression(x), env).0 == ObjV::Error(m),
{
}

/// An infix expression whose left operand evaluates to an error is that same
/// error, message unchanged.
pub proof fn lemma_infix_propagates_left_error(
    fuel: nat,
    x: InfixExpressionV,
    env: EnvV,
    m: Seq<char>,
)
    requires
        (match x.left {
            Some(l) => eval_expr_s(fuel, *l, env).0 == ObjV::Error(m),
            None => false,
        }),
    ensures
        eval_expr_s(fuel, ExprV::InfixExpression(x), env).0 == ObjV::Error(m),
{
}

/// An infix expression whose right operand evaluates to an error, after an
/// error-free left operand, is that same error, message unchanged.
pub proof fn lemma_infix_propagates_right_error(
    fuel: nat,
    x: InfixExpressionV,
    env: EnvV,
    m: Seq<char>,
)
    requires
        (match x.left {
            Some(l) => !is_error_v(eval_expr_s(fuel, *l, env).0),
            None => true,
        }),
        ({
            let env1 = match x.left {
                Some(l) => eval_expr_s(fuel, *l, env).1,
                None => env,
            };
            match x.right {
                Some(r) => eval_expr_s(fuel, *r, env1).0 == ObjV::Error(m),
                None => false,
            }
        }),
    ensures
        eval_expr_s(fuel, ExprV::InfixExpression(x), env).0 == ObjV::Error(m),
{
}

/// A let statement whose value expression evaluates to an error is that same
/// error, message unchanged, and it binds nothing.
pub proof fn lemma_let_propagates_error(
    fuel: nat,
    x: crate::ast::LetStatementV,
    env: EnvV,
    m: Seq<char>,
)
    requires
        (match x.value {
            Some(e) => eval_expr_s(fuel, *e, env).0 == ObjV::Error(m),
            None => false,
        }),
    ensures
        ({
            let (v, e2) = eval_stmt_s(fuel, StmtV::LetStatement(x), env);
            v == ObjV::Error(m) && (match x.value {
                Some(e) => e2 == eval_expr_s(fuel, *e, env).1,
                None => false,
            })
        }),
{
}

/// An if-expression whose condition evaluates to an error is that same
/// error, message unchanged.
pub proof fn lemma_if_propagates_error(fuel: nat, x: IfExpressionV, env: EnvV, m: Seq<char>)
    requires
        (match x.cond {
            Some(c) => eval_expr_s(fuel, *c, env).0 == ObjV::Error(m),
            None => false,
        }),
    ensures
        eval_expr_s(fuel, ExprV::IfExpression(x), env).0 == ObjV::Error(m),
{
    assert(crate::eval::eval_if_s(fuel, x, env).0 == ObjV::Error(m));
}

/// The value and environment after the first `i` statements of a block run,
/// starting from value `last` and environment `env`.
pub open spec fn block_step_s(fuel: nat, stmts: Seq<StmtV>, env: EnvV, last: ObjV, i: int) -> (
    ObjV,
    EnvV,
)
    decreases i,
{
    if i <= 0 {
        (last, env)
    } else {
        let (pl, pe) = block_step_s(fuel, stmts, env, last, i - 1);
        eval_stmt_s(fuel, stmts[i - 1], pe)
    }
}

proof fn lemma_block_step_shift(fuel: nat, stmts: Seq<StmtV>, env: EnvV, last: ObjV, i: int)
    requires
        0 <= i < stmts.len(),
    ensures
        block_step_s(fuel, stmts, env, last, i + 1) == block_step_s(
            fuel,
            stmts.drop_first(),
            eval_stmt_s(fuel, stmts[0], env).1,
            eval_stmt_s(fuel, stmts[0], env).0,
            i,
        ),
    decreases i,
{
    let (v0, e0) = eval_stmt_s(fuel, stmts[0], env);
    if i == 0 {
        assert(block_step_s(fuel, stmts, env, last, 0int) == (last, env));
        assert(block_step_s(fuel, stmts, env, last, 1int) == eval_stmt_s(fuel, stmts[0], env));
        assert(block_step_s(fuel, stmts.drop_first(), e0, v0, 0int) == (v0, e0));
    } else {
        lemma_block_step_shift(fuel, stmts, env, last, i - 1);
        assert(stmts.drop_first()[i - 1] == stmts[i]);
        assert(block_step_s(fuel, stmts, env, last, i + 1) == eval_stmt_s(
            fuel,
            stmts[i],
            block_step_s(fuel, stmts, env, last, i).1,
        ));
        assert(block_step_s(fuel, stmts.drop_first(), e0, v0, i) == eval_stmt_s(
            fuel,
            stmts.drop_first()[i - 1],
            block_step_s(fuel, stmts.drop_first(), e0, v0, i - 1).1,
        ));
    }
}

/// A block stops at its first error, message unchanged: if the first `k`
/// statements neither return nor error, and statement `k` evaluates — in
/// the environment those statements produced — to an error, that error is
/// the block's value; no later statement enters the result.
pub proof fn lemma_block_stops_at_error(
    fuel: nat,
    stmts: Seq<StmtV>,
    env: EnvV,
    last: ObjV,
    k: int,
    m: Seq<char>,
)
    requires
        0 <= k < stmts.len(),
        forall|j: int|
            0 <= j < k ==> !is_return_v(
                (#[trigger] block_step_s(fuel, stmts, env, last, j + 1)).0,
            ) && !is_error_v(block_step_s(fuel, stmts, env, last, j + 1).0),
        block_step_s(fuel, stmts, env, last, k + 1).0 == ObjV::Error(m),
    ensures
        crate::eval::eval_block_from_s(fuel, stmts, env, last).0 == ObjV::Error(m),
    decreases k,
{
    let (v0, e0) = eval_stmt_s(fuel, stmts[0], env);
    assert(block_step_s(fuel, stmts, env, last, 0int) == (last, env));
    assert(block_step_s(fuel, stmts, env, last, 1) == (v0, e0));
    if k == 0 {
        assert(is_error_v(v0));
    } else {
        assert(!is_return_v(v0) && !is_error_v(v0)) by {
            let j0: int = 0;
            assert(!is_return_v(block_step_s(fuel, stmts, env, last, j0 + 1).0) && !is_error_v(
                block_step_s(fuel, stmts, env, last, j0 + 1).0,
            ));
            assert(block_step_s(fuel, stmts, env, last, j0 + 1) == (v0, e0));
        }
        let rest = stmts.drop_first();
        assert forall|j: int| 0 <= j < k - 1 implies !is_return_v(
            (#[trigger] block_step_s(fuel, rest, e0, v0, j + 1)).0,
        ) && !is_error_v(block_step_s(fuel, rest, e0, v0, j + 1).0) by {
            lemma_block_step_shift(fuel, stmts, env, last, j + 1);
            assert(block_step_s(fuel, stmts, env, last, j + 2).0 == block_step_s(
                fuel,
                rest,
                e0,
                v0,
                j + 1,
            ).0);
        }
        lemma_block_step_shift(fuel, stmts, env, last, k);
        lemma_block_stops_at_error(fuel, rest, e0, v0, k - 1, m);
    }
}

/// A statement list whose first statement evaluates to an error makes the
/// whole program that error, message unchanged.
pub proof fn lemma_program_propagates_error(
    fuel: nat,
    stmts: Seq<StmtV>,
    env: EnvV,
    last: ObjV,
    m: Seq<char>,
)
    requires
        stmts.len() > 0,
        eval_stmt_s(fuel, stmts[0], env).0 == ObjV::Error(m),
    ensures
        eval_prog_from_s(fuel, stmts, env, last).0 == ObjV::Error(m),
{
}

/// A missing identifier is exactly the error value that names it, and a
/// bound identifier is exactly the bound value.
pub proof fn lemma_identifier_error_exact(env: EnvV, name: Seq<char>)
    ensures
        env_get_s(env, name) is None ==> eval_ident_s(env, name) == ObjV::Error(
            "identifier not found: "@ + name,
        ),
        (match env_get_s(env, name) {
            Some(v) => eval_ident_s(env, name) == v,
            None => true,
        }),
{
}

/// The decimal text of a non-negative integer value parses back to the same
/// integer: `inspect` of an integer and the integer-literal production are
/// mutually inverse on such values.
pub proof fn lemma_integer_inspect_parses_back(n: i64, p: ParserV)
    requires
        0 <= n,
        cur_tok(p).literal == inspect_s(ObjV::Integer(n)),
    ensures
        ({
            let (e, p2) = parse_int_lit_s(p);
            e == Some(
                ExprV::IntegerLiteral(IntegerLiteralV { token: cur_tok(p), value: n }),
            ) && p2 == p
        }),
{
    lemma_dec_digits_wf(n as nat);
    lemma_dec_digits_round_trip(n as nat);
    assert(inspect_s(ObjV::Integer(n)) == dec_digits(n as nat));
    assert(crate::numbers::dec_val(cur_tok(p).literal) == n as nat);
}

/// A boolean literal round-trips: the parsed node evaluates to the boolean
/// value of its keyword, whose text is that keyword again, and the text
/// lexes back to the same token kind.
pub proof fn lemma_boolean_round_trip(t: crate::token::TokenV, fuel: nat, env: EnvV)
    requires
        t.type_ == TokenType::TRUE || t.type_ == TokenType::FALSE,
    ensures
        ({
            let b = (t.type_ == TokenType::TRUE);
            let e = ExprV::Boolean(BooleanV { token: t, value: b });
            &&& eval_expr_s(fuel, e, env).0 == ObjV::Boolean(b)
            &&& inspect_s(ObjV::Boolean(b)) == (if b {
                "true"@
            } else {
                "false"@
            })
            &&& lookup_ident_s(inspect_s(ObjV::Boolean(b))) == t.type_
        }),
{
    reveal_strlit("true");
    reveal_strlit("false");
    reveal_strlit("fn");
    reveal_strlit("let");
    reveal_strlit("if");
    reveal_strlit("else");
    reveal_strlit("return");
    assert("true"@.len() == 4);
    assert("false"@.len() == 5);
    assert("fn"@.len() == 2);
    assert("let"@.len() == 3);
    let b = (t.type_ == TokenType::TRUE);
    if b {
        assert("true"@ != "fn"@ && "true"@ != "let"@);
        assert(lookup_ident_s("true"@) == TokenType::TRUE);
    } else {
        assert("false"@[0] != "true"@[0]);
        assert("false"@ != "fn"@ && "false"@ != "let"@ && "false"@ != "true"@);
        assert(lookup_ident_s("false"@) == TokenType::FALSE);
    }
}

// ----------------------------------------------------------------------------
// The return sentinel never escapes: a program's value and a call's value
// are never `Return(..)`. An if-expression can surface a return sentinel as
// an expression value (`return if (1 < 2) { return 2; };` ends in a nested
// sentinel that one unwrapping leaves wrapped), so the law is proved for
// programs without if-expressions.
// ----------------------------------------------------------------------------

/// The expression contains no if-expression, anywhere.
pub open spec fn if_free_expr(e: ExprV) -> bool
    decreases e,
{
    match e {
        ExprV::Identifier(_) => true,
        ExprV::IntegerLiteral(_) => true,
        ExprV::StringLiteral(_) => true,
        ExprV::Boolean(_) => true,
        ExprV::PrefixExpression(x) => if_free_opt_expr(x.right),
        ExprV::InfixExpression(x) => if_free_opt_expr(x.left) && if_free_opt_expr(x.right),
        ExprV::IfExpression(_) => false,
        ExprV::FunctionLiteral(x) => (match x.parameters {
            Some(p) => if_free_exprs(p),
            None => true,
        }) && if_free_opt_stmt(x.body),
        ExprV::CallExpression(x) => if_free_opt_expr(x.func) && (match x.args {
            Some(l) => if_free_exprs(l),
            None => true,
        }),
    }
}

pub open spec fn if_free_opt_expr(o: Option<Box<ExprV>>) -> bool
    decreases o,
{
    match o {
        Some(e) => if_free_expr(*e),
        None => true,
    }
}

pub open spec fn if_free_exprs(l: Seq<ExprV>) -> bool
    decreases l,
{
    forall|i: int| 0 <= i < l.len() ==> if_free_expr(#[trigger] l[i])
}

/// The statement contains no if-expression, anywhere.
pub open spec fn if_free_stmt(s: StmtV) -> bool
    decreases s,
{
    match s {
        StmtV::LetStatement(x) => if_free_opt_expr(x.value),
        StmtV::ReturnStatement(x) => if_free_opt_expr(x.value),
        StmtV::ExpressionStatement(x) => if_free_opt_expr(x.expr),
        StmtV::BlockStatement(x) => if_free_stmts(x.statements),
    }
}

pub open spec fn if_free_opt_stmt(o: Option<Box<StmtV>>) -> bool
    decreases o,
{
    match o {
        Some(s) => if_free_stmt(*s),
        None => true,
    }
}

pub open spec fn if_free_stmts(l: Seq<StmtV>) -> bool
    decreases l,
{
    forall|i: int| 0 <= i < l.len() ==> if_free_stmt(#[trigger] l[i])
}

/// One environment binding holds a sentinel-free value.
pub open spec fn ok_binding(b: (Seq<char>, ObjV)) -> bool
    decreases b,
{
    ok_obj(b.1)
}

/// The value is no return sentinel, and a closure inside it captures a
/// sentinel-free environment and an if-free body.
pub open spec fn ok_obj(o: ObjV) -> bool
    decreases o,
{
    match o {
        ObjV::Return(_) => false,
        ObjV::Function(fv) => ok_env(fv.env) && if_free_stmts(fv.body.statements),
        _ => true,
    }
}

/// Every value bound anywhere in the environment chain is sentinel-free.
pub open spec fn ok_env(env: EnvV) -> bool
    decreases env,
{
    (forall|i: int| 0 <= i < env.store.len() ==> ok_binding(#[trigger] env.store[i])) && (
    match env.outer {
        Some(o) => ok_env(*o),
        None => true,
    })
}

pub open spec fn ok_objs(l: Seq<ObjV>) -> bool {
    forall|i: int| 0 <= i < l.len() ==> ok_obj(#[trigger] l[i])
}

/// Binding a sentinel-free value keeps the environment sentinel-free.
proof fn lemma_ok_env_set(env: EnvV, name: Seq<char>, v: ObjV)
    requires
        ok_env(env),
        ok_obj(v),
    ensures
        ok_env(crate::object::env_set_s(env, name, v)),
{
    let env2 = crate::object::env_set_s(env, name, v);
    assert forall|i: int| 0 <= i < env2.store.len() implies ok_binding(#[trigger] env2.store[i]) by {
        if i < env.store.len() {
            assert(env2.store[i] == env.store[i]);
            assert(ok_binding(env.store[i]));
        } else {
            assert(env2.store[i] == (name, v));
        }
    }
}

/// Local lookup in a sentinel-free store yields a sentinel-free value.
proof fn lemma_store_lookup_ok(store: Seq<(Seq<char>, ObjV)>, name: Seq<char>)
    requires
        forall|i: int| 0 <= i < store.len() ==> ok_binding(#[trigger] store[i]),
    ensures
        (match crate::object::store_lookup(store, name) {
            Some(v) => ok_obj(v),
            None => true,
        }),
    decreases store,
{
    if store.len() > 0 {
        assert(ok_binding(store.last()));
        if store.last().0 != name {
            assert(forall|i: int|
                0 <= i < store.drop_last().len() ==> ok_binding(
                    #[trigger] store.drop_last()[i],
                ));
            lemma_store_lookup_ok(store.drop_last(), name);
        }
    }
}

/// Lookup in a sentinel-free environment yields a sentinel-free value.
proof fn lemma_ok_env_get(env: EnvV, name: Seq<char>)
    requires
        ok_env(env),
    ensures
        (match env_get_s(env, name) {
            Some(v) => ok_obj(v),
            None => true,
        }),
    decreases env,
{
    lemma_store_lookup_ok(env.store, name);
    if crate::object::store_lookup(env.store, name) is None {
        match env.outer {
            Some(o) => {
                lemma_ok_env_get(*o, name);
            },
            None => {
            },
        }
    }
}

/// Binding parameters to sentinel-free arguments keeps the scope
/// sentinel-free.
proof fn lemma_ok_bind_params(params: Seq<ExprV>, args: Seq<ObjV>, env: EnvV)
    requires
        ok_objs(args),
        ok_env(env),
    ensures
        ok_env(crate::eval::bind_params_s(params, args, env)),
    decreases params,
{
    if params.len() > 0 && args.len() > 0 {
        let env1 = match params[0] {
            ExprV::Identifier(id) => crate::object::env_set_s(env, id.value, args[0]),
            _ => env,
        };
        match params[0] {
            ExprV::Identifier(id) => {
                assert(ok_obj(args[0]));
                lemma_ok_env_set(env, id.value, args[0]);
            },
            _ => {
            },
        }
        assert(ok_objs(args.drop_first()));
        lemma_ok_bind_params(params.drop_first(), args.drop_first(), env1);
    }
}

/// What an if-free statement reduces to: a sentinel-free environment, and
/// either a return sentinel with a sentinel-free payload or a sentinel-free
/// value.
pub proof fn lemma_no_nested_return_stmt(fuel: nat, s: StmtV, env: EnvV)
    requires
        if_free_stmt(s),
        ok_env(env),
    ensures
        ({
            let (v, e2) = eval_stmt_s(fuel, s, env);
            &&& ok_env(e2)
            &&& (match v {
                ObjV::Return(x) => ok_obj(*x),
                _ => ok_obj(v),
            })
        }),
    decreases fuel, 1int, s,
{
    match s {
        StmtV::LetStatement(x) => {
            match x.value {
                Some(e) => {
                    lemma_no_nested_return_expr(fuel, *e, env);
                    let (res, env1) = eval_expr_s(fuel, *e, env);
                    if !is_error_v(res) {
                        match x.name {
                            Some(n) => {
                                lemma_ok_env_set(env1, n.value, res);
                            },
                            None => {
                            },
                        }
                    }
                },
                None => {
                },
            }
        },
        StmtV::ReturnStatement(x) => {
            match x.value {
                Some(e) => {
                    lemma_no_nested_return_expr(fuel, *e, env);
                },
                None => {
                },
            }
        },
        StmtV::ExpressionStatement(x) => {
            match x.expr {
                Some(e) => {
                    lemma_no_nested_return_expr(fuel, *e, env);
                },
                None => {
                },
            }
        },
        StmtV::BlockStatement(x) => {
            lemma_no_nested_return_block(fuel, x.statements, env, ObjV::Null);
        },
    }
}

/// What an if-free block reduces to, running from a sentinel-free last
/// value.
pub proof fn lemma_no_nested_return_block(fuel: nat, stmts: Seq<StmtV>, env: EnvV, last: ObjV)
    requires
        if_free_stmts(stmts),
        ok_env(env),
        ok_obj(last),
    ensures
        ({
            let (v, e2) = crate::eval::eval_block_from_s(fuel, stmts, env, last);
            &&& ok_env(e2)
            &&& (match v {
                ObjV::Return(x) => ok_obj(*x),
                _ => ok_obj(v),
            })
        }),
    decreases fuel, 1int, stmts,
{
    if stmts.len() > 0 {
        assert(if_free_stmt(stmts[0]));
        lemma_no_nested_return_stmt(fuel, stmts[0], env);
        let (v, env1) = eval_stmt_s(fuel, stmts[0], env);
        if !is_return_v(v) && !is_error_v(v) {
            assert(if_free_stmts(stmts.drop_first()));
            lemma_no_nested_return_block(fuel, stmts.drop_first(), env1, v);
        }
    }
}

/// Argument lists of if-free expressions evaluate to sentinel-free values.
proof fn lemma_no_nested_return_exprs(fuel: nat, exps: Seq<ExprV>, env: EnvV)
    requires
        if_free_exprs(exps),
        ok_env(env),
    ensures
        ok_objs(eval_exprs_s(fuel, exps, env)),
    decreases fuel, 1int, exps,
{
    if exps.len() > 0 {
        assert(if_free_expr(exps[0]));
        lemma_no_nested_return_expr(fuel, exps[0], env);
        let (v, _) = eval_expr_s(fuel, exps[0], env);
        if !is_error_v(v) {
            assert(if_free_exprs(exps.drop_first()));
            lemma_no_nested_return_exprs(fuel, exps.drop_first(), env);
            let rest = eval_exprs_s(fuel, exps.drop_first(), env);
            if !(rest.len() > 0 && is_error_v(rest[0])) {
                let whole = seq![v] + rest;
                assert forall|i: int| 0 <= i < whole.len() implies ok_obj(#[trigger] whole[i]) by {
                    if i == 0 {
                        assert(whole[i] == v);
                    } else {
                        assert(whole[i] == rest[i - 1]);
                    }
                }
            }
        } else {
            assert(ok_objs(seq![v])) by {
                assert(seq![v][0] == v);
            }
        }
    }
}

/// Applying a sentinel-free closure to sentinel-free arguments yields a
/// sentinel-free value: the one unwrapping at the call boundary removes the
/// only sentinel layer there is.
pub proof fn lemma_no_nested_return_apply(fuel: nat, f: ObjV, args: Seq<ObjV>)
    requires
        ok_obj(f),
        ok_objs(args),
    ensures
        ok_obj(crate::eval::apply_function_s(fuel, f, args)),
    decreases fuel, 0int, f,
{
    match f {
        ObjV::Function(fv) => {
            if fuel != 0 && crate::eval::params_ok_s(fv.parameters) && args.len()
                >= fv.parameters.len() {
                let base = EnvV { store: Seq::empty(), outer: Some(Box::new(fv.env)) };
                assert(ok_env(base));
                lemma_ok_bind_params(fv.parameters, args, base);
                let env2 = crate::eval::bind_params_s(fv.parameters, args, base);
                lemma_no_nested_return_block((fuel - 1) as nat, fv.body.statements, env2, ObjV::Null);
            }
        },
        _ => {
        },
    }
}

/// What an if-free expression reduces to: a sentinel-free value (never a
/// return sentinel) and a sentinel-free environment.
pub proof fn lemma_no_nested_return_expr(fuel: nat, e: ExprV, env: EnvV)
    requires
        if_free_expr(e),
        ok_env(env),
    ensures
        ({
            let (v, e2) = eval_expr_s(fuel, e, env);
            ok_obj(v) && ok_env(e2)
        }),
    decreases fuel, 1int, e,
{
    match e {
        ExprV::Identifier(x) => {
            lemma_ok_env_get(env, x.value);
        },
        ExprV::IntegerLiteral(_) => {
        },
        ExprV::StringLiteral(_) => {
        },
        ExprV::Boolean(_) => {
        },
        ExprV::PrefixExpression(x) => {
            match x.right {
                Some(r) => {
                    lemma_no_nested_return_expr(fuel, *r, env);
                },
                None => {
                },
            }
        },
        ExprV::InfixExpression(x) => {
            match x.left {
                Some(l) => {
                    lemma_no_nested_return_expr(fuel, *l, env);
                    let (lv, env1) = eval_expr_s(fuel, *l, env);
                    if !is_error_v(lv) {
                        match x.right {
                            Some(r) => {
                                lemma_no_nested_return_expr(fuel, *r, env1);
                            },
                            None => {
                            },
                        }
                    }
                },
                None => {
                    match x.right {
                        Some(r) => {
                            lemma_no_nested_return_expr(fuel, *r, env);
                        },
                        None => {
                        },
                    }
                },
            }
        },
        ExprV::IfExpression(_) => {
            assert(false);
        },
        ExprV::FunctionLiteral(x) => {
            match x.body {
                Some(b) => {
                    match *b {
                        StmtV::BlockStatement(bb) => {
                            let params = match x.parameters {
                                Some(p) => p,
                                None => Seq::<ExprV>::empty(),
                            };
                            let fv = crate::object::FunctionV {
                                parameters: params,
                                body: bb,
                                env,
                            };
                            assert(if_free_opt_stmt(x.body));
                            assert(if_free_stmt(StmtV::BlockStatement(bb)));
                            assert(if_free_stmts(bb.statements));
                            assert(ok_obj(ObjV::Function(fv)));
                            assert(eval_expr_s(fuel, e, env).0 == ObjV::Function(fv));
                        },
                        _ => {
                        },
                    }
                },
                None => {
                },
            }
        },
        ExprV::CallExpression(x) => {
            match x.func {
                Some(f) => {
                    lemma_no_nested_return_expr(fuel, *f, env);
                    let (fv, env1) = eval_expr_s(fuel, *f, env);
                    if !is_error_v(fv) {
                        match x.args {
                            Some(a) => {
                                assert(if_free_exprs(a));
                                lemma_no_nested_return_exprs(fuel, a, env1);
                            },
                            None => {
                                assert(eval_exprs_s(fuel, Seq::<ExprV>::empty(), env1)
                                    =~= Seq::<ObjV>::empty());
                            },
                        }
                        let argvals = eval_exprs_s(
                            fuel,
                            (match x.args {
                                Some(a) => a,
                                None => Seq::<ExprV>::empty(),
                            }),
                            env1,
                        );
                        assert(ok_objs(argvals));
                        if argvals.len() == 1 && is_error_v(argvals[0]) {
                            assert(ok_obj(argvals[0]));
                        } else {
                            lemma_no_nested_return_apply(fuel, fv, argvals);
                            assert(ok_obj(crate::eval::apply_function_s(fuel, fv, argvals)));
                        }
                    }
                },
                None => {
                },
            }
        },
    }
}

/// A program's value is never a return sentinel: the sentinel is unwrapped
/// exactly once at the program boundary. Proved for programs without
/// if-expressions, starting from a sentinel-free environment.
pub proof fn lemma_program_no_return_sentinel(fuel: nat, stmts: Seq<StmtV>, env: EnvV)
    requires
        if_free_stmts(stmts),
        ok_env(env),
    ensures
        !is_return_v(crate::eval::eval_prog_s(fuel, stmts, env).0),
{
    lemma_prog_from_no_return(fuel, stmts, env, ObjV::Null);
}

proof fn lemma_prog_from_no_return(fuel: nat, stmts: Seq<StmtV>, env: EnvV, last: ObjV)
    requires
        if_free_stmts(stmts),
        ok_env(env),
        ok_obj(last),
    ensures
        !is_return_v(eval_prog_from_s(fuel, stmts, env, last).0),
    decreases stmts.len(),
{
    if stmts.len() > 0 {
        assert(if_free_stmt(stmts[0]));
        lemma_no_nested_return_stmt(fuel, stmts[0], env);
        let (v, env1) = eval_stmt_s(fuel, stmts[0], env);
        if !is_return_v(v) && !is_error_v(v) {
            assert(if_free_stmts(stmts.drop_first()));
            lemma_prog_from_no_return(fuel, stmts.drop_first(), env1, v);
        }
    }
}

// ----------------------------------------------------------------------------
// The parser emits only well-formed nodes: every required slot is filled.
// When a sub-parse fails, the node is not emitted; the error is recorded
// instead. (A return statement's value and an if's alternative are the only
// optional slots.)
// ----------------------------------------------------------------------------

/// Every expression of the list is an identifier node.
pub open spec fn all_identifier_exprs(l: Seq<ExprV>) -> bool {
    forall|i: int| 0 <= i < l.len() ==> (#[trigger] l[i]) is Identifier
}

/// Every required slot of the expression is filled, recursively: a prefix
/// operand, both infix operands, an if's condition and consequence, a
/// function literal's parameter list (identifiers only) and block body, and
/// a call's callee and argument list.
pub open spec fn wf_expr(e: ExprV) -> bool
    decreases e,
{
    match e {
        ExprV::Identifier(_) => true,
        ExprV::IntegerLiteral(_) => true,
        ExprV::StringLiteral(_) => true,
        ExprV::Boolean(_) => true,
        ExprV::PrefixExpression(x) => match x.right {
            Some(r) => wf_expr(*r),
            None => false,
        },
        ExprV::InfixExpression(x) => (match x.left {
            Some(l) => wf_expr(*l),
            None => false,
        }) && (match x.right {
            Some(r) => wf_expr(*r),
            None => false,
        }),
        ExprV::IfExpression(x) => (match x.cond {
            Some(c) => wf_expr(*c),
            None => false,
        }) && (match x.consequence {
            Some(s) => (*s) is BlockStatement && wf_stmt(*s),
            None => false,
        }) && (match x.alternative {
            Some(s) => (*s) is BlockStatement && wf_stmt(*s),
            None => true,
        }),
        ExprV::FunctionLiteral(x) => (match x.parameters {
            Some(l) => all_identifier_exprs(l),
            None => false,
        }) && (match x.body {
            Some(b) => (*b) is BlockStatement && wf_stmt(*b),
            None => false,
        }),
        ExprV::CallExpression(x) => (match x.func {
            Some(f) => wf_expr(*f),
            None => false,
        }) && (match x.args {
            Some(l) => wf_exprs(l),
            None => false,
        }),
    }
}

pub open spec fn wf_exprs(l: Seq<ExprV>) -> bool
    decreases l,
{
    forall|i: int| 0 <= i < l.len() ==> wf_expr(#[trigger] l[i])
}

/// Every required slot of the statement is filled, recursively: a let's name
/// and value, an expression statement's expression, and every statement of a
/// block. A return statement's value is optional.
pub open spec fn wf_stmt(s: StmtV) -> bool
    decreases s,
{
    match s {
        StmtV::LetStatement(x) => x.name is Some && (match x.value {
            Some(e) => wf_expr(*e),
            None => false,
        }),
        StmtV::ReturnStatement(x) => match x.value {
            Some(e) => wf_expr(*e),
            None => true,
        },
        StmtV::ExpressionStatement(x) => match x.expr {
            Some(e) => wf_expr(*e),
            None => false,
        },
        StmtV::BlockStatement(x) => wf_stmts(x.statements),
    }
}

pub open spec fn wf_stmts(l: Seq<StmtV>) -> bool
    decreases l,
{
    forall|i: int| 0 <= i < l.len() ==> wf_stmt(#[trigger] l[i])
}

proof fn lemma_wf_stmts_push(l: Seq<StmtV>, s: StmtV)
    requires
        wf_stmts(l),
        wf_stmt(s),
    ensures
        wf_stmts(l.push(s)),
{
    assert forall|i: int| 0 <= i < l.push(s).len() implies wf_stmt(#[trigger] l.push(s)[i]) by {
        if i < l.len() {
            assert(l.push(s)[i] == l[i]);
        } else {
            assert(l.push(s)[i] == s);
        }
    }
}

proof fn lemma_wf_exprs_push(l: Seq<ExprV>, e: ExprV)
    requires
        wf_exprs(l),
        wf_expr(e),
    ensures
        wf_exprs(l.push(e)),
{
    assert forall|i: int| 0 <= i < l.push(e).len() implies wf_expr(#[trigger] l.push(e)[i]) by {
        if i < l.len() {
            assert(l.push(e)[i] == l[i]);
        } else {
            assert(l.push(e)[i] == e);
        }
    }
}

proof fn lemma_ident_exprs_push(l: Seq<ExprV>, e: ExprV)
    requires
        all_identifier_exprs(l),
        e is Identifier,
    ensures
        all_identifier_exprs(l.push(e)),
{
    assert forall|i: int| 0 <= i < l.push(e).len() implies (#[trigger] l.push(e)[i])
        is Identifier by {
        if i < l.len() {
            assert(l.push(e)[i] == l[i]);
        } else {
            assert(l.push(e)[i] == e);
        }
    }
}

proof fn lemma_wf_parse_statement(p: ParserV, depth: nat)
    ensures
        (match crate::parser::parse_statement_s(p, depth).0 {
            Some(s) => wf_stmt(s),
            None => true,
        }),
    decreases depth, 0nat,
{
    if depth != 0 {
        if cur_tok(p).type_ == TokenType::LET {
            lemma_wf_parse_let(p, (depth - 1) as nat);
        } else if cur_tok(p).type_ == TokenType::RETURN {
            lemma_wf_parse_return(p, (depth - 1) as nat);
        } else {
            lemma_wf_parse_expr_stmt(p, (depth - 1) as nat);
        }
    }
}

proof fn lemma_wf_parse_let(p: ParserV, depth: nat)
    ensures
        (match crate::parser::parse_let_s(p, depth).0 {
            Some(s) => wf_stmt(s),
            None => true,
        }),
    decreases depth, 0nat,
{
    if depth != 0 {
        let (ok1, p1) = crate::parser::expect_peek_s(p, TokenType::IDENT);
        if ok1 {
            let (ok2, p2) = crate::parser::expect_peek_s(p1, TokenType::ASSIGN);
            if ok2 {
                let p3 = crate::parser::advance_s(p2);
                lemma_wf_parse_expression(p3, crate::parser::LOWEST as int, (depth - 1) as nat);
            }
        }
    }
}

proof fn lemma_wf_parse_return(p: ParserV, depth: nat)
    ensures
        (match crate::parser::parse_return_s(p, depth).0 {
            Some(s) => wf_stmt(s),
            None => true,
        }),
    decreases depth, 0nat,
{
    if depth != 0 {
        let p1 = crate::parser::advance_s(p);
        if cur_tok(p1).type_ != TokenType::SEMICOLON {
            lemma_wf_parse_expression(p1, crate::parser::LOWEST as int, (depth - 1) as nat);
        }
    }
}

proof fn lemma_wf_parse_expr_stmt(p: ParserV, depth: nat)
    ensures
        (match crate::parser::parse_expr_stmt_s(p, depth).0 {
            Some(s) => wf_stmt(s),
            None => true,
        }),
    decreases depth, 0nat,
{
    if depth != 0 {
        lemma_wf_parse_expression(p, crate::parser::LOWEST as int, (depth - 1) as nat);
    }
}

proof fn lemma_wf_parse_expression(p: ParserV, prec: int, depth: nat)
    ensures
        (match crate::parser::parse_expression_s(p, prec, depth).0 {
            Some(e) => wf_expr(e),
            None => true,
        }),
    decreases depth, 0nat,
{
    if depth != 0 {
        match crate::parser::lookup_name(p.prefix_fns, cur_tok(p).type_) {
            None => {
            },
            Some(fname) => {
                if crate::parser::is_known_prefix(fname) {
                    let dl = (depth - 1) as nat;
                    if fname == "parse_identifier"@ {
                        lemma_wf_infix_loop(p, Some(crate::parser::ident_here(p)), prec, dl,
                            crate::parser::iters_of(p));
                    } else if fname == "parse_integer_literal"@ {
                        let (left0, p1) = crate::parser::parse_int_lit_s(p);
                        lemma_wf_infix_loop(p1, left0, prec, dl, crate::parser::iters_of(p1));
                    } else if fname == "parse_prefix_expr"@ {
                        lemma_wf_parse_prefix(p, dl);
                        let (left0, p1) = crate::parser::parse_prefix_expr_s(p, dl);
                        lemma_wf_infix_loop(p1, left0, prec, dl, crate::parser::iters_of(p1));
                    } else if fname == "parse_boolean_expr"@ {
                        let (left0, p1) = (Some(
                            ExprV::Boolean(
                                BooleanV {
                                    token: cur_tok(p),
                                    value: cur_tok(p).type_ == TokenType::TRUE,
                                },
                            ),
                        ), p);
                        lemma_wf_infix_loop(p1, left0, prec, dl, crate::parser::iters_of(p1));
                    } else if fname == "parse_group_expr"@ {
                        lemma_wf_parse_group(p, dl);
                        let (left0, p1) = crate::parser::parse_group_s(p, dl);
                        lemma_wf_infix_loop(p1, left0, prec, dl, crate::parser::iters_of(p1));
                    } else if fname == "parse_if_expr"@ {
                        lemma_wf_parse_if(p, dl);
                        let (left0, p1) = crate::parser::parse_if_s(p, dl);
                        lemma_wf_infix_loop(p1, left0, prec, dl, crate::parser::iters_of(p1));
                    } else if fname == "parse_function_literal"@ {
                        lemma_wf_parse_function(p, dl);
                        let (left0, p1) = crate::parser::parse_function_s(p, dl);
                        lemma_wf_infix_loop(p1, left0, prec, dl, crate::parser::iters_of(p1));
                    } else if fname == "parse_string"@ {
                        let (left0, p1) = (Some(
                            ExprV::StringLiteral(
                                crate::ast::StringLiteralV {
                                    token: cur_tok(p),
                                    value: cur_tok(p).literal,
                                },
                            ),
                        ), p);
                        lemma_wf_infix_loop(p1, left0, prec, dl, crate::parser::iters_of(p1));
                    }
                }
            },
        }
    }
}

proof fn lemma_wf_infix_loop(p: ParserV, left: Option<ExprV>, prec: int, depth: nat, iters: nat)
    requires
        (match left {
            Some(l) => wf_expr(l),
            None => true,
        }),
    ensures
        (match crate::parser::infix_loop_s(p, left, prec, depth, iters).0 {
            Some(e) => wf_expr(e),
            None => true,
        }),
    decreases depth, iters,
{
    let stop = crate::parser::peek_tok(p).type_ == TokenType::SEMICOLON || crate::parser::peek_tok(
        p,
    ).type_ == TokenType::EOF || prec >= crate::parser::prec_of(
        p,
        crate::parser::peek_tok(p).type_,
    ) || iters == 0 || depth == 0;
    if !stop {
        match crate::parser::lookup_name(p.infix_fns, crate::parser::peek_tok(p).type_) {
            None => {
            },
            Some(fname) => {
                if fname == "parse_infix_expr"@ {
                    let p1 = crate::parser::advance_s(p);
                    lemma_wf_parse_infix(p1, left, (depth - 1) as nat);
                    let (ex, p2) = crate::parser::parse_infix_expression_s(
                        p1,
                        left,
                        (depth - 1) as nat,
                    );
                    match ex {
                        Some(e2) => {
                            lemma_wf_infix_loop(p2, Some(e2), prec, depth, (iters - 1) as nat);
                        },
                        None => {
                        },
                    }
                } else if fname == "parse_call"@ {
                    let p1 = crate::parser::advance_s(p);
                    lemma_wf_parse_call(p1, left, (depth - 1) as nat);
                    let (ex, p2) = crate::parser::parse_call_expression_s(
                        p1,
                        left,
                        (depth - 1) as nat,
                    );
                    match ex {
                        Some(e2) => {
                            lemma_wf_infix_loop(p2, Some(e2), prec, depth, (iters - 1) as nat);
                        },
                        None => {
                        },
                    }
                }
            },
        }
    }
}

proof fn lemma_wf_parse_prefix(p: ParserV, depth: nat)
    ensures
        (match crate::parser::parse_prefix_expr_s(p, depth).0 {
            Some(e) => wf_expr(e),
            None => true,
        }),
    decreases depth, 0nat,
{
    if depth != 0 {
        let p1 = crate::parser::advance_s(p);
        lemma_wf_parse_expression(p1, crate::parser::PREFIX as int, (depth - 1) as nat);
    }
}

proof fn lemma_wf_parse_group(p: ParserV, depth: nat)
    ensures
        (match crate::parser::parse_group_s(p, depth).0 {
            Some(e) => wf_expr(e),
            None => true,
        }),
    decreases depth, 0nat,
{
    if depth != 0 {
        let p1 = crate::parser::advance_s(p);
        lemma_wf_parse_expression(p1, crate::parser::LOWEST as int, (depth - 1) as nat);
    }
}

proof fn lemma_wf_parse_if(p: ParserV, depth: nat)
    ensures
        (match crate::parser::parse_if_s(p, depth).0 {
            Some(e) => wf_expr(e),
            None => true,
        }),
    decreases depth, 0nat,
{
    if depth != 0 {
        let (ok1, p1) = crate::parser::expect_peek_s(p, TokenType::LPAREN);
        if ok1 {
            let p2 = crate::parser::advance_s(p1);
            lemma_wf_parse_expression(p2, crate::parser::LOWEST as int, (depth - 1) as nat);
            let (cond, p3) = crate::parser::parse_expression_s(
                p2,
                crate::parser::LOWEST as int,
                (depth - 1) as nat,
            );
            if cond is Some {
                let (ok2, p4) = crate::parser::expect_peek_s(p3, TokenType::RPAREN);
                if ok2 {
                    let (ok3, p5) = crate::parser::expect_peek_s(p4, TokenType::LBRACE);
                    if ok3 {
                        lemma_wf_parse_block(p5, (depth - 1) as nat);
                        let (blk, p6) = crate::parser::parse_block_s(p5, (depth - 1) as nat);
                        if blk is Some {
                            if crate::parser::peek_tok(p6).type_ == TokenType::ELSE {
                                let p7 = crate::parser::advance_s(p6);
                                let (ok4, p8) = crate::parser::expect_peek_s(p7, TokenType::LBRACE);
                                if ok4 {
                                    lemma_wf_parse_block(p8, (depth - 1) as nat);
                                }
                            }
                        }
                    }
                }
            }
        }
    }
}

proof fn lemma_wf_parse_block(p: ParserV, depth: nat)
    ensures
        (match crate::parser::parse_block_s(p, depth).0 {
            Some(s) => s is BlockStatement && wf_stmt(s),
            None => true,
        }),
    decreases depth, 0nat,
{
    if depth != 0 {
        let p1 = crate::parser::advance_s(p);
        lemma_wf_block_stmts(p1, (depth - 1) as nat, crate::parser::iters_of(p1), Seq::empty());
    }
}

proof fn lemma_wf_block_stmts(p: ParserV, depth: nat, iters: nat, acc: Seq<StmtV>)
    requires
        wf_stmts(acc),
    ensures
        wf_stmts(crate::parser::block_stmts_s(p, depth, iters, acc).0),
    decreases depth, iters,
{
    let stop = cur_tok(p).type_ == TokenType::RBRACE || cur_tok(p).type_ == TokenType::EOF
        || iters == 0 || depth == 0;
    if !stop {
        lemma_wf_parse_statement(p, (depth - 1) as nat);
        let (st, p1) = crate::parser::parse_statement_s(p, (depth - 1) as nat);
        let acc1 = match st {
            Some(s) => acc.push(s),
            None => acc,
        };
        match st {
            Some(s) => {
                lemma_wf_stmts_push(acc, s);
            },
            None => {
            },
        }
        lemma_wf_block_stmts(crate::parser::advance_s(p1), depth, (iters - 1) as nat, acc1);
    }
}

proof fn lemma_wf_parse_infix(p: ParserV, left: Option<ExprV>, depth: nat)
    requires
        (match left {
            Some(l) => wf_expr(l),
            None => true,
        }),
    ensures
        (match crate::parser::parse_infix_expression_s(p, left, depth).0 {
            Some(e) => wf_expr(e),
            None => true,
        }),
    decreases depth, 0nat,
{
    if depth != 0 {
        let prc = crate::parser::prec_of(p, cur_tok(p).type_);
        let p1 = crate::parser::advance_s(p);
        lemma_wf_parse_expression(p1, prc, (depth - 1) as nat);
    }
}

proof fn lemma_wf_parse_function(p: ParserV, depth: nat)
    ensures
        (match crate::parser::parse_function_s(p, depth).0 {
            Some(e) => wf_expr(e),
            None => true,
        }),
    decreases depth, 0nat,
{
    if depth != 0 {
        let (ok1, p1) = crate::parser::expect_peek_s(p, TokenType::LPAREN);
        if ok1 {
            lemma_wf_fn_params(p1);
            let (params, p2) = crate::parser::parse_fn_params_s(p1);
            if params is Some {
                let (ok2, p3) = crate::parser::expect_peek_s(p2, TokenType::LBRACE);
                if ok2 {
                    lemma_wf_parse_block(p3, (depth - 1) as nat);
                }
            }
        }
    }
}

proof fn lemma_wf_fn_params(p: ParserV)
    ensures
        (match crate::parser::parse_fn_params_s(p).0 {
            Some(l) => all_identifier_exprs(l),
            None => true,
        }),
{
    if crate::parser::peek_tok(p).type_ != TokenType::RPAREN {
        let p1 = crate::parser::advance_s(p);
        let first = seq![crate::parser::ident_here(p1)];
        assert(all_identifier_exprs(first)) by {
            assert(first[0] == crate::parser::ident_here(p1));
        }
        lemma_wf_params_loop(p1, crate::parser::iters_of(p1), first);
    } else {
        assert(all_identifier_exprs(Seq::<ExprV>::empty()));
    }
}

proof fn lemma_wf_params_loop(p: ParserV, iters: nat, acc: Seq<ExprV>)
    requires
        all_identifier_exprs(acc),
    ensures
        all_identifier_exprs(crate::parser::params_loop_s(p, iters, acc).0),
    decreases iters,
{
    if crate::parser::peek_tok(p).type_ == TokenType::COMMA && iters != 0 {
        let p1 = crate::parser::advance_s(crate::parser::advance_s(p));
        lemma_ident_exprs_push(acc, crate::parser::ident_here(p1));
        lemma_wf_params_loop(p1, (iters - 1) as nat, acc.push(crate::parser::ident_here(p1)));
    }
}

proof fn lemma_wf_parse_call(p: ParserV, func: Option<ExprV>, depth: nat)
    requires
        (match func {
            Some(f) => wf_expr(f),
            None => true,
        }),
    ensures
        (match crate::parser::parse_call_expression_s(p, func, depth).0 {
            Some(e) => wf_expr(e),
            None => true,
        }),
    decreases depth, 0nat,
{
    if depth != 0 && func is Some {
        lemma_wf_call_args(p, (depth - 1) as nat);
    }
}

proof fn lemma_wf_call_args(p: ParserV, depth: nat)
    ensures
        (match crate::parser::parse_call_args_s(p, depth).0 {
            Some(l) => wf_exprs(l),
            None => true,
        }),
    decreases depth, 0nat,
{
    if depth != 0 {
        if crate::parser::peek_tok(p).type_ == TokenType::RPAREN {
            assert(wf_exprs(Seq::<ExprV>::empty()));
        } else {
            let p1 = crate::parser::advance_s(p);
            lemma_wf_parse_expression(p1, crate::parser::LOWEST as int, (depth - 1) as nat);
            let (a0, p2) = crate::parser::parse_expression_s(
                p1,
                crate::parser::LOWEST as int,
                (depth - 1) as nat,
            );
            match a0 {
                None => {
                },
                Some(a) => {
                    let first = seq![a];
                    assert(wf_exprs(first)) by {
                        assert(first[0] == a);
                    }
                    lemma_wf_args_loop(p2, (depth - 1) as nat, crate::parser::iters_of(p2), first);
                },
            }
        }
    }
}

proof fn lemma_wf_args_loop(p: ParserV, depth: nat, iters: nat, acc: Seq<ExprV>)
    requires
        wf_exprs(acc),
    ensures
        (match crate::parser::args_loop_s(p, depth, iters, acc).0 {
            Some(l) => wf_exprs(l),
            None => true,
        }),
    decreases depth, iters,
{
    let stop = crate::parser::peek_tok(p).type_ != TokenType::COMMA || iters == 0 || depth == 0;
    if !stop {
        let p1 = crate::parser::advance_s(crate::parser::advance_s(p));
        lemma_wf_parse_expression(p1, crate::parser::LOWEST as int, (depth - 1) as nat);
        let (ax, p2) = crate::parser::parse_expression_s(
            p1,
            crate::parser::LOWEST as int,
            (depth - 1) as nat,
        );
        match ax {
            Some(a) => {
                lemma_wf_exprs_push(acc, a);
                lemma_wf_args_loop(p2, depth, (iters - 1) as nat, acc.push(a));
            },
            None => {
            },
        }
    }
}

proof fn lemma_wf_program_loop(p: ParserV, iters: nat, acc: Seq<StmtV>)
    requires
        wf_stmts(acc),
    ensures
        wf_stmts(crate::parser::program_loop_s(p, iters, acc).0),
    decreases iters,
{
    if cur_tok(p).type_ != TokenType::EOF && iters != 0 {
        lemma_wf_parse_statement(p, crate::parser::PARSE_DEPTH as nat);
        let (st, p1) = crate::parser::parse_statement_s(p, crate::parser::PARSE_DEPTH as nat);
        match st {
            Some(s) => {
                lemma_wf_stmts_push(acc, s);
                lemma_wf_program_loop(
                    crate::parser::advance_s(p1),
                    (iters - 1) as nat,
                    acc.push(s),
                );
            },
            None => {
            },
        }
    }
}

/// Every statement the parser returns is well-formed: no required slot is
/// empty. When a sub-parse fails, the node is not emitted and the error is
/// recorded instead.
pub proof fn lemma_parse_program_well_formed(p: ParserV)
    ensures
        wf_stmts(crate::parser::parse_program_s(p).0),
{
    lemma_wf_program_loop(p, crate::parser::iters_of(p), Seq::empty());
}

proof fn lemma_standard_prefix_known(t: TokenType)
    ensures
        (match crate::parser::lookup_name(crate::parser::standard_prefix_table(), t) {
            Some(f) => crate::parser::is_known_prefix(f),
            None => true,
        }),
{
    reveal_with_fuel(crate::parser::lookup_name, 12);
}

proof fn lemma_standard_infix_known(t: TokenType)
    ensures
        (match crate::parser::lookup_name(crate::parser::standard_infix_table(), t) {
            Some(f) => f == "parse_infix_expr"@ || f == "parse_call"@,
            None => true,
        }),
{
    reveal_with_fuel(crate::parser::lookup_name, 12);
}

// ----------------------------------------------------------------------------
// A failed parse is never silent: under the standard tables, whenever a
// production gives no node back, the error list has grown.
// ----------------------------------------------------------------------------

/// The parser state uses the standard handler tables.
pub open spec fn standard_tables(p: ParserV) -> bool {
    p.prefix_fns == crate::parser::standard_prefix_table() && p.infix_fns
        == crate::parser::standard_infix_table()
}

proof fn lemma_err_parse_statement(p: ParserV, depth: nat)
    requires
        standard_tables(p),
    ensures
        ({
            let (st, p2) = crate::parser::parse_statement_s(p, depth);
            &&& p2.errors.len() >= p.errors.len()
            &&& standard_tables(p2)
            &&& (st is None ==> p2.errors.len() > p.errors.len())
        }),
    decreases depth, 0nat,
{
    if depth != 0 {
        if cur_tok(p).type_ == TokenType::LET {
            lemma_err_parse_let(p, (depth - 1) as nat);
        } else if cur_tok(p).type_ == TokenType::RETURN {
            lemma_err_parse_return(p, (depth - 1) as nat);
        } else {
            lemma_err_parse_expr_stmt(p, (depth - 1) as nat);
        }
    }
}

proof fn lemma_err_parse_let(p: ParserV, depth: nat)
    requires
        standard_tables(p),
    ensures
        ({
            let (st, p2) = crate::parser::parse_let_s(p, depth);
            &&& p2.errors.len() >= p.errors.len()
            &&& standard_tables(p2)
            &&& (st is None ==> p2.errors.len() > p.errors.len())
        }),
    decreases depth, 0nat,
{
    if depth != 0 {
        let (ok1, p1) = crate::parser::expect_peek_s(p, TokenType::IDENT);
        if ok1 {
            let (ok2, p2) = crate::parser::expect_peek_s(p1, TokenType::ASSIGN);
            if ok2 {
                let p3 = crate::parser::advance_s(p2);
                lemma_err_parse_expression(p3, crate::parser::LOWEST as int, (depth - 1) as nat);
            }
        }
    }
}

proof fn lemma_err_parse_return(p: ParserV, depth: nat)
    requires
        standard_tables(p),
    ensures
        ({
            let (st, p2) = crate::parser::parse_return_s(p, depth);
            &&& p2.errors.len() >= p.errors.len()
            &&& standard_tables(p2)
            &&& (st is None ==> p2.errors.len() > p.errors.len())
        }),
    decreases depth, 0nat,
{
    if depth != 0 {
        let p1 = crate::parser::advance_s(p);
        if cur_tok(p1).type_ != TokenType::SEMICOLON {
            lemma_err_parse_expression(p1, crate::parser::LOWEST as int, (depth - 1) as nat);
        }
    }
}

proof fn lemma_err_parse_expr_stmt(p: ParserV, depth: nat)
    requires
        standard_tables(p),
    ensures
        ({
            let (st, p2) = crate::parser::parse_expr_stmt_s(p, depth);
            &&& p2.errors.len() >= p.errors.len()
            &&& standard_tables(p2)
            &&& (st is None ==> p2.errors.len() > p.errors.len())
        }),
    decreases depth, 0nat,
{
    if depth != 0 {
        lemma_err_parse_expression(p, crate::parser::LOWEST as int, (depth - 1) as nat);
    }
}

proof fn lemma_err_parse_expression(p: ParserV, prec: int, depth: nat)
    requires
        standard_tables(p),
    ensures
        ({
            let (e, p2) = crate::parser::parse_expression_s(p, prec, depth);
            &&& p2.errors.len() >= p.errors.len()
            &&& standard_tables(p2)
            &&& (e is None ==> p2.errors.len() > p.errors.len())
        }),
    decreases depth, 0nat,
{
    if depth != 0 {
        lemma_standard_prefix_known(cur_tok(p).type_);
        match crate::parser::lookup_name(p.prefix_fns, cur_tok(p).type_) {
            None => {
            },
            Some(fname) => {
                let dl = (depth - 1) as nat;
                if fname == "parse_identifier"@ {
                    lemma_err_infix_loop(p, Some(crate::parser::ident_here(p)), prec, dl,
                        crate::parser::iters_of(p));
                } else if fname == "parse_integer_literal"@ {
                    let (left0, p1) = crate::parser::parse_int_lit_s(p);
                    lemma_err_infix_loop(p1, left0, prec, dl, crate::parser::iters_of(p1));
                } else if fname == "parse_prefix_expr"@ {
                    lemma_err_parse_prefix(p, dl);
                    let (left0, p1) = crate::parser::parse_prefix_expr_s(p, dl);
                    lemma_err_infix_loop(p1, left0, prec, dl, crate::parser::iters_of(p1));
                } else if fname == "parse_boolean_expr"@ {
                    let left0 = Some(
                        ExprV::Boolean(
                            BooleanV {
                                token: cur_tok(p),
                                value: cur_tok(p).type_ == TokenType::TRUE,
                            },
                        ),
                    );
                    lemma_err_infix_loop(p, left0, prec, dl, crate::parser::iters_of(p));
                } else if fname == "parse_group_expr"@ {
                    lemma_err_parse_group(p, dl);
                    let (left0, p1) = crate::parser::parse_group_s(p, dl);
                    lemma_err_infix_loop(p1, left0, prec, dl, crate::parser::iters_of(p1));
                } else if fname == "parse_if_expr"@ {
                    lemma_err_parse_if(p, dl);
                    let (left0, p1) = crate::parser::parse_if_s(p, dl);
                    lemma_err_infix_loop(p1, left0, prec, dl, crate::parser::iters_of(p1));
                } else if fname == "parse_function_literal"@ {
                    lemma_err_parse_function(p, dl);
                    let (left0, p1) = crate::parser::parse_function_s(p, dl);
                    lemma_err_infix_loop(p1, left0, prec, dl, crate::parser::iters_of(p1));
                } else if fname == "parse_string"@ {
                    let left0 = Some(
                        ExprV::StringLiteral(
                            crate::ast::StringLiteralV {
                                token: cur_tok(p),
                                value: cur_tok(p).literal,
                            },
                        ),
                    );
                    lemma_err_infix_loop(p, left0, prec, dl, crate::parser::iters_of(p));
                }
            },
        }
    }
}

proof fn lemma_err_infix_loop(p: ParserV, left: Option<ExprV>, prec: int, depth: nat, iters: nat)
    requires
        standard_tables(p),
    ensures
        ({
            let (e, p2) = crate::parser::infix_loop_s(p, left, prec, depth, iters);
            &&& p2.errors.len() >= p.errors.len()
            &&& standard_tables(p2)
            &&& ((e is None && left is Some) ==> p2.errors.len() > p.errors.len())
        }),
    decreases depth, iters,
{
    let stop = crate::parser::peek_tok(p).type_ == TokenType::SEMICOLON || crate::parser::peek_tok(
        p,
    ).type_ == TokenType::EOF || prec >= crate::parser::prec_of(
        p,
        crate::parser::peek_tok(p).type_,
    ) || iters == 0 || depth == 0;
    if !stop {
        lemma_standard_infix_known(crate::parser::peek_tok(p).type_);
        match crate::parser::lookup_name(p.infix_fns, crate::parser::peek_tok(p).type_) {
            None => {
            },
            Some(fname) => {
                if fname == "parse_infix_expr"@ {
                    let p1 = crate::parser::advance_s(p);
                    lemma_err_parse_infix(p1, left, (depth - 1) as nat);
                    let (ex, p2) = crate::parser::parse_infix_expression_s(
                        p1,
                        left,
                        (depth - 1) as nat,
                    );
                    match ex {
                        Some(e2) => {
                            lemma_err_infix_loop(p2, Some(e2), prec, depth, (iters - 1) as nat);
                        },
                        None => {
                        },
                    }
                } else if fname == "parse_call"@ {
                    let p1 = crate::parser::advance_s(p);
                    lemma_err_parse_call(p1, left, (depth - 1) as nat);
                    let (ex, p2) = crate::parser::parse_call_expression_s(
                        p1,
                        left,
                        (depth - 1) as nat,
                    );
                    match ex {
                        Some(e2) => {
                            lemma_err_infix_loop(p2, Some(e2), prec, depth, (iters - 1) as nat);
                        },
                        None => {
                        },
                    }
                }
            },
        }
    }
}

proof fn lemma_err_parse_prefix(p: ParserV, depth: nat)
    requires
        standard_tables(p),
    ensures
        ({
            let (e, p2) = crate::parser::parse_prefix_expr_s(p, depth);
            &&& p2.errors.len() >= p.errors.len()
            &&& standard_tables(p2)
            &&& (e is None ==> p2.errors.len() > p.errors.len())
        }),
    decreases depth, 0nat,
{
    if depth != 0 {
        let p1 = crate::parser::advance_s(p);
        lemma_err_parse_expression(p1, crate::parser::PREFIX as int, (depth - 1) as nat);
    }
}

proof fn lemma_err_parse_group(p: ParserV, depth: nat)
    requires
        standard_tables(p),
    ensures
        ({
            let (e, p2) = crate::parser::parse_group_s(p, depth);
            &&& p2.errors.len() >= p.errors.len()
            &&& standard_tables(p2)
            &&& (e is None ==> p2.errors.len() > p.errors.len())
        }),
    decreases depth, 0nat,
{
    if depth != 0 {
        let p1 = crate::parser::advance_s(p);
        lemma_err_parse_expression(p1, crate::parser::LOWEST as int, (depth - 1) as nat);
    }
}

proof fn lemma_err_parse_if(p: ParserV, depth: nat)
    requires
        standard_tables(p),
    ensures
        ({
            let (e, p2) = crate::parser::parse_if_s(p, depth);
            &&& p2.errors.len() >= p.errors.len()
            &&& standard_tables(p2)
            &&& (e is None ==> p2.errors.len() > p.errors.len())
        }),
    decreases depth, 0nat,
{
    if depth != 0 {
        let (ok1, p1) = crate::parser::expect_peek_s(p, TokenType::LPAREN);
        if ok1 {
            let p2 = crate::parser::advance_s(p1);
            lemma_err_parse_expression(p2, crate::parser::LOWEST as int, (depth - 1) as nat);
            let (cond, p3) = crate::parser::parse_expression_s(
                p2,
                crate::parser::LOWEST as int,
                (depth - 1) as nat,
            );
            if cond is Some {
                let (ok2, p4) = crate::parser::expect_peek_s(p3, TokenType::RPAREN);
                if ok2 {
                    let (ok3, p5) = crate::parser::expect_peek_s(p4, TokenType::LBRACE);
                    if ok3 {
                        lemma_err_parse_block(p5, (depth - 1) as nat);
                        let (blk, p6) = crate::parser::parse_block_s(p5, (depth - 1) as nat);
                        if blk is Some {
                            if crate::parser::peek_tok(p6).type_ == TokenType::ELSE {
                                let p7 = crate::parser::advance_s(p6);
                                let (ok4, p8) = crate::parser::expect_peek_s(p7, TokenType::LBRACE);
                                if ok4 {
                                    lemma_err_parse_block(p8, (depth - 1) as nat);
                                }
                            }
                        }
                    }
                }
            }
        }
    }
}

proof fn lemma_err_parse_block(p: ParserV, depth: nat)
    requires
        standard_tables(p),
    ensures
        ({
            let (st, p2) = crate::parser::parse_block_s(p, depth);
            &&& p2.errors.len() >= p.errors.len()
            &&& standard_tables(p2)
            &&& (st is None ==> p2.errors.len() > p.errors.len())
        }),
    decreases depth, 0nat,
{
    if depth != 0 {
        let p1 = crate::parser::advance_s(p);
        lemma_err_block_stmts(p1, (depth - 1) as nat, crate::parser::iters_of(p1), Seq::empty());
    }
}

proof fn lemma_err_block_stmts(p: ParserV, depth: nat, iters: nat, acc: Seq<StmtV>)
    requires
        standard_tables(p),
    ensures
        ({
            let (l, p2) = crate::parser::block_stmts_s(p, depth, iters, acc);
            p2.errors.len() >= p.errors.len() && standard_tables(p2)
        }),
    decreases depth, iters,
{
    let stop = cur_tok(p).type_ == TokenType::RBRACE || cur_tok(p).type_ == TokenType::EOF
        || iters == 0 || depth == 0;
    if !stop {
        lemma_err_parse_statement(p, (depth - 1) as nat);
        let (st, p1) = crate::parser::parse_statement_s(p, (depth - 1) as nat);
        let acc1 = match st {
            Some(s) => acc.push(s),
            None => acc,
        };
        lemma_err_block_stmts(crate::parser::advance_s(p1), depth, (iters - 1) as nat, acc1);
    }
}

proof fn lemma_err_parse_infix(p: ParserV, left: Option<ExprV>, depth: nat)
    requires
        standard_tables(p),
    ensures
        ({
            let (e, p2) = crate::parser::parse_infix_expression_s(p, left, depth);
            &&& p2.errors.len() >= p.errors.len()
            &&& standard_tables(p2)
            &&& ((e is None && left is Some) ==> p2.errors.len() > p.errors.len())
        }),
    decreases depth, 0nat,
{
    if depth != 0 {
        let prc = crate::parser::prec_of(p, cur_tok(p).type_);
        let p1 = crate::parser::advance_s(p);
        lemma_err_parse_expression(p1, prc, (depth - 1) as nat);
    }
}

proof fn lemma_err_parse_function(p: ParserV, depth: nat)
    requires
        standard_tables(p),
    ensures
        ({
            let (e, p2) = crate::parser::parse_function_s(p, depth);
            &&& p2.errors.len() >= p.errors.len()
            &&& standard_tables(p2)
            &&& (e is None ==> p2.errors.len() > p.errors.len())
        }),
    decreases depth, 0nat,
{
    if depth != 0 {
        let (ok1, p1) = crate::parser::expect_peek_s(p, TokenType::LPAREN);
        if ok1 {
            lemma_err_fn_params(p1);
            let (params, p2) = crate::parser::parse_fn_params_s(p1);
            if params is Some {
                let (ok2, p3) = crate::parser::expect_peek_s(p2, TokenType::LBRACE);
                if ok2 {
                    lemma_err_parse_block(p3, (depth - 1) as nat);
                }
            }
        }
    }
}

proof fn lemma_err_fn_params(p: ParserV)
    requires
        standard_tables(p),
    ensures
        ({
            let (l, p2) = crate::parser::parse_fn_params_s(p);
            &&& p2.errors.len() >= p.errors.len()
            &&& standard_tables(p2)
            &&& (l is None ==> p2.errors.len() > p.errors.len())
        }),
{
    if crate::parser::peek_tok(p).type_ != TokenType::RPAREN {
        let p1 = crate::parser::advance_s(p);
        lemma_err_params_loop(p1, crate::parser::iters_of(p1), seq![crate::parser::ident_here(p1)]);
    }
}

proof fn lemma_err_params_loop(p: ParserV, iters: nat, acc: Seq<ExprV>)
    requires
        standard_tables(p),
    ensures
        ({
            let (l, p2) = crate::parser::params_loop_s(p, iters, acc);
            p2.errors.len() >= p.errors.len() && standard_tables(p2)
        }),
    decreases iters,
{
    if crate::parser::peek_tok(p).type_ == TokenType::COMMA && iters != 0 {
        let p1 = crate::parser::advance_s(crate::parser::advance_s(p));
        lemma_err_params_loop(p1, (iters - 1) as nat, acc.push(crate::parser::ident_here(p1)));
    }
}

proof fn lemma_err_parse_call(p: ParserV, func: Option<ExprV>, depth: nat)
    requires
        standard_tables(p),
    ensures
        ({
            let (e, p2) = crate::parser::parse_call_expression_s(p, func, depth);
            &&& p2.errors.len() >= p.errors.len()
            &&& standard_tables(p2)
            &&& ((e is None && func is Some) ==> p2.errors.len() > p.errors.len())
        }),
    decreases depth, 0nat,
{
    if depth != 0 && func is Some {
        lemma_err_call_args(p, (depth - 1) as nat);
    }
}

proof fn lemma_err_call_args(p: ParserV, depth: nat)
    requires
        standard_tables(p),
    ensures
        ({
            let (l, p2) = crate::parser::parse_call_args_s(p, depth);
            &&& p2.errors.len() >= p.errors.len()
            &&& standard_tables(p2)
            &&& (l is None ==> p2.errors.len() > p.errors.len())
        }),
    decreases depth, 0nat,
{
    if depth != 0 {
        if crate::parser::peek_tok(p).type_ != TokenType::RPAREN {
            let p1 = crate::parser::advance_s(p);
            lemma_err_parse_expression(p1, crate::parser::LOWEST as int, (depth - 1) as nat);
            let (a0, p2) = crate::parser::parse_expression_s(
                p1,
                crate::parser::LOWEST as int,
                (depth - 1) as nat,
            );
            match a0 {
                None => {
                },
                Some(a) => {
                    lemma_err_args_loop(p2, (depth - 1) as nat, crate::parser::iters_of(p2),
                        seq![a]);
                },
            }
        }
    }
}

proof fn lemma_err_args_loop(p: ParserV, depth: nat, iters: nat, acc: Seq<ExprV>)
    requires
        standard_tables(p),
    ensures
        ({
            let (l, p2) = crate::parser::args_loop_s(p, depth, iters, acc);
            &&& p2.errors.len() >= p.errors.len()
            &&& standard_tables(p2)
            &&& (l is None ==> p2.errors.len() > p.errors.len())
        }),
    decreases depth, iters,
{
    let stop = crate::parser::peek_tok(p).type_ != TokenType::COMMA || iters == 0 || depth == 0;
    if !stop {
        let p1 = crate::parser::advance_s(crate::parser::advance_s(p));
        lemma_err_parse_expression(p1, crate::parser::LOWEST as int, (depth - 1) as nat);
        let (ax, p2) = crate::parser::parse_expression_s(
            p1,
            crate::parser::LOWEST as int,
            (depth - 1) as nat,
        );
        match ax {
            Some(a) => {
                lemma_err_args_loop(p2, depth, (iters - 1) as nat, acc.push(a));
            },
            None => {
            },
        }
    }
}

/// A statement that fails to parse is never silent: under the standard
/// tables, when no node comes back the error list has grown. Together with
/// `run`, which evaluates only when the error list is empty, this is how
/// malformed input surfaces to the caller instead of being run.
pub proof fn lemma_failed_parse_records_error(p: ParserV, depth: nat)
    requires
        standard_tables(p),
    ensures
        ({
            let (st, p2) = crate::parser::parse_statement_s(p, depth);
            st is None ==> p2.errors.len() > p.errors.len()
        }),
{
    lemma_err_parse_statement(p, depth);
}

// ----------------------------------------------------------------------------
// The integer round trip, end to end: the decimal text of a non-negative
// integer value, followed by a semicolon, lexes to one integer token,
// parses back to the same integer literal, and evaluates to the same value.
// ----------------------------------------------------------------------------

/// Scanning digits stops immediately on a non-digit.
proof fn lemma_scan_digits_stop(s: Seq<char>, st: crate::lexer::LexSt)
    requires
        !st.end,
        !crate::numbers::is_dec_digit(st.ch),
    ensures
        crate::lexer::scan_digits_s(s, st) == st,
{
}

/// Scanning a run of digits moves the cursor to the first non-digit.
proof fn lemma_scan_digits_to(s: Seq<char>, i: int, k: int)
    requires
        0 <= i <= k < s.len(),
        forall|j: int| i <= j < k ==> crate::numbers::is_dec_digit(#[trigger] s[j]),
        !crate::numbers::is_dec_digit(s[k]),
    ensures
        crate::lexer::scan_digits_s(
            s,
            crate::lexer::LexSt { pos: i, rpos: i + 1, ch: s[i], end: false },
        ) == (crate::lexer::LexSt { pos: k, rpos: k + 1, ch: s[k], end: false }),
    decreases k - i,
{
    let st = crate::lexer::LexSt { pos: i, rpos: i + 1, ch: s[i], end: false };
    if i < k {
        assert(crate::numbers::is_dec_digit(s[i]));
        assert(crate::lexer::read_char_s(s, st) == (crate::lexer::LexSt {
            pos: i + 1,
            rpos: i + 2,
            ch: s[i + 1],
            end: false,
        }));
        lemma_scan_digits_to(s, i + 1, k);
        assert(crate::lexer::scan_digits_s(s, st) == crate::lexer::scan_digits_s(
            s,
            crate::lexer::read_char_s(s, st),
        ));
    } else {
        lemma_scan_digits_stop(s, st);
    }
}

/// The decimal text of a non-negative number followed by a semicolon lexes
/// to exactly an integer token, a semicolon token and EOF.
proof fn lemma_lex_int_semi(n: i64)
    requires
        0 <= n,
    ensures
        crate::lexer::tokens_of(dec_digits(n as nat) + ";"@) == seq![
            crate::lexer::tok_v(TokenType::INT, dec_digits(n as nat)),
            crate::lexer::tok_v(TokenType::SEMICOLON, ";"@),
            crate::token::eof_token_v(),
        ],
{
    reveal_strlit(";");
    reveal_strlit("\0");
    let d = dec_digits(n as nat);
    lemma_dec_digits_wf(n as nat);
    let s = d + ";"@;
    let lx = d.len() as int;
    assert(";"@.len() == 1 && ";"@[0] == ';');
    assert(s.len() == lx + 1);
    assert(s[lx] == ';');
    assert forall|j: int| 0 <= j < lx implies crate::numbers::is_dec_digit(#[trigger] s[j]) by {
        assert(s[j] == d[j]);
    }
    assert(!crate::numbers::is_dec_digit(';'));
    let st0 = crate::lexer::init_lex_state(s);
    assert(st0 == (crate::lexer::LexSt { pos: 0, rpos: 1, ch: s[0], end: false }));
    assert(crate::numbers::is_dec_digit(s[0]));
    assert(!crate::lexer::is_ws_char(s[0]));
    assert(crate::lexer::skip_ws_s(s, st0) == st0);
    lemma_scan_digits_to(s, 0, lx);
    let stk = crate::lexer::LexSt { pos: lx, rpos: lx + 1, ch: ';', end: false };
    assert(crate::lexer::scan_digits_s(s, st0) == stk);
    let adj = crate::lexer::LexSt { pos: lx - 1, rpos: lx, ch: ';', end: false };
    assert(crate::lexer::read_number_s(s, st0) == (s.subrange(0, lx), adj));
    assert(s.subrange(0, lx) =~= d);
    let st_a = crate::lexer::LexSt { pos: lx, rpos: lx + 1, ch: ';', end: false };
    assert(crate::lexer::read_char_s(s, adj) == st_a);
    assert(!crate::lexer::is_letter_char(s[0]));
    let t1 = crate::lexer::next_token_s(s, st0);
    assert(t1 == (crate::lexer::tok_v(TokenType::INT, d), st_a));
    assert(!crate::lexer::is_ws_char(';'));
    assert(crate::lexer::skip_ws_s(s, st_a) == st_a);
    let st_b = crate::lexer::LexSt { pos: lx, rpos: lx + 1, ch: ';', end: true };
    assert(crate::lexer::read_char_s(s, st_a) == st_b);
    let t2 = crate::lexer::next_token_s(s, st_a);
    assert(t2 == (crate::lexer::tok_v(TokenType::SEMICOLON, ";"@), st_b));
    let t3 = crate::lexer::next_token_s(s, st_b);
    assert(t3 == (crate::token::eof_token_v(), st_b));
    assert(crate::lexer::wf_lex_state(s, st0));
    assert(crate::lexer::wf_lex_state(s, st_a));
    assert(crate::lexer::wf_lex_state(s, st_b));
    assert(crate::lexer::token_stream_from(s, st_b) == seq![crate::token::eof_token_v()]);
    assert(crate::lexer::token_stream_from(s, st_a) == seq![
        crate::lexer::tok_v(TokenType::SEMICOLON, ";"@),
    ] + crate::lexer::token_stream_from(s, st_b));
    assert(crate::lexer::token_stream_from(s, st0) == seq![
        crate::lexer::tok_v(TokenType::INT, d),
    ] + crate::lexer::token_stream_from(s, st_a));
    assert(crate::lexer::tokens_of(s) =~= seq![
        crate::lexer::tok_v(TokenType::INT, d),
        crate::lexer::tok_v(TokenType::SEMICOLON, ";"@),
        crate::token::eof_token_v(),
    ]);
}

proof fn lemma_std_prefix_int()
    ensures
        crate::parser::lookup_name(crate::parser::standard_prefix_table(), TokenType::INT)
            == Some("parse_integer_literal"@),
{
    reveal_with_fuel(crate::parser::lookup_name, 12);
}

/// The decimal text of a non-negative integer value, followed by a
/// semicolon, parses without errors and evaluates back to the same value:
/// the integer round trip holds end to end, from source text through the
/// lexer, the parser and the evaluator.
pub proof fn lemma_integer_source_round_trip(n: i64, env: EnvV)
    requires
        0 <= n,
    ensures
        ({
            let src = dec_digits(n as nat) + ";"@;
            crate::eval::parse_errors_of(src).len() == 0 && crate::eval::run_s(src, env) == (
                ObjV::Integer(n),
                env,
            )
        }),
{
    reveal_strlit("parse_identifier");
    reveal_strlit("parse_integer_literal");
    let d = dec_digits(n as nat);
    let src = d + ";"@;
    lemma_lex_int_semi(n);
    lemma_dec_digits_wf(n as nat);
    lemma_dec_digits_round_trip(n as nat);
    lemma_std_prefix_int();
    let int_tok = crate::lexer::tok_v(TokenType::INT, d);
    let semi_tok = crate::lexer::tok_v(TokenType::SEMICOLON, ";"@);
    let toks = seq![int_tok, semi_tok, crate::token::eof_token_v()];
    let p0 = crate::eval::initial_parser(src);
    assert(p0.toks == toks && p0.cur == 0 && p0.errors.len() == 0);
    assert(toks[0] == int_tok && toks[1] == semi_tok && toks[2] == crate::token::eof_token_v());
    assert(cur_tok(p0) == int_tok);
    assert(crate::parser::peek_tok(p0) == semi_tok);
    // The one statement: an expression statement holding the integer
    // literal.
    assert("parse_identifier"@.len() == 16);
    assert("parse_integer_literal"@.len() == 21);
    assert("parse_integer_literal"@ != "parse_identifier"@);
    let (il0, pl0) = crate::parser::parse_int_lit_s(p0);
    let il = ExprV::IntegerLiteral(IntegerLiteralV { token: int_tok, value: n });
    assert(crate::numbers::dec_val(d) == n as nat);
    assert(il0 == Some(il) && pl0 == p0);
    let dexpr: nat = (crate::parser::PARSE_DEPTH - 2) as nat;
    assert(crate::parser::infix_loop_s(
        p0,
        Some(il),
        crate::parser::LOWEST as int,
        (dexpr - 1) as nat,
        crate::parser::iters_of(p0),
    ) == (Some(il), p0));
    assert(crate::parser::parse_expression_s(p0, crate::parser::LOWEST as int, dexpr) == (
        Some(il),
        p0,
    ));
    let p1 = crate::parser::advance_s(p0);
    assert(p1.cur == 1 && p1.toks == toks && p1.errors.len() == 0);
    let stmt = StmtV::ExpressionStatement(
        crate::ast::ExpressionStatementV { token: int_tok, expr: Some(Box::new(il)) },
    );
    assert(crate::parser::parse_expr_stmt_s(p0, (dexpr + 1) as nat) == (Some(stmt), p1));
    assert(crate::parser::parse_statement_s(p0, crate::parser::PARSE_DEPTH as nat) == (
        Some(stmt),
        p1,
    ));
    // The program loop: one statement, then EOF.
    let p2 = crate::parser::advance_s(p1);
    assert(p2.cur == 2 && p2.toks == toks && p2.errors.len() == 0);
    assert(cur_tok(p2) == crate::token::eof_token_v());
    let acc1 = Seq::<StmtV>::empty().push(stmt);
    assert(crate::parser::program_loop_s(p2, (crate::parser::iters_of(p0) - 1) as nat, acc1)
        == (acc1, p2));
    assert(crate::parser::program_loop_s(
        p0,
        crate::parser::iters_of(p0),
        Seq::<StmtV>::empty(),
    ) == (acc1, p2));
    assert(crate::parser::parse_program_s(p0) == (acc1, p2));
    assert(crate::eval::parse_errors_of(src).len() == 0);
    // Evaluation: the literal is its own value.
    assert(crate::eval::eval_expr_s(crate::eval::EVAL_DEPTH as nat, il, env) == (
        ObjV::Integer(n),
        env,
    ));
    if let Some(bx) = stmt->ExpressionStatement_0.expr {
        assert(*bx == il);
    }
    assert(crate::eval::eval_stmt_s(crate::eval::EVAL_DEPTH as nat, stmt, env) == (
        ObjV::Integer(n),
        env,
    ));
    assert(acc1[0] == stmt);
    assert(acc1.drop_first() =~= Seq::<StmtV>::empty());
    assert(eval_prog_from_s(
        crate::eval::EVAL_DEPTH as nat,
        acc1.drop_first(),
        env,
        ObjV::Integer(n),
    ) == (ObjV::Integer(n), env));
    assert(crate::eval::eval_prog_s(crate::eval::EVAL_DEPTH as nat, acc1, env) == (
        ObjV::Integer(n),
        env,
    ));
}

/// Scanning identifier characters stops immediately on anything else.
proof fn lemma_scan_alnum_stop(s: Seq<char>, st: crate::lexer::LexSt)
    requires
        !st.end,
        !crate::lexer::is_alnum_char(st.ch),
    ensures
        crate::lexer::scan_alnum_s(s, st) == st,
{
}

/// Scanning a run of identifier characters moves the cursor to the first
/// character past the run.
proof fn lemma_scan_alnum_to(s: Seq<char>, i: int, k: int)
    requires
        0 <= i <= k < s.len(),
        forall|j: int| i <= j < k ==> crate::lexer::is_alnum_char(#[trigger] s[j]),
        !crate::lexer::is_alnum_char(s[k]),
    ensures
        crate::lexer::scan_alnum_s(
            s,
            crate::lexer::LexSt { pos: i, rpos: i + 1, ch: s[i], end: false },
        ) == (crate::lexer::LexSt { pos: k, rpos: k + 1, ch: s[k], end: false }),
    decreases k - i,
{
    let st = crate::lexer::LexSt { pos: i, rpos: i + 1, ch: s[i], end: false };
    if i < k {
        assert(crate::lexer::is_alnum_char(s[i]));
        assert(crate::lexer::read_char_s(s, st) == (crate::lexer::LexSt {
            pos: i + 1,
            rpos: i + 2,
            ch: s[i + 1],
            end: false,
        }));
        lemma_scan_alnum_to(s, i + 1, k);
        assert(crate::lexer::scan_alnum_s(s, st) == crate::lexer::scan_alnum_s(
            s,
            crate::lexer::read_char_s(s, st),
        ));
    } else {
        lemma_scan_alnum_stop(s, st);
    }
}

/// A non-empty word of letters followed by a semicolon lexes to exactly one
/// word token — its kind decided by the keyword table — a semicolon token
/// and EOF.
proof fn lemma_lex_word_semi(w: Seq<char>)
    requires
        w.len() >= 1,
        forall|j: int| 0 <= j < w.len() ==> crate::lexer::is_letter_char(#[trigger] w[j]),
    ensures
        crate::lexer::tokens_of(w + ";"@) == seq![
            crate::lexer::tok_v(lookup_ident_s(w), w),
            crate::lexer::tok_v(TokenType::SEMICOLON, ";"@),
            crate::token::eof_token_v(),
        ],
{
    reveal_strlit(";");
    let s = w + ";"@;
    let lx = w.len() as int;
    assert(";"@.len() == 1 && ";"@[0] == ';');
    assert(s.len() == lx + 1);
    assert(s[lx] == ';');
    assert forall|j: int| 0 <= j < lx implies crate::lexer::is_alnum_char(#[trigger] s[j]) by {
        assert(s[j] == w[j]);
        assert(crate::lexer::is_letter_char(w[j]));
    }
    assert(!crate::lexer::is_alnum_char(';'));
    let st0 = crate::lexer::init_lex_state(s);
    assert(st0 == (crate::lexer::LexSt { pos: 0, rpos: 1, ch: s[0], end: false }));
    assert(s[0] == w[0]);
    assert(crate::lexer::is_letter_char(s[0]));
    assert(!crate::lexer::is_ws_char(s[0]));
    assert(crate::lexer::skip_ws_s(s, st0) == st0);
    lemma_scan_alnum_to(s, 0, lx);
    let adj = crate::lexer::LexSt { pos: lx - 1, rpos: lx, ch: ';', end: false };
    assert(crate::lexer::read_ident_s(s, st0) == (s.subrange(0, lx), adj));
    assert(s.subrange(0, lx) =~= w);
    let st_a = crate::lexer::LexSt { pos: lx, rpos: lx + 1, ch: ';', end: false };
    assert(crate::lexer::read_char_s(s, adj) == st_a);
    assert(!crate::numbers::is_dec_digit(s[0]));
    let t1 = crate::lexer::next_token_s(s, st0);
    assert(t1 == (crate::lexer::tok_v(lookup_ident_s(w), w), st_a));
    assert(!crate::lexer::is_ws_char(';'));
    assert(crate::lexer::skip_ws_s(s, st_a) == st_a);
    let st_b = crate::lexer::LexSt { pos: lx, rpos: lx + 1, ch: ';', end: true };
    assert(crate::lexer::read_char_s(s, st_a) == st_b);
    let t2 = crate::lexer::next_token_s(s, st_a);
    assert(t2 == (crate::lexer::tok_v(TokenType::SEMICOLON, ";"@), st_b));
    let t3 = crate::lexer::next_token_s(s, st_b);
    assert(t3 == (crate::token::eof_token_v(), st_b));
    assert(crate::lexer::wf_lex_state(s, st0));
    assert(crate::lexer::wf_lex_state(s, st_a));
    assert(crate::lexer::wf_lex_state(s, st_b));
    assert(crate::lexer::token_stream_from(s, st_b) == seq![crate::token::eof_token_v()]);
    assert(crate::lexer::token_stream_from(s, st_a) == seq![
        crate::lexer::tok_v(TokenType::SEMICOLON, ";"@),
    ] + crate::lexer::token_stream_from(s, st_b));
    assert(crate::lexer::token_stream_from(s, st0) == seq![
        crate::lexer::tok_v(lookup_ident_s(w), w),
    ] + crate::lexer::token_stream_from(s, st_a));
    assert(crate::lexer::tokens_of(s) =~= seq![
        crate::lexer::tok_v(lookup_ident_s(w), w),
        crate::lexer::tok_v(TokenType::SEMICOLON, ";"@),
        crate::token::eof_token_v(),
    ]);
}

proof fn lemma_std_prefix_bool(t: TokenType)
    requires
        t == TokenType::TRUE || t == TokenType::FALSE,
    ensures
        crate::parser::lookup_name(crate::parser::standard_prefix_table(), t) == Some(
            "parse_boolean_expr"@,
        ),
{
    reveal_with_fuel(crate::parser::lookup_name, 12);
}

/// A boolean literal round-trips end to end: the keyword of a boolean value
/// (its `inspect` text), followed by a semicolon, parses without errors and
/// evaluates back to the same boolean.
pub proof fn lemma_boolean_source_round_trip(b: bool, env: EnvV)
    ensures
        ({
            let src = inspect_s(ObjV::Boolean(b)) + ";"@;
            crate::eval::parse_errors_of(src).len() == 0 && crate::eval::run_s(src, env) == (
                ObjV::Boolean(b),
                env,
            )
        }),
{
    reveal_strlit("true");
    reveal_strlit("false");
    reveal_strlit("fn");
    reveal_strlit("let");
    reveal_strlit("if");
    reveal_strlit("else");
    reveal_strlit("return");
    reveal_strlit("parse_identifier");
    reveal_strlit("parse_integer_literal");
    reveal_strlit("parse_prefix_expr");
    reveal_strlit("parse_boolean_expr");
    let w = inspect_s(ObjV::Boolean(b));
    let src = w + ";"@;
    assert("true"@.len() == 4 && "false"@.len() == 5);
    assert(w == (if b { "true"@ } else { "false"@ }));
    assert forall|j: int| 0 <= j < w.len() implies crate::lexer::is_letter_char(
        #[trigger] w[j],
    ) by {
    }
    lemma_lex_word_semi(w);
    let kind = lookup_ident_s(w);
    assert("fn"@.len() == 2 && "let"@.len() == 3);
    if b {
        assert(kind == TokenType::TRUE);
    } else {
        assert(w[0] != "true"@[0]);
        assert(kind == TokenType::FALSE);
    }
    lemma_std_prefix_bool(kind);
    let word_tok = crate::lexer::tok_v(kind, w);
    let semi_tok = crate::lexer::tok_v(TokenType::SEMICOLON, ";"@);
    let toks = seq![word_tok, semi_tok, crate::token::eof_token_v()];
    let p0 = crate::eval::initial_parser(src);
    assert(p0.toks == toks && p0.cur == 0 && p0.errors.len() == 0);
    assert(toks[0] == word_tok && toks[1] == semi_tok && toks[2] == crate::token::eof_token_v());
    assert(cur_tok(p0) == word_tok);
    assert(crate::parser::peek_tok(p0) == semi_tok);
    assert("parse_identifier"@.len() == 16);
    assert("parse_integer_literal"@.len() == 21);
    assert("parse_prefix_expr"@.len() == 17);
    assert("parse_boolean_expr"@.len() == 18);
    assert("parse_boolean_expr"@ != "parse_identifier"@);
    assert("parse_boolean_expr"@ != "parse_integer_literal"@);
    assert("parse_boolean_expr"@ != "parse_prefix_expr"@);
    let bl = ExprV::Boolean(BooleanV { token: word_tok, value: b });
    assert(cur_tok(p0).type_ == TokenType::TRUE <==> b);
    let dexpr: nat = (crate::parser::PARSE_DEPTH - 2) as nat;
    assert(crate::parser::infix_loop_s(
        p0,
        Some(bl),
        crate::parser::LOWEST as int,
        (dexpr - 1) as nat,
        crate::parser::iters_of(p0),
    ) == (Some(bl), p0));
    assert(crate::parser::parse_expression_s(p0, crate::parser::LOWEST as int, dexpr) == (
        Some(bl),
        p0,
    ));
    let p1 = crate::parser::advance_s(p0);
    assert(p1.cur == 1 && p1.toks == toks && p1.errors.len() == 0);
    let stmt = StmtV::ExpressionStatement(
        crate::ast::ExpressionStatementV { token: word_tok, expr: Some(Box::new(bl)) },
    );
    assert(crate::parser::parse_expr_stmt_s(p0, (dexpr + 1) as nat) == (Some(stmt), p1));
    assert(cur_tok(p0).type_ != TokenType::LET && cur_tok(p0).type_ != TokenType::RETURN);
    assert(crate::parser::parse_statement_s(p0, crate::parser::PARSE_DEPTH as nat) == (
        Some(stmt),
        p1,
    ));
    let p2 = crate::parser::advance_s(p1);
    assert(p2.cur == 2 && p2.toks == toks && p2.errors.len() == 0);
    assert(cur_tok(p2) == crate::token::eof_token_v());
    let acc1 = Seq::<StmtV>::empty().push(stmt);
    assert(crate::parser::program_loop_s(p2, (crate::parser::iters_of(p0) - 1) as nat, acc1)
        == (acc1, p2));
    assert(crate::parser::program_loop_s(
        p0,
        crate::parser::iters_of(p0),
        Seq::<StmtV>::empty(),
    ) == (acc1, p2));
    assert(crate::parser::parse_program_s(p0) == (acc1, p2));
    assert(crate::eval::parse_errors_of(src).len() == 0);
    assert(crate::eval::eval_expr_s(crate::eval::EVAL_DEPTH as nat, bl, env) == (
        ObjV::Boolean(b),
        env,
    ));
    if let Some(bx) = stmt->ExpressionStatement_0.expr {
        assert(*bx == bl);
    }
    assert(crate::eval::eval_stmt_s(crate::eval::EVAL_DEPTH as nat, stmt, env) == (
        ObjV::Boolean(b),
        env,
    ));
    assert(acc1[0] == stmt);
    assert(acc1.drop_first() =~= Seq::<StmtV>::empty());
    assert(eval_prog_from_s(
        crate::eval::EVAL_DEPTH as nat,
        acc1.drop_first(),
        env,
        ObjV::Boolean(b),
    ) == (ObjV::Boolean(b), env));
    assert(crate::eval::eval_prog_s(crate::eval::EVAL_DEPTH as nat, acc1, env) == (
        ObjV::Boolean(b),
        env,
    ));
}

} // verus!
