//! Evaluator: a recursive reducer from syntax-tree nodes to runtime values,
//! parameterized by an environment. The spec functions define the value and
//! environment every construct reduces to; the executable evaluator is proved
//! to return exactly them. A call-depth budget bounds nested function
//! application, so evaluation always terminates; exceeding it yields an
//! error value.

use vstd::prelude::*;

use crate::ast::{
    exprs_view, stmt_view, stmts_view, BlockStatement, Expression, ExpressionStatement, ExprV,
    Identifier, IfExpression, IfExpressionV, Program, ReturnStatement, ReturnStatementV, Statement,
    StmtV,
};
use crate::numbers::dec_digits;
use crate::object::{
    env_get_s, env_set_s, obj_view, objs_view, type_of_s, EnvV, Environment, Function, FunctionV,
    Object, ObjV,
};
use crate::text::{push_str, push_string, string_eq_str};

verus! {

/// How deeply function applications may nest before evaluation stops with an
/// error value.
pub const EVAL_DEPTH: u64 = 1024;

/// The error value produced when the call-depth budget is exhausted.
pub open spec fn depth_error_v() -> ObjV {
    ObjV::Error("evaluation depth limit exceeded"@)
}

/// A first-class error value.
pub open spec fn is_error_v(o: ObjV) -> bool {
    o is Error
}

/// The return-sentinel wrapper.
pub open spec fn is_return_v(o: ObjV) -> bool {
    o is Return
}

/// Only the boolean `true` is truthy.
pub open spec fn is_truthy_s(o: ObjV) -> bool {
    o == ObjV::Boolean(true)
}

/// Unwrapping a return sentinel: one layer, and only one.
pub open spec fn unwrap_return_s(o: ObjV) -> ObjV {
    match o {
        ObjV::Return(x) => *x,
        _ => o,
    }
}

/// Every parameter of a function literal is an identifier.
pub open spec fn params_ok_s(params: Seq<ExprV>) -> bool {
    forall|i: int| 0 <= i < params.len() ==> (#[trigger] params[i]) is Identifier
}

/// The error value for a call with fewer arguments than parameters.
pub open spec fn arity_error_v(nparams: nat, nargs: nat) -> ObjV {
    ObjV::Error(
        "wrong number of arguments: expected "@ + dec_digits(nparams) + ", got "@ + dec_digits(
            nargs,
        ),
    )
}

/// The value of an identifier: the environment chain decides, and a miss is
/// an error value naming the identifier.
pub open spec fn eval_ident_s(env: EnvV, name: Seq<char>) -> ObjV {
    match env_get_s(env, name) {
        Some(v) => v,
        None => ObjV::Error("identifier not found: "@ + name),
    }
}

/// The `!` operator: true on false and null, false on everything else.
pub open spec fn eval_bang_s(o: ObjV) -> ObjV {
    match o {
        ObjV::Boolean(b) => ObjV::Boolean(!b),
        ObjV::Null => ObjV::Boolean(true),
        _ => ObjV::Boolean(false),
    }
}

/// The unary `-` operator: integer negation (wrapping at the type bound);
/// anything else is an unknown-operator error.
pub open spec fn eval_minus_s(o: ObjV) -> ObjV {
    match o {
        ObjV::Integer(n) => if n == i64::MIN {
            ObjV::Integer(i64::MIN)
        } else {
            ObjV::Integer((-n) as i64)
        },
        _ => ObjV::Error("unknown operator: - "@ + type_of_s(o)),
    }
}

/// A prefix operator applied to an evaluated operand.
pub open spec fn eval_prefix_s(op: Seq<char>, right: ObjV) -> ObjV {
    if op == "!"@ {
        eval_bang_s(right)
    } else if op == "-"@ {
        eval_minus_s(right)
    } else {
        ObjV::Error("unknown operator: "@ + op + " "@ + type_of_s(right))
    }
}

/// An infix operator on two integers: arithmetic wraps at the type bounds,
/// division truncates toward zero and is an error value on a zero divisor,
/// and comparisons produce booleans. Any other operator is an
/// unknown-operator error.
pub open spec fn eval_integer_infix_s(op: Seq<char>, a: i64, b: i64) -> ObjV {
    if op == "+"@ {
        ObjV::Integer(vstd::wrapping::i64_specs::wrapping_add(a, b))
    } else if op == "-"@ {
        ObjV::Integer(vstd::wrapping::i64_specs::wrapping_sub(a, b))
    } else if op == "*"@ {
        ObjV::Integer(vstd::wrapping::i64_specs::wrapping_mul(a, b))
    } else if op == "/"@ {
        if b == 0 {
            ObjV::Error("division by zero"@)
        } else {
            match a.checked_div(b) {
                Some(q) => ObjV::Integer(q),
                None => ObjV::Integer(i64::MIN),
            }
        }
    } else if op == "<"@ {
        ObjV::Boolean(a < b)
    } else if op == ">"@ {
        ObjV::Boolean(a > b)
    } else if op == "=="@ {
        ObjV::Boolean(a == b)
    } else if op == "!="@ {
        ObjV::Boolean(a != b)
    } else {
        ObjV::Error("unknown operator: INTEGER_OBJ "@ + op + " INTEGER_OBJ"@)
    }
}

/// An infix operator on two strings: only `+` (concatenation) is defined.
pub open spec fn eval_string_infix_s(op: Seq<char>, a: Seq<char>, b: Seq<char>) -> ObjV {
    if op == "+"@ {
        ObjV::String(a + b)
    } else {
        ObjV::Error("unknown operator: STRING "@ + op + " STRING"@)
    }
}

/// An infix operator on two evaluated operands: integer pairs and string
/// pairs have their own tables; every other combination — two booleans just
/// as much as mixed kinds — is a type-mismatch error.
pub open spec fn eval_infix_s(op: Seq<char>, l: ObjV, r: ObjV) -> ObjV {
    match (l, r) {
        (ObjV::Integer(a), ObjV::Integer(b)) => eval_integer_infix_s(op, a, b),
        (ObjV::String(a), ObjV::String(b)) => eval_string_infix_s(op, a, b),
        _ => ObjV::Error("type mismatch: "@ + type_of_s(l) + " "@ + type_of_s(r)),
    }
}

/// Parameter binding for a call: each identifier parameter is bound to the
/// argument in the same position, locally in `env`.
pub open spec fn bind_params_s(params: Seq<ExprV>, args: Seq<ObjV>, env: EnvV) -> EnvV
    decreases params,
{
    if params.len() == 0 || args.len() == 0 {
        env
    } else {
        let env1 = match params[0] {
            ExprV::Identifier(id) => env_set_s(env, id.value, args[0]),
            _ => env,
        };
        bind_params_s(params.drop_first(), args.drop_first(), env1)
    }
}

/// A statement reduces to a value and a possibly extended environment.
pub open spec fn eval_stmt_s(fuel: nat, s: StmtV, env: EnvV) -> (ObjV, EnvV)
    decreases fuel, 1int, s,
{
    match s {
        StmtV::LetStatement(x) => match x.value {
            Some(e) => {
                let (res, env1) = eval_expr_s(fuel, *e, env);
                if is_error_v(res) {
                    (res, env1)
                } else {
                    match x.name {
                        Some(n) => (res, env_set_s(env1, n.value, res)),
                        None => (ObjV::Error("Could not add identifier to environment"@), env1),
                    }
                }
            },
            None => (ObjV::Error("Could not evaluate let statement expression"@), env),
        },
        StmtV::ReturnStatement(x) => eval_ret_s(fuel, x, env),
        StmtV::ExpressionStatement(x) => match x.expr {
            Some(e) => eval_expr_s(fuel, *e, env),
            None => (ObjV::Null, env),
        },
        StmtV::BlockStatement(x) => eval_block_from_s(fuel, x.statements, env, ObjV::Null),
    }
}

/// A return statement evaluates its expression (null when absent), passes an
/// error through, and wraps anything else in the return sentinel.
pub open spec fn eval_ret_s(fuel: nat, x: ReturnStatementV, env: EnvV) -> (ObjV, EnvV)
    decreases fuel, 1int, x,
{
    match x.value {
        Some(e) => {
            let (v, env1) = eval_expr_s(fuel, *e, env);
            if is_error_v(v) {
                (v, env1)
            } else {
                (ObjV::Return(Box::new(v)), env1)
            }
        },
        None => (ObjV::Return(Box::new(ObjV::Null)), env),
    }
}

/// A block runs its statements in order. A return sentinel or an error stops
/// it and is handed back unchanged; otherwise the block's value is the value
/// of its last statement, `last` (null at the start) when none remain.
pub open spec fn eval_block_from_s(fuel: nat, stmts: Seq<StmtV>, env: EnvV, last: ObjV) -> (
    ObjV,
    EnvV,
)
    decreases fuel, 1int, stmts,
{
    if stmts.len() == 0 {
        (last, env)
    } else {
        let (v, env1) = eval_stmt_s(fuel, stmts[0], env);
        if is_return_v(v) || is_error_v(v) {
            (v, env1)
        } else {
            eval_block_from_s(fuel, stmts.drop_first(), env1, v)
        }
    }
}

/// A program runs its statements in order. A return sentinel stops it and is
/// unwrapped once; an error stops it and is handed back unchanged; otherwise
/// the program's value is the value of its last statement, `last` (null at
/// the start) when none remain.
pub open spec fn eval_prog_from_s(fuel: nat, stmts: Seq<StmtV>, env: EnvV, last: ObjV) -> (
    ObjV,
    EnvV,
)
    decreases fuel, 1int, stmts,
{
    if stmts.len() == 0 {
        (last, env)
    } else {
        let (v, env1) = eval_stmt_s(fuel, stmts[0], env);
        if is_return_v(v) {
            (unwrap_return_s(v), env1)
        } else if is_error_v(v) {
            (v, env1)
        } else {
            eval_prog_from_s(fuel, stmts.drop_first(), env1, v)
        }
    }
}

/// What a whole program reduces to, starting from null.
pub open spec fn eval_prog_s(fuel: nat, stmts: Seq<StmtV>, env: EnvV) -> (ObjV, EnvV) {
    eval_prog_from_s(fuel, stmts, env, ObjV::Null)
}

/// An if-expression: an error condition propagates; a truthy condition picks
/// the consequence; otherwise the alternative runs, or the value is null when
/// there is none.
pub open spec fn eval_if_s(fuel: nat, x: IfExpressionV, env: EnvV) -> (ObjV, EnvV)
    decreases fuel, 1int, x,
{
    let (cond, env1) = match x.cond {
        Some(c) => eval_expr_s(fuel, *c, env),
        None => (ObjV::Null, env),
    };
    if is_error_v(cond) {
        (cond, env1)
    } else if is_truthy_s(cond) {
        match x.consequence {
            Some(c) => eval_stmt_s(fuel, *c, env1),
            None => (ObjV::Null, env1),
        }
    } else {
        match x.alternative {
            Some(a) => eval_stmt_s(fuel, *a, env1),
            None => (ObjV::Null, env1),
        }
    }
}

/// Argument evaluation, left to right, each in its own copy of the caller's
/// environment. The first error aborts the walk and becomes the only element.
pub open spec fn eval_exprs_s(fuel: nat, exps: Seq<ExprV>, env: EnvV) -> Seq<ObjV>
    decreases fuel, 1int, exps,
{
    if exps.len() == 0 {
        Seq::empty()
    } else {
        let (v, _) = eval_expr_s(fuel, exps[0], env);
        if is_error_v(v) {
            seq![v]
        } else {
            let rest = eval_exprs_s(fuel, exps.drop_first(), env);
            if rest.len() > 0 && is_error_v(rest[0]) {
                rest
            } else {
                seq![v] + rest
            }
        }
    }
}

/// Applying a value to arguments. Only a function applies; its parameters
/// must all be identifiers and must each receive an argument (extra
/// arguments are ignored). The body runs in a fresh scope enclosed by the
/// captured environment, and one layer of return sentinel is unwrapped from
/// the result.
pub open spec fn apply_function_s(fuel: nat, f: ObjV, args: Seq<ObjV>) -> ObjV
    decreases fuel, 0int, f,
{
    match f {
        ObjV::Function(fv) => {
            if fuel == 0 {
                depth_error_v()
            } else if !params_ok_s(fv.parameters) {
                ObjV::Error("invalid function parameter"@)
            } else if args.len() < fv.parameters.len() {
                arity_error_v(fv.parameters.len(), args.len())
            } else {
                let env2 = bind_params_s(
                    fv.parameters,
                    args,
                    EnvV { store: Seq::empty(), outer: Some(Box::new(fv.env)) },
                );
                let (v, _) = eval_block_from_s((fuel - 1) as nat, fv.body.statements, env2, ObjV::Null);
                unwrap_return_s(v)
            }
        },
        _ => ObjV::Error("not a function: "@ + type_of_s(f)),
    }
}

/// An expression reduces to a value and a possibly extended environment
/// (let-bindings inside if-branches land in the surrounding scope).
pub open spec fn eval_expr_s(fuel: nat, e: ExprV, env: EnvV) -> (ObjV, EnvV)
    decreases fuel, 1int, e,
{
    match e {
        ExprV::Identifier(x) => (eval_ident_s(env, x.value), env),
        ExprV::IntegerLiteral(x) => (ObjV::Integer(x.value), env),
        ExprV::StringLiteral(x) => (ObjV::String(x.value), env),
        ExprV::Boolean(x) => (ObjV::Boolean(x.value), env),
        ExprV::PrefixExpression(x) => {
            let (right, env1) = match x.right {
                Some(r) => eval_expr_s(fuel, *r, env),
                None => (ObjV::Null, env),
            };
            if is_error_v(right) {
                (right, env1)
            } else {
                (eval_prefix_s(x.operator, right), env1)
            }
        },
        ExprV::InfixExpression(x) => {
            let (left, env1) = match x.left {
                Some(l) => eval_expr_s(fuel, *l, env),
                None => (ObjV::Null, env),
            };
            if is_error_v(left) {
                (left, env1)
            } else {
                let (right, env2) = match x.right {
                    Some(r) => eval_expr_s(fuel, *r, env1),
                    None => (ObjV::Null, env1),
                };
                if is_error_v(right) {
                    (right, env2)
                } else {
                    (eval_infix_s(x.operator, left, right), env2)
                }
            }
        },
        ExprV::IfExpression(x) => eval_if_s(fuel, x, env),
        ExprV::FunctionLiteral(x) => {
            let params = match x.parameters {
                Some(p) => p,
                None => Seq::empty(),
            };
            match x.body {
                Some(b) => match *b {
                    StmtV::BlockStatement(bb) => (
                        ObjV::Function(FunctionV { parameters: params, body: bb, env }),
                        env,
                    ),
                    _ => (ObjV::Error("not a block statement"@), env),
                },
                None => (ObjV::Error("expected statement but got something else"@), env),
            }
        },
        ExprV::CallExpression(x) => {
            let (fv, env1) = match x.func {
                Some(f) => eval_expr_s(fuel, *f, env),
                None => (ObjV::Error("expected function got something else"@), env),
            };
            if is_error_v(fv) {
                (fv, env1)
            } else {
                let argvals = match x.args {
                    Some(a) => eval_exprs_s(fuel, a, env1),
                    None => Seq::empty(),
                };
                if argvals.len() == 1 && is_error_v(argvals[0]) {
                    (argvals[0], env1)
                } else {
                    (apply_function_s(fuel, fv, argvals), env1)
                }
            }
        },
    }
}

// ----------------------------------------------------------------------------
// The executable evaluator. Each function returns exactly what the spec
// functions above say.
// ----------------------------------------------------------------------------

/// The error value produced when the call-depth budget is exhausted.
fn depth_error() -> (r: Object)
    ensures
        r@ == depth_error_v(),
{
    Object::Error("evaluation depth limit exceeded".to_owned())
}

/// Wraps a message as a first-class error value.
fn new_error(message: String) -> (r: Object)
    ensures
        r@ == ObjV::Error(message@),
{
    Object::Error(message)
}

/// The value is a first-class error.
fn is_error(obj: &Object) -> (r: bool)
    ensures
        r == is_error_v(obj@),
{
    match obj {
        Object::Error(_) => true,
        _ => false,
    }
}

/// Only the boolean `true` is truthy.
#[inline(always)]
fn is_truthy(obj: &Object) -> (r: bool)
    ensures
        r == is_truthy_s(obj@),
{
    match obj {
        Object::Boolean(b) => *b,
        _ => false,
    }
}

/// Reduces a whole program: statements in order, a return sentinel unwrapped
/// once, an error handed back unchanged, otherwise the last statement's
/// value, null when the program is empty. Top-level let-bindings stay in
/// `env`.
#[verifier::loop_isolation(false)]
pub fn eval_prog(prog: Program, env: &mut Environment) -> (r: Object)
    ensures
        ({
            let (v, e2) = eval_prog_s(EVAL_DEPTH as nat, stmts_view(prog@), old(env)@);
            r@ == v && final(env)@ == e2
        }),
{
    proof {
        crate::ast::lemma_stmts_view_index(prog@);
    }
    let ghost vs = stmts_view(prog@);
    let ghost env0 = env@;
    proof {
        assert(vs.skip(0int) =~= vs);
    }
    let mut result = Object::Null;
    let mut i: usize = 0;
    while i < prog.len()
        invariant
            0 <= i <= prog@.len(),
            vs == stmts_view(prog@),
            vs.len() == prog@.len(),
            forall|j: int| 0 <= j < prog@.len() ==> vs[j] == stmt_view(#[trigger] prog@[j]),
            !is_return_v(result@),
            !is_error_v(result@),
            eval_prog_from_s(EVAL_DEPTH as nat, vs, env0, ObjV::Null) == eval_prog_from_s(
                EVAL_DEPTH as nat,
                vs.skip(i as int),
                env@,
                result@,
            ),
        decreases prog@.len() - i,
    {
        proof {
            assert(vs.skip(i as int)[0] == vs[i as int]);
            assert(vs.skip(i as int).drop_first() =~= vs.skip(i + 1 as int));
        }
        let ghost envb = env@;
        let ghost resb = result@;
        let v = eval(&prog[i], env, EVAL_DEPTH);
        proof {
            let (sv, se) = eval_stmt_s(EVAL_DEPTH as nat, vs[i as int], envb);
            assert(v@ == sv && env@ == se);
            assert(eval_prog_from_s(EVAL_DEPTH as nat, vs.skip(i as int), envb, resb) == (
            if is_return_v(sv) {
                (unwrap_return_s(sv), se)
            } else if is_error_v(sv) {
                (sv, se)
            } else {
                eval_prog_from_s(EVAL_DEPTH as nat, vs.skip(i + 1 as int), se, sv)
            }));
        }
        match &v {
            Object::Return(x) => {
                return (**x).clone();
            },
            Object::Error(_) => {
                return v;
            },
            _ => {
                result = v;
            },
        }
        i = i + 1;
    }
    proof {
        assert(vs.skip(prog@.len() as int) =~= Seq::<StmtV>::empty());
    }
    result
}

/// Reduces one statement.
fn eval(state: &Statement, env: &mut Environment, fuel: u64) -> (r: Object)
    ensures
        ({
            let (v, e2) = eval_stmt_s(fuel as nat, stmt_view(*state), old(env)@);
            r@ == v && final(env)@ == e2
        }),
    decreases fuel, 1int, *state,
{
    match state {
        Statement::LetStatement(x) => {
            match &x.value {
                Some(e) => {
                    let res = eval_expr(&**e, env, fuel);
                    if is_error(&res) {
                        return res;
                    }
                    match &x.name {
                        Some(n) => {
                            let stored = env.set(n.value.clone(), res);
                            stored
                        },
                        None => new_error("Could not add identifier to environment".to_owned()),
                    }
                },
                None => new_error("Could not evaluate let statement expression".to_owned()),
            }
        },
        Statement::ReturnStatement(x) => eval_ret(x, env, fuel),
        Statement::ExpressionStatement(x) => eval_expression_stmt(x, env, fuel),
        Statement::BlockStatement(x) => eval_block(x, env, fuel),
    }
}

/// Reduces a return statement.
fn eval_ret(ret: &ReturnStatement, env: &mut Environment, fuel: u64) -> (r: Object)
    ensures
        ({
            let xv = ReturnStatementV {
                token: ret.token@,
                value: crate::ast::opt_expr_view(ret.value),
            };
            let (v, e2) = eval_ret_s(fuel as nat, xv, old(env)@);
            r@ == v && final(env)@ == e2
        }),
    decreases fuel, 1int, *ret,
{
    match &ret.value {
        Some(e) => {
            let v = eval_expr(&**e, env, fuel);
            proof {
                let xv = ReturnStatementV {
                    token: ret.token@,
                    value: crate::ast::opt_expr_view(ret.value),
                };
                if let Some(bx) = xv.value {
                    assert(*bx == crate::ast::expr_view(**e));
                }
                assert(eval_ret_s(fuel as nat, xv, old(env)@) == (if is_error_v(v@) {
                    (v@, env@)
                } else {
                    (ObjV::Return(Box::new(v@)), env@)
                }));
            }
            if is_error(&v) {
                v
            } else {
                let out = Object::Return(Box::new(v));
                proof {
                    assert(out@ == ObjV::Return(Box::new(obj_view(*out->Return_0))));
                }
                out
            }
        },
        None => {
            proof {
                let xv = ReturnStatementV {
                    token: ret.token@,
                    value: crate::ast::opt_expr_view(ret.value),
                };
                assert(xv.value is None);
                assert(eval_ret_s(fuel as nat, xv, old(env)@) == (
                    ObjV::Return(Box::new(ObjV::Null)),
                    old(env)@,
                ));
            }
            let out = Object::Return(Box::new(Object::Null));
            proof {
                assert(obj_view(Object::Null) == ObjV::Null);
                assert(out@ == ObjV::Return(Box::new(ObjV::Null)));
            }
            out
        },
    }
}

/// Reduces the statements of a block.
#[verifier::loop_isolation(false)]
fn eval_block(block: &BlockStatement, env: &mut Environment, fuel: u64) -> (r: Object)
    ensures
        ({
            let (v, e2) = eval_block_from_s(
                fuel as nat,
                stmts_view(block.statements@),
                old(env)@,
                ObjV::Null,
            );
            r@ == v && final(env)@ == e2
        }),
    decreases fuel, 1int, *block,
{
    proof {
        crate::ast::lemma_stmts_view_index(block.statements@);
    }
    let ghost vs = stmts_view(block.statements@);
    let ghost env0 = env@;
    proof {
        assert(vs.skip(0int) =~= vs);
    }
    let mut result = Object::Null;
    let mut i: usize = 0;
    while i < block.statements.len()
        invariant
            0 <= i <= block.statements@.len(),
            vs == stmts_view(block.statements@),
            vs.len() == block.statements@.len(),
            forall|j: int| 0 <= j < block.statements@.len() ==> vs[j] == stmt_view(
                #[trigger] block.statements@[j],
            ),
            !is_return_v(result@),
            !is_error_v(result@),
            eval_block_from_s(fuel as nat, vs, env0, ObjV::Null) == eval_block_from_s(
                fuel as nat,
                vs.skip(i as int),
                env@,
                result@,
            ),
        decreases block.statements@.len() - i,
    {
        proof {
            assert(vs.skip(i as int)[0] == vs[i as int]);
            assert(vs.skip(i as int).drop_first() =~= vs.skip(i + 1 as int));
        }
        let ghost envb = env@;
        let ghost resb = result@;
        let v = eval(&block.statements[i], env, fuel);
        proof {
            let (sv, se) = eval_stmt_s(fuel as nat, vs[i as int], envb);
            assert(v@ == sv && env@ == se);
            assert(eval_block_from_s(fuel as nat, vs.skip(i as int), envb, resb) == (
            if is_return_v(sv) || is_error_v(sv) {
                (sv, se)
            } else {
                eval_block_from_s(fuel as nat, vs.skip(i + 1 as int), se, sv)
            }));
        }
        let stop = match &v {
            Object::Return(_) => true,
            Object::Error(_) => true,
            _ => false,
        };
        if stop {
            return v;
        }
        result = v;
        i = i + 1;
    }
    proof {
        assert(vs.skip(block.statements@.len() as int) =~= Seq::<StmtV>::empty());
    }
    result
}

/// Reduces an expression statement: its expression, or null when it has
/// none.
fn eval_expression_stmt(expr: &ExpressionStatement, env: &mut Environment, fuel: u64) -> (r:
    Object)
    ensures
        ({
            let (v, e2) = eval_stmt_s(
                fuel as nat,
                stmt_view(Statement::ExpressionStatement(*expr)),
                old(env)@,
            );
            r@ == v && final(env)@ == e2
        }),
    decreases fuel, 1int, *expr,
{
    match &expr.expr {
        Some(e) => eval_expr(&**e, env, fuel),
        None => Object::Null,
    }
}

/// Looks an identifier up in the environment chain.
fn eval_identifier(ident: &Identifier, env: &Environment) -> (r: Object)
    ensures
        r@ == eval_ident_s(env@, ident.value@),
{
    match env.get(ident.value.clone()) {
        Some(x) => x,
        None => {
            let mut m = "identifier not found: ".to_owned();
            push_string(&mut m, &ident.value);
            Object::Error(m)
        },
    }
}

/// Applies a prefix operator to an evaluated operand.
fn eval_prefix(oper: &String, right: Object) -> (r: Object)
    ensures
        r@ == eval_prefix_s(oper@, right@),
{
    if string_eq_str(oper, "!") {
        eval_bang_oper(right)
    } else if string_eq_str(oper, "-") {
        eval_minus_oper(right)
    } else {
        let mut m = "unknown operator: ".to_owned();
        push_string(&mut m, oper);
        push_str(&mut m, " ");
        let t = right.type_();
        push_string(&mut m, &t);
        Object::Error(m)
    }
}

/// The `!` operator.
fn eval_bang_oper(obj: Object) -> (r: Object)
    ensures
        r@ == eval_bang_s(obj@),
{
    match obj {
        Object::Boolean(b) => Object::Boolean(!b),
        Object::Null => Object::Boolean(true),
        _ => Object::Boolean(false),
    }
}

/// The unary `-` operator.
fn eval_minus_oper(obj: Object) -> (r: Object)
    ensures
        r@ == eval_minus_s(obj@),
{
    match obj {
        Object::Integer(x) => {
            if x == i64::MIN {
                Object::Integer(i64::MIN)
            } else {
                Object::Integer(-x)
            }
        },
        _ => {
            let mut m = "unknown operator: - ".to_owned();
            let t = obj.type_();
            push_string(&mut m, &t);
            Object::Error(m)
        },
    }
}

/// Dispatches an infix operator on two evaluated operands.
fn eval_infix_expr(oper: &String, left: Object, right: Object) -> (r: Object)
    ensures
        r@ == eval_infix_s(oper@, left@, right@),
{
    let both_int = match (&left, &right) {
        (Object::Integer(_), Object::Integer(_)) => true,
        _ => false,
    };
    if both_int {
        return eval_integer_infix(oper, left, right);
    }
    let both_str = match (&left, &right) {
        (Object::String(_), Object::String(_)) => true,
        _ => false,
    };
    if both_str {
        return eval_string_infix(oper, left, right);
    }
    let mut m = "type mismatch: ".to_owned();
    let tl = left.type_();
    push_string(&mut m, &tl);
    push_str(&mut m, " ");
    let tr = right.type_();
    push_string(&mut m, &tr);
    Object::Error(m)
}

/// An infix operator on two integers.
fn eval_integer_infix(oper: &String, left: Object, right: Object) -> (r: Object)
    requires
        left@ is Integer,
        right@ is Integer,
    ensures
        r@ == eval_infix_s(oper@, left@, right@),
{
    let a: i64 = match &left {
        Object::Integer(x) => *x,
        _ => 0,
    };
    let b: i64 = match &right {
        Object::Integer(x) => *x,
        _ => 0,
    };
    if string_eq_str(oper, "+") {
        Object::Integer(a.wrapping_add(b))
    } else if string_eq_str(oper, "-") {
        Object::Integer(a.wrapping_sub(b))
    } else if string_eq_str(oper, "*") {
        Object::Integer(a.wrapping_mul(b))
    } else if string_eq_str(oper, "/") {
        if b == 0 {
            Object::Error("division by zero".to_owned())
        } else {
            match a.checked_div(b) {
                Some(q) => Object::Integer(q),
                None => Object::Integer(i64::MIN),
            }
        }
    } else if string_eq_str(oper, "<") {
        Object::Boolean(a < b)
    } else if string_eq_str(oper, ">") {
        Object::Boolean(a > b)
    } else if string_eq_str(oper, "==") {
        Object::Boolean(a == b)
    } else if string_eq_str(oper, "!=") {
        Object::Boolean(a != b)
    } else {
        let mut m = "unknown operator: INTEGER_OBJ ".to_owned();
        push_string(&mut m, oper);
        push_str(&mut m, " INTEGER_OBJ");
        Object::Error(m)
    }
}

/// An infix operator on two strings: concatenation, or an unknown-operator
/// error.
fn eval_string_infix(oper: &String, left: Object, right: Object) -> (r: Object)
    requires
        left@ is String,
        right@ is String,
    ensures
        r@ == eval_infix_s(oper@, left@, right@),
{
    if !string_eq_str(oper, "+") {
        let mut m = "unknown operator: STRING ".to_owned();
        push_string(&mut m, oper);
        push_str(&mut m, " STRING");
        return new_error(m);
    }
    let mut left_val: String = match left {
        Object::String(x) => x,
        _ => String::new(),
    };
    let right_val: String = match right {
        Object::String(x) => x,
        _ => String::new(),
    };
    push_string(&mut left_val, &right_val);
    Object::String(left_val)
}

/// Reduces an if-expression.
fn eval_if_expr(expr: &IfExpression, env: &mut Environment, fuel: u64) -> (r: Object)
    ensures
        ({
            let xv = crate::ast::expr_view(Expression::IfExpression(*expr))->IfExpression_0;
            let (v, e2) = eval_if_s(fuel as nat, xv, old(env)@);
            r@ == v && final(env)@ == e2
        }),
    decreases fuel, 1int, *expr,
{
    let cond = match &expr.cond {
        Some(c) => eval_expr(&**c, env, fuel),
        None => Object::Null,
    };
    if is_error(&cond) {
        return cond;
    }
    if is_truthy(&cond) {
        match &expr.consequence {
            Some(c) => eval(&**c, env, fuel),
            None => Object::Null,
        }
    } else {
        match &expr.alternative {
            Some(a) => eval(&**a, env, fuel),
            None => Object::Null,
        }
    }
}

/// Evaluates the arguments of a call, left to right, each in its own copy of
/// the caller's environment; the first error aborts the walk and becomes the
/// only element.
#[verifier::loop_isolation(false)]
#[verifier::rlimit(60)]
fn eval_exprs(exps: &Vec<Expression>, env: &Environment, fuel: u64) -> (r: Vec<Object>)
    ensures
        objs_view(r@) == eval_exprs_s(fuel as nat, exprs_view(exps@), env@),
    decreases fuel, 1int, *exps,
{
    proof {
        crate::ast::lemma_exprs_view_index(exps@);
    }
    let ghost vs = exprs_view(exps@);
    let mut result: Vec<Object> = Vec::new();
    proof {
        assert(vs.skip(0int) =~= vs);
        assert(objs_view(result@) =~= Seq::<ObjV>::empty());
    }
    let mut i: usize = 0;
    while i < exps.len()
        invariant
            0 <= i <= exps@.len(),
            vs == exprs_view(exps@),
            vs.len() == exps@.len(),
            forall|j: int| 0 <= j < exps@.len() ==> vs[j] == crate::ast::expr_view(
                #[trigger] exps@[j],
            ),
            forall|j: int| 0 <= j < objs_view(result@).len() ==> !is_error_v(
                #[trigger] objs_view(result@)[j],
            ),
            objs_view(result@).len() == i,
            ({
                let suffix = eval_exprs_s(fuel as nat, vs.skip(i as int), env@);
                if suffix.len() > 0 && is_error_v(suffix[0]) {
                    eval_exprs_s(fuel as nat, vs, env@) == suffix
                } else {
                    eval_exprs_s(fuel as nat, vs, env@) == objs_view(result@) + suffix
                }
            }),
        decreases exps@.len() - i,
    {
        proof {
            assert(vs.skip(i as int)[0] == vs[i as int]);
            assert(vs.skip(i as int).drop_first() =~= vs.skip(i + 1 as int));
        }
        let ghost sufi = eval_exprs_s(fuel as nat, vs.skip(i as int), env@);
        let mut env2 = env.clone();
        let ghost env2v = env2@;
        let evaluated = eval_expr(&exps[i], &mut env2, fuel);
        proof {
            assert(env2v == env@);
            assert(evaluated@ == eval_expr_s(fuel as nat, vs[i as int], env@).0);
        }
        if is_error(&evaluated) {
            let mut only: Vec<Object> = Vec::new();
            only.push(evaluated);
            proof {
                assert(only@.drop_last() =~= Seq::<Object>::empty());
                assert(objs_view(only@) =~= seq![obj_view(only@.last())]);
                assert(sufi =~= objs_view(only@));
            }
            return only;
        }
        let ghost prev = result@;
        result.push(evaluated);
        let ghost sufn = eval_exprs_s(fuel as nat, vs.skip(i + 1 as int), env@);
        proof {
            assert(result@.drop_last() =~= prev);
            lemma_objs_view_push_index(prev, result@);
            assert(objs_view(result@) =~= objs_view(prev).push(obj_view(result@.last())));
            if sufn.len() > 0 && is_error_v(sufn[0]) {
                assert(sufi == sufn);
            } else {
                assert(sufi =~= seq![obj_view(result@.last())] + sufn);
                assert(objs_view(prev) + sufi =~= objs_view(result@) + sufn);
            }
        }
        i = i + 1;
    }
    proof {
        assert(vs.skip(exps@.len() as int) =~= Seq::<ExprV>::empty());
        assert(objs_view(result@) + Seq::<ObjV>::empty() =~= objs_view(result@));
    }
    result
}

/// After a push, the view of the longer sequence indexes like the shorter
/// one plus the new element.
proof fn lemma_objs_view_push_index(prev: Seq<Object>, cur: Seq<Object>)
    requires
        cur.len() == prev.len() + 1,
        cur.drop_last() == prev,
    ensures
        objs_view(cur) == objs_view(prev).push(obj_view(cur.last())),
        objs_view(cur).len() == prev.len() + 1,
        forall|j: int| 0 <= j < prev.len() ==> objs_view(cur)[j] == objs_view(prev)[j],
{
    crate::object::lemma_objs_view_index(prev);
    crate::object::lemma_objs_view_index(cur);
}

/// Reduces one expression.
fn eval_expr(expr: &Expression, env: &mut Environment, fuel: u64) -> (r: Object)
    ensures
        ({
            let (v, e2) = eval_expr_s(fuel as nat, crate::ast::expr_view(*expr), old(env)@);
            r@ == v && final(env)@ == e2
        }),
    decreases fuel, 1int, *expr,
{
    match expr {
        Expression::Identifier(x) => eval_identifier(x, env),
        Expression::IntegerLiteral(x) => Object::Integer(x.value),
        Expression::StringLiteral(x) => Object::String(x.value.clone()),
        Expression::Boolean(x) => Object::Boolean(x.value),
        Expression::PrefixExpression(x) => {
            let right = match &x.right {
                Some(r) => eval_expr(&**r, env, fuel),
                None => Object::Null,
            };
            if is_error(&right) {
                return right;
            }
            eval_prefix(&x.operator, right)
        },
        Expression::InfixExpression(x) => {
            let left = match &x.left {
                Some(l) => eval_expr(&**l, env, fuel),
                None => Object::Null,
            };
            if is_error(&left) {
                return left;
            }
            let right = match &x.right {
                Some(r) => eval_expr(&**r, env, fuel),
                None => Object::Null,
            };
            if is_error(&right) {
                return right;
            }
            eval_infix_expr(&x.operator, left, right)
        },
        Expression::IfExpression(x) => eval_if_expr(x, env, fuel),
        Expression::FunctionLiteral(x) => {
            let params: Vec<Expression> = match &x.parameters {
                Some(p) => crate::ast::clone_exprs(p),
                None => Vec::new(),
            };
            match &x.body {
                Some(b) => match &**b {
                    Statement::BlockStatement(bb) => {
                        proof {
                            assert(stmt_view(**b) == StmtV::BlockStatement(
                                crate::ast::BlockStatementV {
                                    token: bb.token@,
                                    statements: stmts_view(bb.statements@),
                                },
                            ));
                            if let Some(bx) = crate::ast::opt_stmt_view(x.body) {
                                assert(*bx == stmt_view(**b));
                            }
                        }
                        Object::Function(
                            Function { parameters: params, body: bb.clone(), env: env.clone() },
                        )
                    },
                    _ => {
                        proof {
                            assert(!(stmt_view(**b) is BlockStatement));
                            if let Some(bx) = crate::ast::opt_stmt_view(x.body) {
                                assert(*bx == stmt_view(**b));
                            }
                        }
                        new_error("not a block statement".to_owned())
                    },
                },
                None => new_error("expected statement but got something else".to_owned()),
            }
        },
        Expression::CallExpression(x) => {
            let function = match &x.func {
                Some(f) => eval_expr(&**f, env, fuel),
                None => new_error("expected function got something else".to_owned()),
            };
            if is_error(&function) {
                return function;
            }
            let args: Vec<Object> = match &x.args {
                Some(a) => eval_exprs(a, env, fuel),
                None => Vec::new(),
            };
            if args.len() == 1 && is_error(&args[0]) {
                proof {
                    crate::object::lemma_objs_view_index(args@);
                }
                return args[0].clone();
            }
            proof {
                crate::object::lemma_objs_view_index(args@);
            }
            apply_function(function, args, env, fuel)
        },
    }
}

/// Every parameter of the list is an identifier.
fn params_are_identifiers(params: &Vec<Expression>) -> (r: bool)
    ensures
        r == params_ok_s(exprs_view(params@)),
{
    proof {
        crate::ast::lemma_exprs_view_index(params@);
    }
    let mut i: usize = 0;
    while i < params.len()
        invariant
            0 <= i <= params@.len(),
            forall|j: int| 0 <= j < params@.len() ==> exprs_view(params@)[j]
                == crate::ast::expr_view(#[trigger] params@[j]),
            exprs_view(params@).len() == params@.len(),
            forall|j: int| 0 <= j < i ==> (#[trigger] exprs_view(params@)[j]) is Identifier,
        decreases params@.len() - i,
    {
        match &params[i] {
            Expression::Identifier(_) => {},
            _ => {
                return false;
            },
        }
        i = i + 1;
    }
    true
}

/// Builds the call scope: a fresh environment enclosed by the function's
/// captured one, with each identifier parameter bound to its argument.
#[verifier::loop_isolation(false)]
fn extended_func_env(f: &Function, args: &Vec<Object>, env: &Environment) -> (r: Environment)
    requires
        args@.len() >= f.parameters@.len(),
    ensures
        r@ == bind_params_s(
            exprs_view(f.parameters@),
            objs_view(args@),
            EnvV { store: Seq::empty(), outer: Some(Box::new(f.env@)) },
        ),
{
    proof {
        crate::ast::lemma_exprs_view_index(f.parameters@);
        crate::object::lemma_objs_view_index(args@);
    }
    let ghost vp = exprs_view(f.parameters@);
    let ghost va = objs_view(args@);
    let mut envex = env.new_enclosed(f.env.clone());
    proof {
        assert(vp.skip(0int) =~= vp);
        assert(va.skip(0int) =~= va);
    }
    let mut i: usize = 0;
    while i < f.parameters.len()
        invariant
            0 <= i <= f.parameters@.len(),
            vp == exprs_view(f.parameters@),
            va == objs_view(args@),
            vp.len() == f.parameters@.len(),
            va.len() == args@.len(),
            va.len() >= vp.len(),
            forall|j: int| 0 <= j < f.parameters@.len() ==> vp[j] == crate::ast::expr_view(
                #[trigger] f.parameters@[j],
            ),
            forall|j: int| 0 <= j < args@.len() ==> va[j] == obj_view(#[trigger] args@[j]),
            bind_params_s(
                vp,
                va,
                EnvV { store: Seq::empty(), outer: Some(Box::new(f.env@)) },
            ) == bind_params_s(vp.skip(i as int), va.skip(i as int), envex@),
        decreases f.parameters@.len() - i,
    {
        proof {
            assert(vp.skip(i as int)[0] == vp[i as int]);
            assert(va.skip(i as int)[0] == va[i as int]);
            assert(vp.skip(i as int).drop_first() =~= vp.skip(i + 1 as int));
            assert(va.skip(i as int).drop_first() =~= va.skip(i + 1 as int));
        }
        match &f.parameters[i] {
            Expression::Identifier(x) => {
                let _ = envex.set(x.value.clone(), args[i].clone());
            },
            _ => {},
        }
        i = i + 1;
    }
    proof {
        assert(vp.skip(vp.len() as int) =~= Seq::<ExprV>::empty());
    }
    envex
}

/// Applies a value to evaluated arguments; `fuel` is the depth budget for
/// running the body.
fn apply_function(fun: Object, args: Vec<Object>, env: &Environment, fuel: u64) -> (r: Object)
    ensures
        r@ == apply_function_s(fuel as nat, fun@, objs_view(args@)),
    decreases fuel, 0int, fun,
{
    match &fun {
        Object::Function(f) => {
            proof {
                crate::ast::lemma_exprs_view_index(f.parameters@);
                crate::object::lemma_objs_view_index(args@);
            }
            if fuel == 0 {
                return depth_error();
            }
            if !params_are_identifiers(&f.parameters) {
                return new_error("invalid function parameter".to_owned());
            }
            if args.len() < f.parameters.len() {
                let mut m = "wrong number of arguments: expected ".to_owned();
                let np = crate::numbers::u64_dec_string(f.parameters.len() as u64);
                push_string(&mut m, &np);
                push_str(&mut m, ", got ");
                let na = crate::numbers::u64_dec_string(args.len() as u64);
                push_string(&mut m, &na);
                return Object::Error(m);
            }
            let mut extended_env = extended_func_env(f, &args, env);
            let evaluated = eval_block(&f.body, &mut extended_env, fuel - 1);
            unwrap_return_value(evaluated)
        },
        _ => {
            let mut m = "not a function: ".to_owned();
            let t = fun.type_();
            push_string(&mut m, &t);
            Object::Error(m)
        },
    }
}

/// Unwraps one layer of return sentinel, and only one.
fn unwrap_return_value(obj: Object) -> (r: Object)
    ensures
        r@ == unwrap_return_s(obj@),
{
    match obj {
        Object::Return(x) => *x,
        _ => obj,
    }
}

/// The parser state at the start of a source string.
pub open spec fn initial_parser(src: Seq<char>) -> crate::parser::ParserV {
    crate::parser::ParserV {
        toks: crate::lexer::tokens_of(src),
        cur: 0,
        errors: Seq::empty(),
        prefix_fns: crate::parser::standard_prefix_table(),
        infix_fns: crate::parser::standard_infix_table(),
        precedence: crate::parser::standard_precedence_table(),
    }
}

/// The program a source string parses to.
pub open spec fn program_of(src: Seq<char>) -> Seq<StmtV> {
    crate::parser::parse_program_s(initial_parser(src)).0
}

/// The parse errors a source string produces.
pub open spec fn parse_errors_of(src: Seq<char>) -> Seq<Seq<char>> {
    crate::parser::parse_program_s(initial_parser(src)).1.errors
}

/// What running a source string in an environment produces.
pub open spec fn run_s(src: Seq<char>, env: EnvV) -> (ObjV, EnvV) {
    eval_prog_s(EVAL_DEPTH as nat, program_of(src), env)
}

/// Runs a source string: lexes and parses it, and evaluates the program in
/// `env` only when no parse errors were recorded. On parse errors the error
/// list is handed back, non-empty, and the environment is untouched.
pub fn run(input: &str, env: &mut Environment) -> (r: Result<Object, Vec<String>>)
    ensures
        parse_errors_of(input@).len() > 0 <==> r is Err,
        (match r {
            Result::Ok(v) => ({
                let (ov, e2) = run_s(input@, old(env)@);
                v@ == ov && final(env)@ == e2
            }),
            Result::Err(msgs) => crate::parser::strs_view(msgs@) == parse_errors_of(input@)
                && final(env)@ == old(env)@,
        }),
{
    let mut lexer = crate::lexer::Lexer::init_lexer(input);
    let mut parser = crate::parser::Parser::new(&mut lexer);
    let program = parser.parse_program();
    let errs = parser.errors();
    proof {
        assert(initial_parser(input@) =~= (crate::parser::ParserV {
            toks: crate::lexer::tokens_of(input@),
            cur: 0,
            errors: Seq::<Seq<char>>::empty(),
            prefix_fns: crate::parser::standard_prefix_table(),
            infix_fns: crate::parser::standard_infix_table(),
            precedence: crate::parser::standard_precedence_table(),
        }));
    }
    if errs.len() > 0 {
        Err(errs)
    } else {
        Ok(eval_prog(program, env))
    }
}

} // verus!
