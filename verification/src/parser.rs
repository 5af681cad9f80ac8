//! Pratt parser: lifts the token stream into a typed syntax tree, with two
//! tokens of lookahead, a table of prefix and infix handlers, and a table of
//! operator precedences. The spec functions define the exact tree and error
//! list for every token stream; the executable parser is proved to produce
//! them. A nesting-depth budget bounds recursion, so parsing always
//! terminates; exceeding it records a parse error.

use vstd::prelude::*;

use crate::ast::{
    stmts_view, BlockStatementV, BooleanV, CallExpressionV, Expression, ExpressionStatementV,
    ExprV, FunctionLiteralV, Identifier, IdentifierV, IfExpressionV, InfixExpressionV,
    IntegerLiteral, IntegerLiteralV, LetStatementV, PrefixExpressionV, Program,
    ReturnStatementV, Statement, StmtV, StringLiteralV,
};
use crate::lexer::{token_stream_from, tok_v, Lexer};
use crate::numbers::{all_dec_digits, dec_val};
use crate::text::{push_str, push_string, string_eq_str};
use crate::token::{eof_token_v, token_type_name, token_type_text, Token, TokenType, TokenV};

verus! {

pub const LOWEST: i32 = 0;

pub const EQUALS: i32 = 1;

pub const LESSGREATER: i32 = 2;

pub const SUM: i32 = 3;

pub const PRODUCT: i32 = 4;

pub const PREFIX: i32 = 5;

pub const CALL: i32 = 6;

/// How deeply productions may nest before parsing stops with a recorded
/// error.
pub const PARSE_DEPTH: u64 = 4096;

/// The parse error recorded when the nesting budget is exhausted.
pub open spec fn depth_error_msg() -> Seq<char> {
    "nesting too deep"@
}

/// The parser's state: the token stream, the index of the current token,
/// the recorded errors, and the three registration tables.
#[verifier::ext_equal]
pub struct ParserV {
    pub toks: Seq<TokenV>,
    pub cur: int,
    pub errors: Seq<Seq<char>>,
    pub prefix_fns: Seq<(TokenType, Seq<char>)>,
    pub infix_fns: Seq<(TokenType, Seq<char>)>,
    pub precedence: Seq<(TokenType, int)>,
}

/// The token at an index: EOF past the end of the stream.
pub open spec fn tok_at(toks: Seq<TokenV>, i: int) -> TokenV {
    if 0 <= i < toks.len() {
        toks[i]
    } else {
        eof_token_v()
    }
}

/// The current token.
pub open spec fn cur_tok(p: ParserV) -> TokenV {
    tok_at(p.toks, p.cur)
}

/// The token after the current one.
pub open spec fn peek_tok(p: ParserV) -> TokenV {
    tok_at(p.toks, p.cur + 1)
}

/// Advancing by one token, never past the end of the stream.
pub open spec fn advance_s(p: ParserV) -> ParserV {
    if p.cur < p.toks.len() {
        ParserV { cur: p.cur + 1, ..p }
    } else {
        p
    }
}

/// Recording a parse error.
pub open spec fn push_err(p: ParserV, msg: Seq<char>) -> ParserV {
    ParserV { errors: p.errors.push(msg), ..p }
}

/// The handler registered for a token kind: the most recent registration
/// wins.
pub open spec fn lookup_name(tbl: Seq<(TokenType, Seq<char>)>, t: TokenType) -> Option<Seq<char>>
    decreases tbl,
{
    if tbl.len() == 0 {
        None
    } else if tbl.last().0 == t {
        Some(tbl.last().1)
    } else {
        lookup_name(tbl.drop_last(), t)
    }
}

/// The precedence registered for a token kind: the most recent registration
/// wins.
pub open spec fn lookup_prec(tbl: Seq<(TokenType, int)>, t: TokenType) -> Option<int>
    decreases tbl,
{
    if tbl.len() == 0 {
        None
    } else if tbl.last().0 == t {
        Some(tbl.last().1)
    } else {
        lookup_prec(tbl.drop_last(), t)
    }
}

/// The precedence of a token kind, lowest when none is registered.
pub open spec fn prec_of(p: ParserV, t: TokenType) -> int {
    match lookup_prec(p.precedence, t) {
        Some(x) => x,
        None => LOWEST as int,
    }
}

/// The message recorded when a specific next token was expected.
pub open spec fn peek_error_msg(p: ParserV, t: TokenType) -> Seq<char> {
    "expected next token to be "@ + token_type_name(t) + ", got "@ + token_type_name(
        peek_tok(p).type_,
    )
}

/// Advances past the expected token kind, or records an error and stays.
pub open spec fn expect_peek_s(p: ParserV, t: TokenType) -> (bool, ParserV) {
    if peek_tok(p).type_ == t {
        (true, advance_s(p))
    } else {
        (false, push_err(p, peek_error_msg(p, t)))
    }
}

/// The message recorded when the current token has no prefix handler.
pub open spec fn no_prefix_msg(t: TokenType) -> Seq<char> {
    "no prefix parse function for "@ + token_type_name(t) + " found"@
}

/// The message recorded when an integer literal cannot be read.
pub open spec fn int_error_msg(lit: Seq<char>) -> Seq<char> {
    "could not parse "@ + lit + " as integer"@
}

/// An identifier expression at the current token.
pub open spec fn ident_here(p: ParserV) -> ExprV {
    ExprV::Identifier(IdentifierV { token: cur_tok(p), value: cur_tok(p).literal })
}

pub open spec fn opt_box_e(o: Option<ExprV>) -> Option<Box<ExprV>> {
    match o {
        Some(e) => Some(Box::new(e)),
        None => None,
    }
}

pub open spec fn opt_box_s(o: Option<StmtV>) -> Option<Box<StmtV>> {
    match o {
        Some(s) => Some(Box::new(s)),
        None => None,
    }
}

/// The iteration budget of the scanning loops: more than the tokens that
/// remain, so the budget never runs out before the loop's own exit
/// condition.
pub open spec fn iters_of(p: ParserV) -> nat {
    p.toks.len() + 2
}

// ----------------------------------------------------------------------------
// The spec-level parser. One function per production; `depth` bounds
// nesting.
// ----------------------------------------------------------------------------

/// One statement: a let statement, a return statement, or an expression
/// statement.
pub open spec fn parse_statement_s(p: ParserV, depth: nat) -> (Option<StmtV>, ParserV)
    decreases depth, 0nat,
{
    if depth == 0 {
        (None, push_err(p, depth_error_msg()))
    } else if cur_tok(p).type_ == TokenType::LET {
        parse_let_s(p, (depth - 1) as nat)
    } else if cur_tok(p).type_ == TokenType::RETURN {
        parse_return_s(p, (depth - 1) as nat)
    } else {
        parse_expr_stmt_s(p, (depth - 1) as nat)
    }
}

/// `let <ident> = <expression>` with an optional trailing semicolon.
pub open spec fn parse_let_s(p: ParserV, depth: nat) -> (Option<StmtV>, ParserV)
    decreases depth, 0nat,
{
    if depth == 0 {
        (None, push_err(p, depth_error_msg()))
    } else {
        let let_tok = cur_tok(p);
        let (ok1, p1) = expect_peek_s(p, TokenType::IDENT);
        if !ok1 {
            (None, p1)
        } else {
            let name = IdentifierV { token: cur_tok(p1), value: cur_tok(p1).literal };
            let (ok2, p2) = expect_peek_s(p1, TokenType::ASSIGN);
            if !ok2 {
                (None, p2)
            } else {
                let p3 = advance_s(p2);
                let (val, p4) = parse_expression_s(p3, LOWEST as int, (depth - 1) as nat);
                match val {
                    None => (None, p4),
                    Some(v) => {
                        let p5 = if peek_tok(p4).type_ == TokenType::SEMICOLON {
                            advance_s(p4)
                        } else {
                            p4
                        };
                        (
                            Some(
                                StmtV::LetStatement(
                                    LetStatementV {
                                        token: let_tok,
                                        name: Some(name),
                                        value: Some(Box::new(v)),
                                    },
                                ),
                            ),
                            p5,
                        )
                    },
                }
            }
        }
    }
}

/// `return` with an optional expression and optional trailing semicolon.
pub open spec fn parse_return_s(p: ParserV, depth: nat) -> (Option<StmtV>, ParserV)
    decreases depth, 0nat,
{
    if depth == 0 {
        (None, push_err(p, depth_error_msg()))
    } else {
        let tok = cur_tok(p);
        let p1 = advance_s(p);
        if cur_tok(p1).type_ == TokenType::SEMICOLON {
            (Some(StmtV::ReturnStatement(ReturnStatementV { token: tok, value: None })), p1)
        } else {
            let (val, p2) = parse_expression_s(p1, LOWEST as int, (depth - 1) as nat);
            let p3 = if peek_tok(p2).type_ == TokenType::SEMICOLON {
                advance_s(p2)
            } else {
                p2
            };
            (Some(StmtV::ReturnStatement(ReturnStatementV { token: tok, value: opt_box_e(val) })), p3)
        }
    }
}

/// An expression as a statement, parsed at the lowest precedence, with an
/// optional trailing semicolon. A failed expression produces no node; the
/// error is already recorded.
pub open spec fn parse_expr_stmt_s(p: ParserV, depth: nat) -> (Option<StmtV>, ParserV)
    decreases depth, 0nat,
{
    if depth == 0 {
        (None, push_err(p, depth_error_msg()))
    } else {
        let tok = cur_tok(p);
        let (e, p1) = parse_expression_s(p, LOWEST as int, (depth - 1) as nat);
        match e {
            None => (None, p1),
            Some(x) => {
                let p2 = if peek_tok(p1).type_ == TokenType::SEMICOLON {
                    advance_s(p1)
                } else {
                    p1
                };
                (
                    Some(
                        StmtV::ExpressionStatement(
                            ExpressionStatementV { token: tok, expr: Some(Box::new(x)) },
                        ),
                    ),
                    p2,
                )
            },
        }
    }
}

/// A handler name the expression parser dispatches on.
pub open spec fn is_known_prefix(fname: Seq<char>) -> bool {
    ||| fname == "parse_identifier"@
    ||| fname == "parse_integer_literal"@
    ||| fname == "parse_prefix_expr"@
    ||| fname == "parse_boolean_expr"@
    ||| fname == "parse_group_expr"@
    ||| fname == "parse_if_expr"@
    ||| fname == "parse_function_literal"@
    ||| fname == "parse_string"@
}

/// Pratt expression parsing: the prefix handler of the current token makes
/// the left operand, then registered infix handlers extend it while the next
/// token is not a semicolon and binds tighter than `prec`.
pub open spec fn parse_expression_s(p: ParserV, prec: int, depth: nat) -> (Option<ExprV>, ParserV)
    decreases depth, 0nat,
{
    if depth == 0 {
        (None, push_err(p, depth_error_msg()))
    } else {
        match lookup_name(p.prefix_fns, cur_tok(p).type_) {
            None => (None, push_err(p, no_prefix_msg(cur_tok(p).type_))),
            Some(fname) => {
                if !is_known_prefix(fname) {
                    (None, p)
                } else {
                    let (left0, p1) = if fname == "parse_identifier"@ {
                    (Some(ident_here(p)), p)
                } else if fname == "parse_integer_literal"@ {
                    parse_int_lit_s(p)
                } else if fname == "parse_prefix_expr"@ {
                    parse_prefix_expr_s(p, (depth - 1) as nat)
                } else if fname == "parse_boolean_expr"@ {
                    (
                        Some(
                            ExprV::Boolean(
                                BooleanV {
                                    token: cur_tok(p),
                                    value: cur_tok(p).type_ == TokenType::TRUE,
                                },
                            ),
                        ),
                        p,
                    )
                } else if fname == "parse_group_expr"@ {
                    parse_group_s(p, (depth - 1) as nat)
                } else if fname == "parse_if_expr"@ {
                    parse_if_s(p, (depth - 1) as nat)
                } else if fname == "parse_function_literal"@ {
                    parse_function_s(p, (depth - 1) as nat)
                } else if fname == "parse_string"@ {
                    (
                        Some(
                            ExprV::StringLiteral(
                                StringLiteralV { token: cur_tok(p), value: cur_tok(p).literal },
                            ),
                        ),
                        p,
                    )
                    } else {
                        (None, p)
                    };
                    infix_loop_s(p1, left0, prec, (depth - 1) as nat, iters_of(p1))
                }
            },
        }
    }
}

/// The infix extension loop of `parse_expression_s`.
pub open spec fn infix_loop_s(
    p: ParserV,
    left: Option<ExprV>,
    prec: int,
    depth: nat,
    iters: nat,
) -> (Option<ExprV>, ParserV)
    decreases depth, iters,
{
    if peek_tok(p).type_ == TokenType::SEMICOLON || peek_tok(p).type_ == TokenType::EOF || prec
        >= prec_of(p, peek_tok(p).type_) || iters == 0 || depth == 0 {
        (left, p)
    } else {
        match lookup_name(p.infix_fns, peek_tok(p).type_) {
            None => (left, p),
            Some(fname) => {
                if fname == "parse_infix_expr"@ {
                    let p1 = advance_s(p);
                    let (ex, p2) = parse_infix_expression_s(p1, left, (depth - 1) as nat);
                    match ex {
                        Some(e2) => infix_loop_s(p2, Some(e2), prec, depth, (iters - 1) as nat),
                        None => (None, p2),
                    }
                } else if fname == "parse_call"@ {
                    let p1 = advance_s(p);
                    let (ex, p2) = parse_call_expression_s(p1, left, (depth - 1) as nat);
                    match ex {
                        Some(e2) => infix_loop_s(p2, Some(e2), prec, depth, (iters - 1) as nat),
                        None => (None, p2),
                    }
                } else {
                    (None, p)
                }
            },
        }
    }
}

/// An integer literal: the digits of the current token's literal, when they
/// fit in an `i64`; otherwise an error is recorded and no node is produced.
pub open spec fn parse_int_lit_s(p: ParserV) -> (Option<ExprV>, ParserV) {
    let lit = cur_tok(p).literal;
    if lit.len() > 0 && all_dec_digits(lit) && dec_val(lit) <= i64::MAX as nat {
        (
            Some(
                ExprV::IntegerLiteral(
                    IntegerLiteralV { token: cur_tok(p), value: dec_val(lit) as i64 },
                ),
            ),
            p,
        )
    } else {
        (None, push_err(p, int_error_msg(lit)))
    }
}

/// A prefix operator followed by its operand, parsed at prefix precedence.
pub open spec fn parse_prefix_expr_s(p: ParserV, depth: nat) -> (Option<ExprV>, ParserV)
    decreases depth, 0nat,
{
    if depth == 0 {
        (None, push_err(p, depth_error_msg()))
    } else {
        let tok = cur_tok(p);
        let p1 = advance_s(p);
        let (r, p2) = parse_expression_s(p1, PREFIX as int, (depth - 1) as nat);
        match r {
            None => (None, p2),
            Some(rr) => (
                Some(
                    ExprV::PrefixExpression(
                        PrefixExpressionV {
                            token: tok,
                            operator: tok.literal,
                            right: Some(Box::new(rr)),
                        },
                    ),
                ),
                p2,
            ),
        }
    }
}

/// A parenthesized expression.
pub open spec fn parse_group_s(p: ParserV, depth: nat) -> (Option<ExprV>, ParserV)
    decreases depth, 0nat,
{
    if depth == 0 {
        (None, push_err(p, depth_error_msg()))
    } else {
        let p1 = advance_s(p);
        let (e, p2) = parse_expression_s(p1, LOWEST as int, (depth - 1) as nat);
        let (ok, p3) = expect_peek_s(p2, TokenType::RPAREN);
        if !ok {
            (None, p3)
        } else {
            (e, p3)
        }
    }
}

/// `if (<cond>) { <consequence> }` with an optional `else { <alternative> }`.
pub open spec fn parse_if_s(p: ParserV, depth: nat) -> (Option<ExprV>, ParserV)
    decreases depth, 0nat,
{
    if depth == 0 {
        (None, push_err(p, depth_error_msg()))
    } else {
        let tok = tok_v(TokenType::IF, "if"@);
        let (ok1, p1) = expect_peek_s(p, TokenType::LPAREN);
        if !ok1 {
            (None, p1)
        } else {
            let p2 = advance_s(p1);
            let (cond, p3) = parse_expression_s(p2, LOWEST as int, (depth - 1) as nat);
            if cond is None {
                (None, p3)
            } else {
                let (ok2, p4) = expect_peek_s(p3, TokenType::RPAREN);
                if !ok2 {
                    (None, p4)
                } else {
                    let (ok3, p5) = expect_peek_s(p4, TokenType::LBRACE);
                    if !ok3 {
                        (None, p5)
                    } else {
                        let (blk, p6) = parse_block_s(p5, (depth - 1) as nat);
                        if blk is None {
                            (None, p6)
                        } else if peek_tok(p6).type_ == TokenType::ELSE {
                            let p7 = advance_s(p6);
                            let (ok4, p8) = expect_peek_s(p7, TokenType::LBRACE);
                            if !ok4 {
                                (
                                    Some(
                                        ExprV::IfExpression(
                                            IfExpressionV {
                                                token: tok,
                                                cond: opt_box_e(cond),
                                                consequence: opt_box_s(blk),
                                                alternative: None,
                                            },
                                        ),
                                    ),
                                    p8,
                                )
                            } else {
                                let (alt, p9) = parse_block_s(p8, (depth - 1) as nat);
                                if alt is None {
                                    (None, p9)
                                } else {
                                    (
                                        Some(
                                            ExprV::IfExpression(
                                                IfExpressionV {
                                                    token: tok,
                                                    cond: opt_box_e(cond),
                                                    consequence: opt_box_s(blk),
                                                    alternative: opt_box_s(alt),
                                                },
                                            ),
                                        ),
                                        p9,
                                    )
                                }
                            }
                        } else {
                            (
                                Some(
                                    ExprV::IfExpression(
                                        IfExpressionV {
                                            token: tok,
                                            cond: opt_box_e(cond),
                                            consequence: opt_box_s(blk),
                                            alternative: None,
                                        },
                                    ),
                                ),
                                p6,
                            )
                        }
                    }
                }
            }
        }
    }
}

/// A block: statements until the closing brace or the end of the stream.
pub open spec fn parse_block_s(p: ParserV, depth: nat) -> (Option<StmtV>, ParserV)
    decreases depth, 0nat,
{
    if depth == 0 {
        (None, push_err(p, depth_error_msg()))
    } else {
        let tok = cur_tok(p);
        let p1 = advance_s(p);
        let (stmts, p2) = block_stmts_s(p1, (depth - 1) as nat, iters_of(p1), Seq::empty());
        (Some(StmtV::BlockStatement(BlockStatementV { token: tok, statements: stmts })), p2)
    }
}

/// The statement loop of a block.
pub open spec fn block_stmts_s(p: ParserV, depth: nat, iters: nat, acc: Seq<StmtV>) -> (
    Seq<StmtV>,
    ParserV,
)
    decreases depth, iters,
{
    if cur_tok(p).type_ == TokenType::RBRACE || cur_tok(p).type_ == TokenType::EOF || iters == 0
        || depth == 0 {
        (acc, p)
    } else {
        let (st, p1) = parse_statement_s(p, (depth - 1) as nat);
        let acc1 = match st {
            Some(s) => acc.push(s),
            None => acc,
        };
        block_stmts_s(advance_s(p1), depth, (iters - 1) as nat, acc1)
    }
}

/// An infix operator with an already parsed left operand; the right operand
/// is parsed at the operator's own precedence, so chains associate to the
/// left.
pub open spec fn parse_infix_expression_s(p: ParserV, left: Option<ExprV>, depth: nat) -> (
    Option<ExprV>,
    ParserV,
)
    decreases depth, 0nat,
{
    if depth == 0 {
        (None, push_err(p, depth_error_msg()))
    } else {
        let tok = cur_tok(p);
        let prc = prec_of(p, tok.type_);
        let p1 = advance_s(p);
        let (r, p2) = parse_expression_s(p1, prc, (depth - 1) as nat);
        match (left, r) {
            (Some(l), Some(rr)) => (
                Some(
                    ExprV::InfixExpression(
                        InfixExpressionV {
                            token: tok,
                            left: Some(Box::new(l)),
                            operator: tok.literal,
                            right: Some(Box::new(rr)),
                        },
                    ),
                ),
                p2,
            ),
            _ => (None, p2),
        }
    }
}

/// A function literal: parameter list, then a block body.
pub open spec fn parse_function_s(p: ParserV, depth: nat) -> (Option<ExprV>, ParserV)
    decreases depth, 0nat,
{
    if depth == 0 {
        (None, push_err(p, depth_error_msg()))
    } else {
        let tok = cur_tok(p);
        let (ok1, p1) = expect_peek_s(p, TokenType::LPAREN);
        if !ok1 {
            (None, p1)
        } else {
            let (params, p2) = parse_fn_params_s(p1);
            if params is None {
                (None, p2)
            } else {
                let (ok2, p3) = expect_peek_s(p2, TokenType::LBRACE);
                if !ok2 {
                    (None, p3)
                } else {
                    let (bod, p4) = parse_block_s(p3, (depth - 1) as nat);
                    match bod {
                        None => (None, p4),
                        Some(b) => (
                            Some(
                                ExprV::FunctionLiteral(
                                    FunctionLiteralV {
                                        token: tok,
                                        parameters: params,
                                        body: Some(Box::new(b)),
                                    },
                                ),
                            ),
                            p4,
                        ),
                    }
                }
            }
        }
    }
}

/// A comma-separated, possibly empty list of identifier parameters, closed
/// by a right parenthesis.
pub open spec fn parse_fn_params_s(p: ParserV) -> (Option<Seq<ExprV>>, ParserV) {
    if peek_tok(p).type_ == TokenType::RPAREN {
        (Some(Seq::empty()), advance_s(p))
    } else {
        let p1 = advance_s(p);
        let (acc, p2) = params_loop_s(p1, iters_of(p1), seq![ident_here(p1)]);
        let (ok, p3) = expect_peek_s(p2, TokenType::RPAREN);
        if !ok {
            (None, p3)
        } else {
            (Some(acc), p3)
        }
    }
}

/// The comma loop of a parameter list.
pub open spec fn params_loop_s(p: ParserV, iters: nat, acc: Seq<ExprV>) -> (Seq<ExprV>, ParserV)
    decreases iters,
{
    if peek_tok(p).type_ != TokenType::COMMA || iters == 0 {
        (acc, p)
    } else {
        let p1 = advance_s(advance_s(p));
        params_loop_s(p1, (iters - 1) as nat, acc.push(ident_here(p1)))
    }
}

/// A call expression: the already parsed callee and the argument list.
pub open spec fn parse_call_expression_s(p: ParserV, func: Option<ExprV>, depth: nat) -> (
    Option<ExprV>,
    ParserV,
)
    decreases depth, 0nat,
{
    if depth == 0 {
        (None, push_err(p, depth_error_msg()))
    } else {
        match func {
            None => (None, p),
            Some(fe) => {
                let tok = cur_tok(p);
                let (args, p1) = parse_call_args_s(p, (depth - 1) as nat);
                match args {
                    None => (None, p1),
                    Some(a) => (
                        Some(
                            ExprV::CallExpression(
                                CallExpressionV {
                                    token: tok,
                                    func: Some(Box::new(fe)),
                                    args: Some(a),
                                },
                            ),
                        ),
                        p1,
                    ),
                }
            },
        }
    }
}

/// A comma-separated, possibly empty list of argument expressions, closed by
/// a right parenthesis.
pub open spec fn parse_call_args_s(p: ParserV, depth: nat) -> (Option<Seq<ExprV>>, ParserV)
    decreases depth, 0nat,
{
    if depth == 0 {
        (None, push_err(p, depth_error_msg()))
    } else if peek_tok(p).type_ == TokenType::RPAREN {
        (Some(Seq::empty()), advance_s(p))
    } else {
        let p1 = advance_s(p);
        let (a0, p2) = parse_expression_s(p1, LOWEST as int, (depth - 1) as nat);
        match a0 {
            None => (None, p2),
            Some(a) => {
                let (acc, p3) = args_loop_s(p2, (depth - 1) as nat, iters_of(p2), seq![a]);
                match acc {
                    None => (None, p3),
                    Some(v) => {
                        let (ok, p4) = expect_peek_s(p3, TokenType::RPAREN);
                        if !ok {
                            (None, p4)
                        } else {
                            (Some(v), p4)
                        }
                    },
                }
            },
        }
    }
}

/// The comma loop of an argument list.
pub open spec fn args_loop_s(p: ParserV, depth: nat, iters: nat, acc: Seq<ExprV>) -> (
    Option<Seq<ExprV>>,
    ParserV,
)
    decreases depth, iters,
{
    if peek_tok(p).type_ != TokenType::COMMA || iters == 0 || depth == 0 {
        (Some(acc), p)
    } else {
        let p1 = advance_s(advance_s(p));
        let (ax, p2) = parse_expression_s(p1, LOWEST as int, (depth - 1) as nat);
        match ax {
            Some(a) => args_loop_s(p2, depth, (iters - 1) as nat, acc.push(a)),
            None => (None, p2),
        }
    }
}

/// The whole program: top-level statements until the end of the stream; a
/// failed statement stops parsing, and the program parsed so far is
/// returned.
pub open spec fn program_loop_s(p: ParserV, iters: nat, acc: Seq<StmtV>) -> (Seq<StmtV>, ParserV)
    decreases iters,
{
    if cur_tok(p).type_ == TokenType::EOF || iters == 0 {
        (acc, p)
    } else {
        let (st, p1) = parse_statement_s(p, PARSE_DEPTH as nat);
        match st {
            Some(s) => program_loop_s(advance_s(p1), (iters - 1) as nat, acc.push(s)),
            None => (acc, p1),
        }
    }
}

/// What the parser produces for a whole token stream.
pub open spec fn parse_program_s(p: ParserV) -> (Seq<StmtV>, ParserV) {
    program_loop_s(p, iters_of(p), Seq::empty())
}

/// The prefix handler table the parser starts with.
pub open spec fn standard_prefix_table() -> Seq<(TokenType, Seq<char>)> {
    seq![
        (TokenType::IDENT, "parse_identifier"@),
        (TokenType::INT, "parse_integer_literal"@),
        (TokenType::BANG, "parse_prefix_expr"@),
        (TokenType::MINUS, "parse_prefix_expr"@),
        (TokenType::TRUE, "parse_boolean_expr"@),
        (TokenType::FALSE, "parse_boolean_expr"@),
        (TokenType::LPAREN, "parse_group_expr"@),
        (TokenType::IF, "parse_if_expr"@),
        (TokenType::FUNCTION, "parse_function_literal"@),
        (TokenType::STRING, "parse_string"@),
    ]
}

/// The infix handler table the parser starts with.
pub open spec fn standard_infix_table() -> Seq<(TokenType, Seq<char>)> {
    seq![
        (TokenType::PLUS, "parse_infix_expr"@),
        (TokenType::MINUS, "parse_infix_expr"@),
        (TokenType::SLASH, "parse_infix_expr"@),
        (TokenType::ASTERICK, "parse_infix_expr"@),
        (TokenType::EQ, "parse_infix_expr"@),
        (TokenType::NEQ, "parse_infix_expr"@),
        (TokenType::LT, "parse_infix_expr"@),
        (TokenType::GT, "parse_infix_expr"@),
        (TokenType::LPAREN, "parse_call"@),
    ]
}

/// The precedence table the parser starts with.
pub open spec fn standard_precedence_table() -> Seq<(TokenType, int)> {
    seq![
        (TokenType::EQ, EQUALS as int),
        (TokenType::NEQ, EQUALS as int),
        (TokenType::LT, LESSGREATER as int),
        (TokenType::GT, LESSGREATER as int),
        (TokenType::PLUS, SUM as int),
        (TokenType::MINUS, SUM as int),
        (TokenType::SLASH, PRODUCT as int),
        (TokenType::ASTERICK, PRODUCT as int),
        (TokenType::LPAREN, CALL as int),
    ]
}

// ----------------------------------------------------------------------------
// The executable parser.
// ----------------------------------------------------------------------------

pub open spec fn opt_view_expr(o: Option<Expression>) -> Option<ExprV> {
    match o {
        Some(e) => Some(crate::ast::expr_view(e)),
        None => None,
    }
}

pub open spec fn opt_view_stmt(o: Option<Statement>) -> Option<StmtV> {
    match o {
        Some(s) => Some(crate::ast::stmt_view(s)),
        None => None,
    }
}

pub open spec fn opt_str_view(o: Option<String>) -> Option<Seq<char>> {
    match o {
        Some(s) => Some(s@),
        None => None,
    }
}

pub closed spec fn toks_view(l: Seq<Token>) -> Seq<TokenV>
    decreases l,
{
    if l.len() == 0 {
        Seq::empty()
    } else {
        toks_view(l.drop_last()).push(l.last()@)
    }
}

proof fn lemma_toks_view_index(l: Seq<Token>)
    ensures
        toks_view(l).len() == l.len(),
        forall|i: int| 0 <= i < l.len() ==> toks_view(l)[i] == (#[trigger] l[i])@,
    decreases l,
{
    if l.len() > 0 {
        lemma_toks_view_index(l.drop_last());
        assert forall|i: int| 0 <= i < l.len() implies toks_view(l)[i] == l[i]@ by {
            if i < l.len() - 1 {
                assert(l.drop_last()[i] == l[i]);
                assert(toks_view(l)[i] == toks_view(l.drop_last())[i]);
            } else {
                assert(toks_view(l)[i] == l.last()@);
            }
        }
    }
}

pub closed spec fn strs_view(l: Seq<String>) -> Seq<Seq<char>>
    decreases l,
{
    if l.len() == 0 {
        Seq::empty()
    } else {
        strs_view(l.drop_last()).push(l.last()@)
    }
}

proof fn lemma_strs_view_index(l: Seq<String>)
    ensures
        strs_view(l).len() == l.len(),
        forall|i: int| 0 <= i < l.len() ==> strs_view(l)[i] == (#[trigger] l[i])@,
    decreases l,
{
    if l.len() > 0 {
        lemma_strs_view_index(l.drop_last());
        assert forall|i: int| 0 <= i < l.len() implies strs_view(l)[i] == l[i]@ by {
            if i < l.len() - 1 {
                assert(l.drop_last()[i] == l[i]);
                assert(strs_view(l)[i] == strs_view(l.drop_last())[i]);
            } else {
                assert(strs_view(l)[i] == l.last()@);
            }
        }
    }
}

pub closed spec fn name_table_view(l: Seq<(TokenType, String)>) -> Seq<(TokenType, Seq<char>)>
    decreases l,
{
    if l.len() == 0 {
        Seq::empty()
    } else {
        name_table_view(l.drop_last()).push((l.last().0, l.last().1@))
    }
}

proof fn lemma_name_table_view_index(l: Seq<(TokenType, String)>)
    ensures
        name_table_view(l).len() == l.len(),
        forall|i: int| 0 <= i < l.len() ==> name_table_view(l)[i] == ((#[trigger] l[i]).0, l[i].1@),
    decreases l,
{
    if l.len() > 0 {
        lemma_name_table_view_index(l.drop_last());
        assert forall|i: int| 0 <= i < l.len() implies name_table_view(l)[i] == (l[i].0, l[i].1@) by {
            if i < l.len() - 1 {
                assert(l.drop_last()[i] == l[i]);
                assert(name_table_view(l)[i] == name_table_view(l.drop_last())[i]);
            } else {
                assert(name_table_view(l)[i] == (l.last().0, l.last().1@));
            }
        }
    }
}

pub closed spec fn prec_table_view(l: Seq<(TokenType, i32)>) -> Seq<(TokenType, int)>
    decreases l,
{
    if l.len() == 0 {
        Seq::empty()
    } else {
        prec_table_view(l.drop_last()).push((l.last().0, l.last().1 as int))
    }
}

/// Maintains two tokens of lookahead over a drained token stream and builds
/// the syntax tree by Pratt parsing.
pub struct Parser {
    tokens: Vec<Token>,
    cur: usize,
    prefix_fns: Vec<(TokenType, String)>,
    infix_fns: Vec<(TokenType, String)>,
    precedence: Vec<(TokenType, i32)>,
    errors: Vec<String>,
}

impl View for Parser {
    type V = ParserV;

    closed spec fn view(&self) -> ParserV {
        ParserV {
            toks: toks_view(self.tokens@),
            cur: self.cur as int,
            errors: strs_view(self.errors@),
            prefix_fns: name_table_view(self.prefix_fns@),
            infix_fns: name_table_view(self.infix_fns@),
            precedence: prec_table_view(self.precedence@),
        }
    }
}

/// One parsing step leaves the token stream and the tables alone and never
/// moves the cursor backwards or past the end.
pub open spec fn parser_steps(pre: ParserV, post: ParserV) -> bool {
    &&& post.toks == pre.toks
    &&& pre.cur <= post.cur
    &&& post.cur <= post.toks.len()
    &&& post.prefix_fns == pre.prefix_fns
    &&& post.infix_fns == pre.infix_fns
    &&& post.precedence == pre.precedence
}

impl Parser {
    /// The cursor lies within the token stream (one past the end at most).
    pub closed spec fn wf(&self) -> bool {
        0 <= self@.cur <= self@.toks.len()
    }

    /// The current token, EOF past the end of the stream.
    fn cur_token(&self) -> (t: Token)
        ensures
            t@ == cur_tok(self@),
    {
        proof {
            lemma_toks_view_index(self.tokens@);
        }
        if self.cur < self.tokens.len() {
            self.tokens[self.cur].clone()
        } else {
            Token::eof()
        }
    }

    /// The token after the current one, EOF past the end of the stream.
    fn peek_token(&self) -> (t: Token)
        ensures
            t@ == peek_tok(self@),
    {
        proof {
            lemma_toks_view_index(self.tokens@);
        }
        if self.cur < self.tokens.len() && self.cur + 1 < self.tokens.len() {
            self.tokens[self.cur + 1].clone()
        } else {
            Token::eof()
        }
    }

    /// Shifts the lookahead window one token forward.
    pub fn next_token(&mut self)
        ensures
            final(self)@ == advance_s(old(self)@),
    {
        proof {
            lemma_toks_view_index(self.tokens@);
        }
        if self.cur < self.tokens.len() {
            self.cur = self.cur + 1;
        }
    }

    /// Registers the prefix handler for a token kind.
    pub fn register_prefix(&mut self, tok_type: TokenType, fun: &str)
        ensures
            final(self)@ == (ParserV {
                prefix_fns: old(self)@.prefix_fns.push((tok_type, fun@)),
                ..old(self)@
            }),
    {
        let ghost prev = self.prefix_fns@;
        self.prefix_fns.push((tok_type, fun.to_owned()));
        proof {
            assert(self.prefix_fns@.drop_last() =~= prev);
            assert(self@ =~= (ParserV {
                prefix_fns: old(self)@.prefix_fns.push((tok_type, fun@)),
                ..old(self)@
            }));
        }
    }

    /// Registers the infix handler for a token kind.
    pub fn register_infix(&mut self, tok_type: TokenType, fun: &str)
        ensures
            final(self)@ == (ParserV {
                infix_fns: old(self)@.infix_fns.push((tok_type, fun@)),
                ..old(self)@
            }),
    {
        let ghost prev = self.infix_fns@;
        self.infix_fns.push((tok_type, fun.to_owned()));
        proof {
            assert(self.infix_fns@.drop_last() =~= prev);
            assert(self@ =~= (ParserV {
                infix_fns: old(self)@.infix_fns.push((tok_type, fun@)),
                ..old(self)@
            }));
        }
    }

    /// Registers the precedence of a token kind.
    fn register_precedence(&mut self, tok_type: TokenType, prec: i32)
        ensures
            final(self)@ == (ParserV {
                precedence: old(self)@.precedence.push((tok_type, prec as int)),
                ..old(self)@
            }),
    {
        let ghost prev = self.precedence@;
        self.precedence.push((tok_type, prec));
        proof {
            assert(self.precedence@.drop_last() =~= prev);
            assert(self@ =~= (ParserV {
                precedence: old(self)@.precedence.push((tok_type, prec as int)),
                ..old(self)@
            }));
        }
    }

    /// The recorded parse errors, oldest first.
    pub fn errors(&mut self) -> (r: Vec<String>)
        ensures
            *final(self) == *old(self),
            strs_view(r@) == old(self)@.errors,
            r@.len() == old(self)@.errors.len(),
    {
        proof {
            lemma_strs_view_index(self.errors@);
        }
        let mut out: Vec<String> = Vec::new();
        let mut i: usize = 0;
        while i < self.errors.len()
            invariant
                0 <= i <= self.errors@.len(),
                out@.len() == i,
                strs_view(out@) == strs_view(self.errors@).take(i as int),
                strs_view(self.errors@).len() == self.errors@.len(),
                forall|j: int| 0 <= j < self.errors@.len() ==> strs_view(self.errors@)[j] == (
                #[trigger] self.errors@[j])@,
            decreases self.errors@.len() - i,
        {
            let ghost prev = out@;
            out.push(self.errors[i].clone());
            proof {
                assert(out@.drop_last() =~= prev);
                lemma_strs_view_index(prev);
                lemma_strs_view_index(out@);
                assert(strs_view(out@) =~= strs_view(self.errors@).take(i + 1 as int));
            }
            i = i + 1;
        }
        proof {
            assert(strs_view(self.errors@).take(self.errors@.len() as int) =~= strs_view(
                self.errors@,
            ));
        }
        out
    }

    /// Records a parse error.
    fn push_error(&mut self, msg: String)
        ensures
            final(self)@ == push_err(old(self)@, msg@),
    {
        let ghost prev = self.errors@;
        self.errors.push(msg);
        proof {
            assert(self.errors@.drop_last() =~= prev);
            assert(self@ =~= push_err(old(self)@, self.errors@.last()@));
        }
    }

    /// The current token has the given kind.
    fn cur_token_is(&self, t: TokenType) -> (r: bool)
        ensures
            r == (cur_tok(self@).type_ == t),
    {
        let c = self.cur_token();
        c.type_ == t
    }

    /// The next token has the given kind.
    fn peek_token_is(&self, t: TokenType) -> (r: bool)
        ensures
            r == (peek_tok(self@).type_ == t),
    {
        let c = self.peek_token();
        c.type_ == t
    }

    /// Records the expected-token error.
    fn peek_error(&mut self, tok: TokenType)
        ensures
            final(self)@ == push_err(old(self)@, peek_error_msg(old(self)@, tok)),
    {
        let mut msg = "expected next token to be ".to_owned();
        let en = token_type_text(tok);
        push_string(&mut msg, &en);
        push_str(&mut msg, ", got ");
        let pk = self.peek_token();
        let gn = token_type_text(pk.type_);
        push_string(&mut msg, &gn);
        self.push_error(msg);
    }

    /// Advances past the expected token kind, or records an error and stays.
    fn expect_peek(&mut self, t: TokenType) -> (r: bool)
        ensures
            ({
                let (ok, p2) = expect_peek_s(old(self)@, t);
                r == ok && final(self)@ == p2
            }),
    {
        if self.peek_token_is(t) {
            self.next_token();
            true
        } else {
            self.peek_error(t);
            false
        }
    }

    /// The precedence of the next token, lowest when none is registered.
    fn peek_precedence(&self) -> (r: i32)
        ensures
            r as int == prec_of(self@, peek_tok(self@).type_),
    {
        let pk = self.peek_token();
        self.precedence_of_type(pk.type_)
    }

    /// The precedence of the current token, lowest when none is registered.
    fn cur_precedence(&self) -> (r: i32)
        ensures
            r as int == prec_of(self@, cur_tok(self@).type_),
    {
        let c = self.cur_token();
        self.precedence_of_type(c.type_)
    }

    /// Looks a token kind up in the precedence table.
    fn precedence_of_type(&self, t: TokenType) -> (r: i32)
        ensures
            r as int == prec_of(self@, t),
    {
        let ghost tbl = prec_table_view(self.precedence@);
        proof {
            assert(self.precedence@.take(self.precedence@.len() as int) =~= self.precedence@);
        }
        let mut i: usize = self.precedence.len();
        while i > 0
            invariant
                0 <= i <= self.precedence@.len(),
                lookup_prec(tbl, t) == lookup_prec(
                    prec_table_view(self.precedence@.take(i as int)),
                    t,
                ),
                tbl == prec_table_view(self.precedence@),
            decreases i,
        {
            i = i - 1;
            proof {
                assert(self.precedence@.take(i + 1 as int).drop_last() =~= self.precedence@.take(
                    i as int,
                ));
                assert(self.precedence@.take(i + 1 as int).last() == self.precedence@[i as int]);
                assert(prec_table_view(self.precedence@.take(i + 1 as int)) == prec_table_view(
                    self.precedence@.take(i as int),
                ).push((self.precedence@[i as int].0, self.precedence@[i as int].1 as int)));
                assert(prec_table_view(self.precedence@.take(i + 1 as int)).drop_last()
                    =~= prec_table_view(self.precedence@.take(i as int)));
            }
            if self.precedence[i].0 == t {
                return self.precedence[i].1;
            }
        }
        proof {
            assert(self.precedence@.take(0int) =~= Seq::<(TokenType, i32)>::empty());
        }
        LOWEST
    }

    /// Looks a token kind up in a handler table.
    fn handler_of_type(tbl: &Vec<(TokenType, String)>, t: TokenType) -> (r: Option<String>)
        ensures
            opt_str_view(r) == lookup_name(name_table_view(tbl@), t),
    {
        proof {
            assert(tbl@.take(tbl@.len() as int) =~= tbl@);
        }
        let mut i: usize = tbl.len();
        while i > 0
            invariant
                0 <= i <= tbl@.len(),
                lookup_name(name_table_view(tbl@), t) == lookup_name(
                    name_table_view(tbl@.take(i as int)),
                    t,
                ),
            decreases i,
        {
            i = i - 1;
            proof {
                assert(tbl@.take(i + 1 as int).drop_last() =~= tbl@.take(i as int));
                assert(tbl@.take(i + 1 as int).last() == tbl@[i as int]);
                assert(name_table_view(tbl@.take(i + 1 as int)) == name_table_view(
                    tbl@.take(i as int),
                ).push((tbl@[i as int].0, tbl@[i as int].1@)));
                assert(name_table_view(tbl@.take(i + 1 as int)).drop_last() =~= name_table_view(
                    tbl@.take(i as int),
                ));
            }
            if tbl[i].0 == t {
                return Some(tbl[i].1.clone());
            }
        }
        proof {
            assert(tbl@.take(0int) =~= Seq::<(TokenType, String)>::empty());
        }
        None
    }
}

impl Parser {
    /// Builds a parser over the whole token stream of `l`: the lexer is
    /// drained up to and including its EOF token, and the standard handler
    /// and precedence tables are registered.
    pub fn new(l: &mut Lexer) -> (p: Parser)
        requires
            old(l).wf(),
        ensures
            p.wf(),
            p@ == (ParserV {
                toks: token_stream_from(old(l).input@, old(l).st()),
                cur: 0,
                errors: Seq::<Seq<char>>::empty(),
                prefix_fns: standard_prefix_table(),
                infix_fns: standard_infix_table(),
                precedence: standard_precedence_table(),
            }),
    {
        let ghost s = l.input@;
        let ghost st0 = l.st();
        let mut tokens: Vec<Token> = Vec::new();
        let mut done = false;
        proof {
            assert(toks_view(tokens@) =~= Seq::<TokenV>::empty());
            assert(Seq::<TokenV>::empty() + token_stream_from(s, st0) =~= token_stream_from(
                s,
                st0,
            ));
        }
        while !done
            invariant
                l.wf(),
                l.input@ == s,
                !done ==> toks_view(tokens@) + token_stream_from(s, l.st()) == token_stream_from(
                    s,
                    st0,
                ),
                done ==> toks_view(tokens@) == token_stream_from(s, st0),
            decreases (if done {
                0nat
            } else {
                crate::lexer::lex_measure(s, l.st()) + 1
            }),
        {
            let ghost stb = l.st();
            let t = l.next_token();
            proof {
                crate::lexer::lemma_next_token_s_props(s, stb);
            }
            let is_eof = t.type_ == TokenType::EOF;
            let ghost prev = tokens@;
            tokens.push(t);
            proof {
                assert(tokens@.drop_last() =~= prev);
                assert(toks_view(tokens@) =~= toks_view(prev).push(tokens@.last()@));
                if is_eof {
                    assert(token_stream_from(s, stb) =~= seq![tokens@.last()@]);
                    assert(toks_view(tokens@) =~= token_stream_from(s, st0));
                } else {
                    assert(token_stream_from(s, stb) =~= seq![tokens@.last()@]
                        + token_stream_from(s, l.st()));
                    assert(toks_view(tokens@) + token_stream_from(s, l.st()) =~= toks_view(prev)
                        + token_stream_from(s, stb));
                }
            }
            if is_eof {
                done = true;
            }
        }
        let mut p = Parser {
            tokens,
            cur: 0,
            prefix_fns: Vec::new(),
            infix_fns: Vec::new(),
            precedence: Vec::new(),
            errors: Vec::new(),
        };
        proof {
            assert(strs_view(p.errors@) =~= Seq::<Seq<char>>::empty());
            assert(name_table_view(p.prefix_fns@) =~= Seq::<(TokenType, Seq<char>)>::empty());
            assert(name_table_view(p.infix_fns@) =~= Seq::<(TokenType, Seq<char>)>::empty());
            assert(prec_table_view(p.precedence@) =~= Seq::<(TokenType, int)>::empty());
        }
        p.register_precedence(TokenType::EQ, EQUALS);
        p.register_precedence(TokenType::NEQ, EQUALS);
        p.register_precedence(TokenType::LT, LESSGREATER);
        p.register_precedence(TokenType::GT, LESSGREATER);
        p.register_precedence(TokenType::PLUS, SUM);
        p.register_precedence(TokenType::MINUS, SUM);
        p.register_precedence(TokenType::SLASH, PRODUCT);
        p.register_precedence(TokenType::ASTERICK, PRODUCT);
        p.register_precedence(TokenType::LPAREN, CALL);
        p.register_prefix(TokenType::IDENT, "parse_identifier");
        p.register_prefix(TokenType::INT, "parse_integer_literal");
        p.register_prefix(TokenType::BANG, "parse_prefix_expr");
        p.register_prefix(TokenType::MINUS, "parse_prefix_expr");
        p.register_prefix(TokenType::TRUE, "parse_boolean_expr");
        p.register_prefix(TokenType::FALSE, "parse_boolean_expr");
        p.register_prefix(TokenType::LPAREN, "parse_group_expr");
        p.register_prefix(TokenType::IF, "parse_if_expr");
        p.register_prefix(TokenType::FUNCTION, "parse_function_literal");
        p.register_prefix(TokenType::STRING, "parse_string");
        p.register_infix(TokenType::PLUS, "parse_infix_expr");
        p.register_infix(TokenType::MINUS, "parse_infix_expr");
        p.register_infix(TokenType::SLASH, "parse_infix_expr");
        p.register_infix(TokenType::ASTERICK, "parse_infix_expr");
        p.register_infix(TokenType::EQ, "parse_infix_expr");
        p.register_infix(TokenType::NEQ, "parse_infix_expr");
        p.register_infix(TokenType::LT, "parse_infix_expr");
        p.register_infix(TokenType::GT, "parse_infix_expr");
        p.register_infix(TokenType::LPAREN, "parse_call");
        proof {
            assert(p@.precedence =~= standard_precedence_table());
            assert(p@.prefix_fns =~= standard_prefix_table());
            assert(p@.infix_fns =~= standard_infix_table());
            assert(p@.toks == token_stream_from(s, st0));
            assert(p@ =~= (ParserV {
                toks: token_stream_from(old(l).input@, old(l).st()),
                cur: 0,
                errors: Seq::<Seq<char>>::empty(),
                prefix_fns: standard_prefix_table(),
                infix_fns: standard_infix_table(),
                precedence: standard_precedence_table(),
            }));
        }
        p
    }
}

impl Parser {
    /// Records the missing-prefix-handler error for a token kind.
    fn no_prefix_parse_fn_error(&mut self, token: TokenType)
        ensures
            final(self)@ == push_err(old(self)@, no_prefix_msg(token)),
    {
        let mut msg = "no prefix parse function for ".to_owned();
        let tn = token_type_text(token);
        push_string(&mut msg, &tn);
        push_str(&mut msg, " found");
        self.push_error(msg);
    }

    /// Parses the whole program: top-level statements until the end of the
    /// stream; a failed statement stops parsing and the program parsed so
    /// far is returned, possibly partial, with the errors recorded.
    #[verifier::loop_isolation(false)]
    pub fn parse_program(&mut self) -> (r: Program)
        requires
            old(self).wf(),
        ensures
            final(self).wf(),
            parser_steps(old(self)@, final(self)@),
            ({
                let (stmts, p2) = parse_program_s(old(self)@);
                stmts_view(r@) == stmts && final(self)@ == p2
            }),
    {
        let ghost p0 = self@;
        let mut program: Program = Vec::new();
        let ghost mut iters: nat = iters_of(p0);
        proof {
            assert(stmts_view(program@) =~= Seq::<StmtV>::empty());
        }
        while !self.cur_token_is(TokenType::EOF)
            invariant
                self.wf(),
                parser_steps(p0, self@),
                iters >= p0.toks.len() - self@.cur + 2,
                program_loop_s(self@, iters, stmts_view(program@)) == program_loop_s(
                    p0,
                    iters_of(p0),
                    Seq::<StmtV>::empty(),
                ),
            decreases p0.toks.len() - self@.cur,
        {
            let ghost pb = self@;
            let ghost accb = stmts_view(program@);
            let ghost itb = iters;
            let stmt = self.parse_statement(PARSE_DEPTH);
            proof {
                let (st_s, p1_s) = parse_statement_s(pb, PARSE_DEPTH as nat);
                assert(opt_view_stmt(stmt) == st_s && self@ == p1_s);
            }
            match stmt {
                Some(s) => {
                    let ghost prev = program@;
                    program.push(s);
                    proof {
                        assert(program@.drop_last() =~= prev);
                        assert(stmts_view(program@) =~= stmts_view(prev).push(
                            crate::ast::stmt_view(program@.last()),
                        ));
                    }
                    self.next_token();
                    proof {
                        iters = (iters - 1) as nat;
                        assert(program_loop_s(pb, itb, accb) == program_loop_s(
                            self@,
                            iters,
                            stmts_view(program@),
                        ));
                    }
                },
                None => {
                    proof {
                        assert(program_loop_s(pb, itb, accb) == (accb, self@));
                    }
                    return program;
                },
            }
        }
        program
    }

    /// Parses one statement.
    fn parse_statement(&mut self, depth: u64) -> (r: Option<Statement>)
        requires
            old(self).wf(),
        ensures
            final(self).wf(),
            parser_steps(old(self)@, final(self)@),
            ({
                let (st, p2) = parse_statement_s(old(self)@, depth as nat);
                opt_view_stmt(r) == st && final(self)@ == p2
            }),
        decreases depth,
    {
        if depth == 0 {
            self.push_error("nesting too deep".to_owned());
            return None;
        }
        let c = self.cur_token();
        if c.type_ == TokenType::LET {
            self.parse_let_statement(depth - 1)
        } else if c.type_ == TokenType::RETURN {
            self.parse_return_statement(depth - 1)
        } else {
            self.parse_expression_statement(depth - 1)
        }
    }

    /// Parses `let <ident> = <expression>` with an optional semicolon.
    fn parse_let_statement(&mut self, depth: u64) -> (r: Option<Statement>)
        requires
            old(self).wf(),
        ensures
            final(self).wf(),
            parser_steps(old(self)@, final(self)@),
            ({
                let (st, p2) = parse_let_s(old(self)@, depth as nat);
                opt_view_stmt(r) == st && final(self)@ == p2
            }),
        decreases depth,
    {
        if depth == 0 {
            self.push_error("nesting too deep".to_owned());
            return None;
        }
        let let_tok = self.cur_token();
        if !self.expect_peek(TokenType::IDENT) {
            return None;
        }
        let name_tok = self.cur_token();
        let name_val = name_tok.literal.clone();
        let name = Identifier { token: name_tok, value: name_val };
        if !self.expect_peek(TokenType::ASSIGN) {
            return None;
        }
        self.next_token();
        let value = self.parse_expression(LOWEST, depth - 1);
        let v = match value {
            Some(e) => e,
            None => {
                return None;
            },
        };
        let stmt = Statement::LetStatement(
            crate::ast::LetStatement {
                token: let_tok,
                name: Some(name),
                value: Some(Box::new(v)),
            },
        );
        if self.peek_token_is(TokenType::SEMICOLON) {
            self.next_token();
        }
        Some(stmt)
    }

    /// Parses `return` with an optional expression and optional semicolon.
    fn parse_return_statement(&mut self, depth: u64) -> (r: Option<Statement>)
        requires
            old(self).wf(),
        ensures
            final(self).wf(),
            parser_steps(old(self)@, final(self)@),
            ({
                let (st, p2) = parse_return_s(old(self)@, depth as nat);
                opt_view_stmt(r) == st && final(self)@ == p2
            }),
        decreases depth,
    {
        if depth == 0 {
            self.push_error("nesting too deep".to_owned());
            return None;
        }
        let tok = self.cur_token();
        self.next_token();
        if self.cur_token_is(TokenType::SEMICOLON) {
            return Some(
                Statement::ReturnStatement(crate::ast::ReturnStatement { token: tok, value: None }),
            );
        }
        let value = self.parse_expression(LOWEST, depth - 1);
        let stmt = Statement::ReturnStatement(
            crate::ast::ReturnStatement {
                token: tok,
                value: match value {
                    Some(e) => Some(Box::new(e)),
                    None => None,
                },
            },
        );
        if self.peek_token_is(TokenType::SEMICOLON) {
            self.next_token();
        }
        Some(stmt)
    }

    /// Parses an expression as a statement, with an optional semicolon.
    fn parse_expression_statement(&mut self, depth: u64) -> (r: Option<Statement>)
        requires
            old(self).wf(),
        ensures
            final(self).wf(),
            parser_steps(old(self)@, final(self)@),
            ({
                let (st, p2) = parse_expr_stmt_s(old(self)@, depth as nat);
                opt_view_stmt(r) == st && final(self)@ == p2
            }),
        decreases depth,
    {
        if depth == 0 {
            self.push_error("nesting too deep".to_owned());
            return None;
        }
        let tok = self.cur_token();
        let e = self.parse_expression(LOWEST, depth - 1);
        let x = match e {
            Some(x) => x,
            None => {
                return None;
            },
        };
        let stmt = Statement::ExpressionStatement(
            crate::ast::ExpressionStatement { token: tok, expr: Some(Box::new(x)) },
        );
        if self.peek_token_is(TokenType::SEMICOLON) {
            self.next_token();
        }
        Some(stmt)
    }

    /// Pratt expression parsing at a precedence level.
    #[verifier::loop_isolation(false)]
    fn parse_expression(&mut self, prec: i32, depth: u64) -> (r: Option<Expression>)
        requires
            old(self).wf(),
        ensures
            final(self).wf(),
            parser_steps(old(self)@, final(self)@),
            ({
                let (e, p2) = parse_expression_s(old(self)@, prec as int, depth as nat);
                opt_view_expr(r) == e && final(self)@ == p2
            }),
        decreases depth,
    {
        if depth == 0 {
            self.push_error("nesting too deep".to_owned());
            return None;
        }
        let c = self.cur_token();
        let handler = Parser::handler_of_type(&self.prefix_fns, c.type_);
        let mut left: Option<Expression>;
        match handler {
            None => {
                self.no_prefix_parse_fn_error(c.type_);
                return None;
            },
            Some(fname) => {
                if string_eq_str(&fname, "parse_identifier") {
                    left = self.parse_identifier();
                } else if string_eq_str(&fname, "parse_integer_literal") {
                    left = self.parse_integer_literal();
                } else if string_eq_str(&fname, "parse_prefix_expr") {
                    left = self.parse_prefix_expression(depth - 1);
                } else if string_eq_str(&fname, "parse_boolean_expr") {
                    left = self.parse_boolean();
                } else if string_eq_str(&fname, "parse_group_expr") {
                    left = self.parse_group_expression(depth - 1);
                } else if string_eq_str(&fname, "parse_if_expr") {
                    left = self.parse_if_expression(depth - 1);
                } else if string_eq_str(&fname, "parse_function_literal") {
                    left = self.parse_function_expression(depth - 1);
                } else if string_eq_str(&fname, "parse_string") {
                    left = self.parse_string();
                } else {
                    return None;
                }
            },
        }
        let ghost p1v = self@;
        let ghost left0 = opt_view_expr(left);
        let dl = depth - 1;
        let ghost mut iters: nat = iters_of(p1v);
        while !self.peek_token_is(TokenType::SEMICOLON) && !self.peek_token_is(TokenType::EOF)
            && prec < self.peek_precedence() && dl > 0
            invariant
                self.wf(),
                parser_steps(p1v, self@),
                iters >= p1v.toks.len() - self@.cur + 2,
                infix_loop_s(self@, opt_view_expr(left), prec as int, dl as nat, iters)
                    == infix_loop_s(p1v, left0, prec as int, dl as nat, iters_of(p1v)),
            decreases p1v.toks.len() - self@.cur,
        {
            let ghost pb = self@;
            let ghost leftb = opt_view_expr(left);
            let ghost itb = iters;
            let pk = self.peek_token();
            let handler = Parser::handler_of_type(&self.infix_fns, pk.type_);
            match handler {
                None => {
                    proof {
                        assert(infix_loop_s(pb, leftb, prec as int, dl as nat, itb) == (
                            leftb,
                            pb,
                        ));
                    }
                    return left;
                },
                Some(fname) => {
                    if string_eq_str(&fname, "parse_infix_expr") {
                        self.next_token();
                        let ex = self.parse_infix_expression(left, dl - 1);
                        match ex {
                            Some(e2) => {
                                left = Some(e2);
                                proof {
                                    iters = (iters - 1) as nat;
                                }
                            },
                            None => {
                                return None;
                            },
                        }
                    } else if string_eq_str(&fname, "parse_call") {
                        self.next_token();
                        let ex = self.parse_call_expression(left, dl - 1);
                        match ex {
                            Some(e2) => {
                                left = Some(e2);
                                proof {
                                    iters = (iters - 1) as nat;
                                }
                            },
                            None => {
                                return None;
                            },
                        }
                    } else {
                        return None;
                    }
                },
            }
        }
        left
    }

    /// An identifier expression at the current token.
    fn parse_identifier(&self) -> (r: Option<Expression>)
        ensures
            opt_view_expr(r) == Some(ident_here(self@)),
    {
        let tok = self.cur_token();
        let val = tok.literal.clone();
        Some(Expression::Identifier(Identifier { token: tok, value: val }))
    }

    /// An integer literal at the current token; on overflow or non-numeric
    /// text an error is recorded and no node is produced.
    fn parse_integer_literal(&mut self) -> (r: Option<Expression>)
        ensures
            ({
                let (e, p2) = parse_int_lit_s(old(self)@);
                opt_view_expr(r) == e && final(self)@ == p2
            }),
    {
        let tok = self.cur_token();
        match crate::numbers::parse_dec_i64(tok.literal.as_str()) {
            Some(v) => Some(
                Expression::IntegerLiteral(IntegerLiteral { token: tok, value: v }),
            ),
            None => {
                let mut msg = "could not parse ".to_owned();
                push_string(&mut msg, &tok.literal);
                push_str(&mut msg, " as integer");
                self.push_error(msg);
                None
            },
        }
    }

    /// A string literal at the current token.
    fn parse_string(&self) -> (r: Option<Expression>)
        ensures
            opt_view_expr(r) == Some(
                ExprV::StringLiteral(
                    crate::ast::StringLiteralV {
                        token: cur_tok(self@),
                        value: cur_tok(self@).literal,
                    },
                ),
            ),
    {
        let tok = self.cur_token();
        let val = tok.literal.clone();
        Some(Expression::StringLiteral(crate::ast::StringLiteral { token: tok, value: val }))
    }

    /// A boolean literal at the current token.
    fn parse_boolean(&self) -> (r: Option<Expression>)
        ensures
            opt_view_expr(r) == Some(
                ExprV::Boolean(
                    crate::ast::BooleanV {
                        token: cur_tok(self@),
                        value: cur_tok(self@).type_ == TokenType::TRUE,
                    },
                ),
            ),
    {
        let tok = self.cur_token();
        let val = tok.type_ == TokenType::TRUE;
        Some(Expression::Boolean(crate::ast::Boolean { token: tok, value: val }))
    }

    /// A prefix operator and its operand.
    fn parse_prefix_expression(&mut self, depth: u64) -> (r: Option<Expression>)
        requires
            old(self).wf(),
        ensures
            final(self).wf(),
            parser_steps(old(self)@, final(self)@),
            ({
                let (e, p2) = parse_prefix_expr_s(old(self)@, depth as nat);
                opt_view_expr(r) == e && final(self)@ == p2
            }),
        decreases depth,
    {
        if depth == 0 {
            self.push_error("nesting too deep".to_owned());
            return None;
        }
        let tok = self.cur_token();
        let op = tok.literal.clone();
        self.next_token();
        let right = self.parse_expression(PREFIX, depth - 1);
        match right {
            Some(rr) => Some(
                Expression::PrefixExpression(
                    crate::ast::PrefixExpression {
                        token: tok,
                        operator: op,
                        right: Some(Box::new(rr)),
                    },
                ),
            ),
            None => None,
        }
    }

    /// A parenthesized expression.
    fn parse_group_expression(&mut self, depth: u64) -> (r: Option<Expression>)
        requires
            old(self).wf(),
        ensures
            final(self).wf(),
            parser_steps(old(self)@, final(self)@),
            ({
                let (e, p2) = parse_group_s(old(self)@, depth as nat);
                opt_view_expr(r) == e && final(self)@ == p2
            }),
        decreases depth,
    {
        if depth == 0 {
            self.push_error("nesting too deep".to_owned());
            return None;
        }
        self.next_token();
        let e = self.parse_expression(LOWEST, depth - 1);
        if !self.expect_peek(TokenType::RPAREN) {
            return None;
        }
        e
    }

    /// An if-expression with an optional alternative.
    fn parse_if_expression(&mut self, depth: u64) -> (r: Option<Expression>)
        requires
            old(self).wf(),
        ensures
            final(self).wf(),
            parser_steps(old(self)@, final(self)@),
            ({
                let (e, p2) = parse_if_s(old(self)@, depth as nat);
                opt_view_expr(r) == e && final(self)@ == p2
            }),
        decreases depth,
    {
        if depth == 0 {
            self.push_error("nesting too deep".to_owned());
            return None;
        }
        let tok = Token { type_: TokenType::IF, literal: "if".to_owned() };
        if !self.expect_peek(TokenType::LPAREN) {
            return None;
        }
        self.next_token();
        let cond = self.parse_expression(LOWEST, depth - 1);
        if matches!(cond, None) {
            return None;
        }
        if !self.expect_peek(TokenType::RPAREN) {
            return None;
        }
        if !self.expect_peek(TokenType::LBRACE) {
            return None;
        }
        let blk = self.parse_block_statement(depth - 1);
        if matches!(blk, None) {
            return None;
        }
        let cond_slot = match cond {
            Some(e) => Some(Box::new(e)),
            None => None,
        };
        let cons_slot = match blk {
            Some(s) => Some(Box::new(s)),
            None => None,
        };
        if self.peek_token_is(TokenType::ELSE) {
            self.next_token();
            if !self.expect_peek(TokenType::LBRACE) {
                return Some(
                    Expression::IfExpression(
                        crate::ast::IfExpression {
                            token: tok,
                            cond: cond_slot,
                            consequence: cons_slot,
                            alternative: None,
                        },
                    ),
                );
            }
            let alt = self.parse_block_statement(depth - 1);
            match alt {
                Some(s) => Some(
                    Expression::IfExpression(
                        crate::ast::IfExpression {
                            token: tok,
                            cond: cond_slot,
                            consequence: cons_slot,
                            alternative: Some(Box::new(s)),
                        },
                    ),
                ),
                None => None,
            }
        } else {
            Some(
                Expression::IfExpression(
                    crate::ast::IfExpression {
                        token: tok,
                        cond: cond_slot,
                        consequence: cons_slot,
                        alternative: None,
                    },
                ),
            )
        }
    }

    /// A block of statements up to the closing brace or the end of the
    /// stream.
    #[verifier::loop_isolation(false)]
    fn parse_block_statement(&mut self, depth: u64) -> (r: Option<Statement>)
        requires
            old(self).wf(),
        ensures
            final(self).wf(),
            parser_steps(old(self)@, final(self)@),
            ({
                let (st, p2) = parse_block_s(old(self)@, depth as nat);
                opt_view_stmt(r) == st && final(self)@ == p2
            }),
        decreases depth,
    {
        if depth == 0 {
            self.push_error("nesting too deep".to_owned());
            return None;
        }
        let tok = self.cur_token();
        self.next_token();
        let ghost p1v = self@;
        let dl = depth - 1;
        let mut statements: Vec<Statement> = Vec::new();
        let ghost mut iters: nat = iters_of(p1v);
        proof {
            assert(stmts_view(statements@) =~= Seq::<StmtV>::empty());
        }
        while !self.cur_token_is(TokenType::RBRACE) && !self.cur_token_is(TokenType::EOF) && dl
            > 0
            invariant
                self.wf(),
                parser_steps(p1v, self@),
                iters >= p1v.toks.len() - self@.cur + 2,
                block_stmts_s(self@, dl as nat, iters, stmts_view(statements@)) == block_stmts_s(
                    p1v,
                    dl as nat,
                    iters_of(p1v),
                    Seq::<StmtV>::empty(),
                ),
            decreases p1v.toks.len() - self@.cur,
        {
            let ghost pb = self@;
            let ghost accb = stmts_view(statements@);
            let ghost itb = iters;
            let stmt = self.parse_statement(dl - 1);
            match stmt {
                Some(s) => {
                    let ghost prev = statements@;
                    statements.push(s);
                    proof {
                        assert(statements@.drop_last() =~= prev);
                        assert(stmts_view(statements@) =~= stmts_view(prev).push(
                            crate::ast::stmt_view(statements@.last()),
                        ));
                    }
                },
                None => {
                },
            }
            self.next_token();
            proof {
                iters = (iters - 1) as nat;
                assert(block_stmts_s(pb, dl as nat, itb, accb) == block_stmts_s(
                    self@,
                    dl as nat,
                    iters,
                    stmts_view(statements@),
                ));
            }
        }
        Some(
            Statement::BlockStatement(
                crate::ast::BlockStatement { token: tok, statements },
            ),
        )
    }

    /// An infix operator applied to an already parsed left operand.
    fn parse_infix_expression(&mut self, left: Option<Expression>, depth: u64) -> (r: Option<
        Expression,
    >)
        requires
            old(self).wf(),
        ensures
            final(self).wf(),
            parser_steps(old(self)@, final(self)@),
            ({
                let (e, p2) = parse_infix_expression_s(old(self)@, opt_view_expr(left), depth as nat);
                opt_view_expr(r) == e && final(self)@ == p2
            }),
        decreases depth,
    {
        if depth == 0 {
            self.push_error("nesting too deep".to_owned());
            return None;
        }
        let tok = self.cur_token();
        let op = tok.literal.clone();
        let prc = self.cur_precedence();
        self.next_token();
        let right = self.parse_expression(prc, depth - 1);
        match (left, right) {
            (Some(l), Some(rr)) => Some(
                Expression::InfixExpression(
                    crate::ast::InfixExpression {
                        token: tok,
                        left: Some(Box::new(l)),
                        operator: op,
                        right: Some(Box::new(rr)),
                    },
                ),
            ),
            _ => None,
        }
    }

    /// A function literal: parameters, then a block body.
    fn parse_function_expression(&mut self, depth: u64) -> (r: Option<Expression>)
        requires
            old(self).wf(),
        ensures
            final(self).wf(),
            parser_steps(old(self)@, final(self)@),
            ({
                let (e, p2) = parse_function_s(old(self)@, depth as nat);
                opt_view_expr(r) == e && final(self)@ == p2
            }),
        decreases depth,
    {
        if depth == 0 {
            self.push_error("nesting too deep".to_owned());
            return None;
        }
        let tok = self.cur_token();
        if !self.expect_peek(TokenType::LPAREN) {
            return None;
        }
        let params = self.parse_function_parameters();
        if matches!(params, None) {
            return None;
        }
        if !self.expect_peek(TokenType::LBRACE) {
            return None;
        }
        let bod = self.parse_block_statement(depth - 1);
        match bod {
            Some(s) => Some(
                Expression::FunctionLiteral(
                    crate::ast::FunctionLiteral {
                        token: tok,
                        parameters: params,
                        body: Some(Box::new(s)),
                    },
                ),
            ),
            None => None,
        }
    }

    /// A comma-separated, possibly empty parameter list.
    #[verifier::loop_isolation(false)]
    fn parse_function_parameters(&mut self) -> (r: Option<Vec<Expression>>)
        requires
            old(self).wf(),
        ensures
            final(self).wf(),
            parser_steps(old(self)@, final(self)@),
            ({
                let (ps, p2) = parse_fn_params_s(old(self)@);
                (match r {
                    Some(v) => Some(crate::ast::exprs_view(v@)),
                    None => None,
                }) == ps && final(self)@ == p2
            }),
    {
        if self.peek_token_is(TokenType::RPAREN) {
            self.next_token();
            let out: Vec<Expression> = Vec::new();
            proof {
                assert(crate::ast::exprs_view(out@) =~= Seq::<ExprV>::empty());
            }
            return Some(out);
        }
        self.next_token();
        let ghost p1v = self@;
        let mut idents: Vec<Expression> = Vec::new();
        let first = self.parse_identifier();
        match first {
            Some(e) => {
                idents.push(e);
            },
            None => {
            },
        }
        proof {
            assert(idents@.drop_last() =~= Seq::<Expression>::empty());
            assert(crate::ast::exprs_view(Seq::<Expression>::empty())
                =~= Seq::<ExprV>::empty());
            assert(crate::ast::exprs_view(idents@) =~= seq![ident_here(p1v)]);
        }
        let ghost mut iters: nat = iters_of(p1v);
        while self.peek_token_is(TokenType::COMMA)
            invariant
                self.wf(),
                parser_steps(p1v, self@),
                iters >= p1v.toks.len() - self@.cur + 2,
                params_loop_s(self@, iters, crate::ast::exprs_view(idents@)) == params_loop_s(
                    p1v,
                    iters_of(p1v),
                    seq![ident_here(p1v)],
                ),
            decreases p1v.toks.len() - self@.cur,
        {
            let ghost pb = self@;
            let ghost accb = crate::ast::exprs_view(idents@);
            let ghost itb = iters;
            self.next_token();
            self.next_token();
            let nxt = self.parse_identifier();
            match nxt {
                Some(e) => {
                    let ghost prev = idents@;
                    idents.push(e);
                    proof {
                        assert(idents@.drop_last() =~= prev);
                        assert(crate::ast::exprs_view(idents@) =~= crate::ast::exprs_view(
                            prev,
                        ).push(crate::ast::expr_view(idents@.last())));
                    }
                },
                None => {
                },
            }
            proof {
                iters = (iters - 1) as nat;
                assert(params_loop_s(pb, itb, accb) == params_loop_s(
                    self@,
                    iters,
                    crate::ast::exprs_view(idents@),
                ));
            }
        }
        if !self.expect_peek(TokenType::RPAREN) {
            return None;
        }
        Some(idents)
    }

    /// A call expression with an already parsed callee.
    fn parse_call_expression(&mut self, func: Option<Expression>, depth: u64) -> (r: Option<
        Expression,
    >)
        requires
            old(self).wf(),
        ensures
            final(self).wf(),
            parser_steps(old(self)@, final(self)@),
            ({
                let (e, p2) = parse_call_expression_s(old(self)@, opt_view_expr(func), depth as nat);
                opt_view_expr(r) == e && final(self)@ == p2
            }),
        decreases depth,
    {
        if depth == 0 {
            self.push_error("nesting too deep".to_owned());
            return None;
        }
        let fe = match func {
            Some(f) => f,
            None => {
                return None;
            },
        };
        let tok = self.cur_token();
        let args = self.parse_call_arguments(depth - 1);
        match args {
            Some(a) => Some(
                Expression::CallExpression(
                    crate::ast::CallExpression {
                        token: tok,
                        func: Some(Box::new(fe)),
                        args: Some(a),
                    },
                ),
            ),
            None => None,
        }
    }

    /// A comma-separated, possibly empty argument list.
    #[verifier::loop_isolation(false)]
    fn parse_call_arguments(&mut self, depth: u64) -> (r: Option<Vec<Expression>>)
        requires
            old(self).wf(),
        ensures
            final(self).wf(),
            parser_steps(old(self)@, final(self)@),
            ({
                let (args, p2) = parse_call_args_s(old(self)@, depth as nat);
                (match r {
                    Some(v) => Some(crate::ast::exprs_view(v@)),
                    None => None,
                }) == args && final(self)@ == p2
            }),
        decreases depth,
    {
        if depth == 0 {
            self.push_error("nesting too deep".to_owned());
            return None;
        }
        if self.peek_token_is(TokenType::RPAREN) {
            self.next_token();
            let out: Vec<Expression> = Vec::new();
            proof {
                assert(crate::ast::exprs_view(out@) =~= Seq::<ExprV>::empty());
            }
            return Some(out);
        }
        self.next_token();
        let a0 = self.parse_expression(LOWEST, depth - 1);
        let mut args: Vec<Expression> = Vec::new();
        match a0 {
            Some(a) => {
                args.push(a);
            },
            None => {
                return None;
            },
        }
        proof {
            assert(args@.drop_last() =~= Seq::<Expression>::empty());
            assert(crate::ast::exprs_view(Seq::<Expression>::empty())
                =~= Seq::<ExprV>::empty());
            assert(crate::ast::exprs_view(args@) =~= seq![crate::ast::expr_view(args@.last())]);
        }
        let ghost p2v = self@;
        let ghost acc0 = crate::ast::exprs_view(args@);
        let dl = depth - 1;
        let ghost mut iters: nat = iters_of(p2v);
        while self.peek_token_is(TokenType::COMMA) && dl > 0
            invariant
                self.wf(),
                parser_steps(p2v, self@),
                iters >= p2v.toks.len() - self@.cur + 2,
                args_loop_s(self@, dl as nat, iters, crate::ast::exprs_view(args@))
                    == args_loop_s(p2v, dl as nat, iters_of(p2v), acc0),
            decreases p2v.toks.len() - self@.cur,
        {
            let ghost pb = self@;
            let ghost accb = crate::ast::exprs_view(args@);
            let ghost itb = iters;
            self.next_token();
            self.next_token();
            let ax = self.parse_expression(LOWEST, dl - 1);
            match ax {
                Some(a) => {
                    let ghost prev = args@;
                    args.push(a);
                    proof {
                        assert(args@.drop_last() =~= prev);
                        assert(crate::ast::exprs_view(args@) =~= crate::ast::exprs_view(
                            prev,
                        ).push(crate::ast::expr_view(args@.last())));
                        iters = (iters - 1) as nat;
                        assert(args_loop_s(pb, dl as nat, itb, accb) == args_loop_s(
                            self@,
                            dl as nat,
                            iters,
                            crate::ast::exprs_view(args@),
                        ));
                    }
                },
                None => {
                    proof {
                        assert(args_loop_s(pb, dl as nat, itb, accb) == (
                            None::<Seq<ExprV>>,
                            self@,
                        ));
                    }
                    return None;
                },
            }
        }
        if !self.expect_peek(TokenType::RPAREN) {
            return None;
        }
        Some(args)
    }
}

} // verus!
