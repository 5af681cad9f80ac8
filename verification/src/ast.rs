//! Typed syntax tree: statement and expression nodes as the parser builds
//! them, their mathematical views, and a human-readable rendering of each
//! node.

use vstd::prelude::*;

use crate::numbers::dec_int;
use crate::text::{push_str, push_string};
use crate::token::{token_type_name, Token, TokenV};

verus! {

/// An ordered sequence of top-level statements.
pub type Program = Vec<Statement>;

pub enum Statement {
    LetStatement(LetStatement),
    ReturnStatement(ReturnStatement),
    ExpressionStatement(ExpressionStatement),
    BlockStatement(BlockStatement),
}

pub struct LetStatement {
    pub token: Token,
    pub name: Option<Identifier>,
    pub value: Option<Box<Expression>>,
}

pub struct ReturnStatement {
    pub token: Token,
    pub value: Option<Box<Expression>>,
}

pub struct ExpressionStatement {
    pub token: Token,
    pub expr: Option<Box<Expression>>,
}

pub struct BlockStatement {
    pub token: Token,
    pub statements: Vec<Statement>,
}

pub enum Expression {
    Identifier(Identifier),
    IntegerLiteral(IntegerLiteral),
    PrefixExpression(PrefixExpression),
    InfixExpression(InfixExpression),
    Boolean(Boolean),
    IfExpression(IfExpression),
    FunctionLiteral(FunctionLiteral),
    CallExpression(CallExpression),
    StringLiteral(StringLiteral),
}

pub struct Identifier {
    pub token: Token,
    pub value: String,
}

pub struct IntegerLiteral {
    pub token: Token,
    pub value: i64,
}

pub struct PrefixExpression {
    pub token: Token,
    pub operator: String,
    pub right: Option<Box<Expression>>,
}

pub struct InfixExpression {
    pub token: Token,
    pub left: Option<Box<Expression>>,
    pub operator: String,
    pub right: Option<Box<Expression>>,
}

pub struct Boolean {
    pub token: Token,
    pub value: bool,
}

pub struct IfExpression {
    pub token: Token,
    pub cond: Option<Box<Expression>>,
    pub consequence: Option<Box<Statement>>,
    pub alternative: Option<Box<Statement>>,
}

pub struct FunctionLiteral {
    pub token: Token,
    pub parameters: Option<Vec<Expression>>,
    pub body: Option<Box<Statement>>,
}

pub struct CallExpression {
    pub token: Token,
    pub func: Option<Box<Expression>>,
    pub args: Option<Vec<Expression>>,
}

pub struct StringLiteral {
    pub token: Token,
    pub value: String,
}

// ----------------------------------------------------------------------------
// Mathematical views of the syntax tree. Each node maps to a ghost value in
// which strings appear as character sequences and vectors as sequences.
// ----------------------------------------------------------------------------

#[verifier::ext_equal]
pub enum StmtV {
    LetStatement(LetStatementV),
    ReturnStatement(ReturnStatementV),
    ExpressionStatement(ExpressionStatementV),
    BlockStatement(BlockStatementV),
}

#[verifier::ext_equal]
pub struct LetStatementV {
    pub token: TokenV,
    pub name: Option<IdentifierV>,
    pub value: Option<Box<ExprV>>,
}

#[verifier::ext_equal]
pub struct ReturnStatementV {
    pub token: TokenV,
    pub value: Option<Box<ExprV>>,
}

#[verifier::ext_equal]
pub struct ExpressionStatementV {
    pub token: TokenV,
    pub expr: Option<Box<ExprV>>,
}

#[verifier::ext_equal]
pub struct BlockStatementV {
    pub token: TokenV,
    pub statements: Seq<StmtV>,
}

#[verifier::ext_equal]
pub enum ExprV {
    Identifier(IdentifierV),
    IntegerLiteral(IntegerLiteralV),
    PrefixExpression(PrefixExpressionV),
    InfixExpression(InfixExpressionV),
    Boolean(BooleanV),
    IfExpression(IfExpressionV),
    FunctionLiteral(FunctionLiteralV),
    CallExpression(CallExpressionV),
    StringLiteral(StringLiteralV),
}

#[verifier::ext_equal]
pub struct IdentifierV {
    pub token: TokenV,
    pub value: Seq<char>,
}

#[verifier::ext_equal]
pub struct IntegerLiteralV {
    pub token: TokenV,
    pub value: i64,
}

#[verifier::ext_equal]
pub struct PrefixExpressionV {
    pub token: TokenV,
    pub operator: Seq<char>,
    pub right: Option<Box<ExprV>>,
}

#[verifier::ext_equal]
pub struct InfixExpressionV {
    pub token: TokenV,
    pub left: Option<Box<ExprV>>,
    pub operator: Seq<char>,
    pub right: Option<Box<ExprV>>,
}

#[verifier::ext_equal]
pub struct BooleanV {
    pub token: TokenV,
    pub value: bool,
}

#[verifier::ext_equal]
pub struct IfExpressionV {
    pub token: TokenV,
    pub cond: Option<Box<ExprV>>,
    pub consequence: Option<Box<StmtV>>,
    pub alternative: Option<Box<StmtV>>,
}

#[verifier::ext_equal]
pub struct FunctionLiteralV {
    pub token: TokenV,
    pub parameters: Option<Seq<ExprV>>,
    pub body: Option<Box<StmtV>>,
}

#[verifier::ext_equal]
pub struct CallExpressionV {
    pub token: TokenV,
    pub func: Option<Box<ExprV>>,
    pub args: Option<Seq<ExprV>>,
}

#[verifier::ext_equal]
pub struct StringLiteralV {
    pub token: TokenV,
    pub value: Seq<char>,
}

pub open spec fn stmt_view(s: Statement) -> StmtV
    decreases s,
{
    match s {
        Statement::LetStatement(x) => StmtV::LetStatement(
            LetStatementV {
                token: x.token@,
                name: match x.name {
                    Some(n) => Some(IdentifierV { token: n.token@, value: n.value@ }),
                    None => None,
                },
                value: opt_expr_view(x.value),
            },
        ),
        Statement::ReturnStatement(x) => StmtV::ReturnStatement(
            ReturnStatementV { token: x.token@, value: opt_expr_view(x.value) },
        ),
        Statement::ExpressionStatement(x) => StmtV::ExpressionStatement(
            ExpressionStatementV { token: x.token@, expr: opt_expr_view(x.expr) },
        ),
        Statement::BlockStatement(x) => StmtV::BlockStatement(
            BlockStatementV { token: x.token@, statements: stmts_view(x.statements@) },
        ),
    }
}

pub open spec fn opt_expr_view(o: Option<Box<Expression>>) -> Option<Box<ExprV>>
    decreases o,
{
    match o {
        Some(e) => Some(Box::new(expr_view(*e))),
        None => None,
    }
}

pub open spec fn stmts_view(l: Seq<Statement>) -> Seq<StmtV>
    decreases l,
{
    if l.len() == 0 {
        Seq::empty()
    } else {
        stmts_view(l.drop_last()).push(stmt_view(l.last()))
    }
}

pub open spec fn exprs_view(l: Seq<Expression>) -> Seq<ExprV>
    decreases l,
{
    if l.len() == 0 {
        Seq::empty()
    } else {
        exprs_view(l.drop_last()).push(expr_view(l.last()))
    }
}

pub open spec fn expr_view(e: Expression) -> ExprV
    decreases e,
{
    match e {
        Expression::Identifier(x) => ExprV::Identifier(
            IdentifierV { token: x.token@, value: x.value@ },
        ),
        Expression::IntegerLiteral(x) => ExprV::IntegerLiteral(
            IntegerLiteralV { token: x.token@, value: x.value },
        ),
        Expression::PrefixExpression(x) => ExprV::PrefixExpression(
            PrefixExpressionV {
                token: x.token@,
                operator: x.operator@,
                right: opt_expr_view(x.right),
            },
        ),
        Expression::InfixExpression(x) => ExprV::InfixExpression(
            InfixExpressionV {
                token: x.token@,
                left: opt_expr_view(x.left),
                operator: x.operator@,
                right: opt_expr_view(x.right),
            },
        ),
        Expression::Boolean(x) => ExprV::Boolean(BooleanV { token: x.token@, value: x.value }),
        Expression::IfExpression(x) => ExprV::IfExpression(
            IfExpressionV {
                token: x.token@,
                cond: opt_expr_view(x.cond),
                consequence: opt_stmt_view(x.consequence),
                alternative: opt_stmt_view(x.alternative),
            },
        ),
        Expression::FunctionLiteral(x) => ExprV::FunctionLiteral(
            FunctionLiteralV {
                token: x.token@,
                parameters: match x.parameters {
                    Some(v) => Some(exprs_view(v@)),
                    None => None,
                },
                body: opt_stmt_view(x.body),
            },
        ),
        Expression::CallExpression(x) => ExprV::CallExpression(
            CallExpressionV {
                token: x.token@,
                func: opt_expr_view(x.func),
                args: match x.args {
                    Some(v) => Some(exprs_view(v@)),
                    None => None,
                },
            },
        ),
        Expression::StringLiteral(x) => ExprV::StringLiteral(
            StringLiteralV { token: x.token@, value: x.value@ },
        ),
    }
}

pub open spec fn opt_stmt_view(o: Option<Box<Statement>>) -> Option<Box<StmtV>>
    decreases o,
{
    match o {
        Some(s) => Some(Box::new(stmt_view(*s))),
        None => None,
    }
}

impl View for Statement {
    type V = StmtV;

    open spec fn view(&self) -> StmtV {
        stmt_view(*self)
    }
}

impl View for Expression {
    type V = ExprV;

    open spec fn view(&self) -> ExprV {
        expr_view(*self)
    }
}

impl View for BlockStatement {
    type V = BlockStatementV;

    open spec fn view(&self) -> BlockStatementV {
        BlockStatementV { token: self.token@, statements: stmts_view(self.statements@) }
    }
}

impl View for Identifier {
    type V = IdentifierV;

    open spec fn view(&self) -> IdentifierV {
        IdentifierV { token: self.token@, value: self.value@ }
    }
}

/// The view of a statement sequence has the same length and is taken
/// element by element.
pub proof fn lemma_stmts_view_index(l: Seq<Statement>)
    ensures
        stmts_view(l).len() == l.len(),
        forall|i: int| 0 <= i < l.len() ==> stmts_view(l)[i] == stmt_view(#[trigger] l[i]),
    decreases l,
{
    if l.len() > 0 {
        lemma_stmts_view_index(l.drop_last());
        assert forall|i: int| 0 <= i < l.len() implies stmts_view(l)[i] == stmt_view(l[i]) by {
            if i < l.len() - 1 {
                assert(l.drop_last()[i] == l[i]);
                assert(stmts_view(l)[i] == stmts_view(l.drop_last())[i]);
            } else {
                assert(stmts_view(l)[i] == stmt_view(l.last()));
            }
        }
    }
}

/// The view of an expression sequence has the same length and is taken
/// element by element.
pub proof fn lemma_exprs_view_index(l: Seq<Expression>)
    ensures
        exprs_view(l).len() == l.len(),
        forall|i: int| 0 <= i < l.len() ==> exprs_view(l)[i] == expr_view(#[trigger] l[i]),
    decreases l,
{
    if l.len() > 0 {
        lemma_exprs_view_index(l.drop_last());
        assert forall|i: int| 0 <= i < l.len() implies exprs_view(l)[i] == expr_view(l[i]) by {
            if i < l.len() - 1 {
                assert(l.drop_last()[i] == l[i]);
                assert(exprs_view(l)[i] == exprs_view(l.drop_last())[i]);
            } else {
                assert(exprs_view(l)[i] == expr_view(l.last()));
            }
        }
    }
}

// ----------------------------------------------------------------------------
// Cloning. Each clone preserves the node's view.
// ----------------------------------------------------------------------------

impl Clone for Identifier {
    fn clone(&self) -> (r: Self)
        ensures
            r@ == self@,
    {
        Identifier { token: self.token.clone(), value: self.value.clone() }
    }
}

fn clone_opt_expr(o: &Option<Box<Expression>>) -> (r: Option<Box<Expression>>)
    ensures
        opt_expr_view(r) == opt_expr_view(*o),
    decreases *o,
{
    match o {
        Some(e) => Some(Box::new((**e).clone())),
        None => None,
    }
}

fn clone_opt_stmt(o: &Option<Box<Statement>>) -> (r: Option<Box<Statement>>)
    ensures
        opt_stmt_view(r) == opt_stmt_view(*o),
    decreases *o,
{
    match o {
        Some(s) => Some(Box::new((**s).clone())),
        None => None,
    }
}

pub(crate) fn clone_exprs(v: &Vec<Expression>) -> (r: Vec<Expression>)
    ensures
        exprs_view(r@) == exprs_view(v@),
    decreases *v,
{
    let mut out: Vec<Expression> = Vec::new();
    let mut i: usize = 0;
    while i < v.len()
        invariant
            0 <= i <= v@.len(),
            exprs_view(out@) == exprs_view(v@.take(i as int)),
        decreases v@.len() - i,
    {
        let ghost prev = out@;
        out.push(v[i].clone());
        proof {
            assert(out@.drop_last() =~= prev);
            assert(v@.take(i + 1 as int).drop_last() =~= v@.take(i as int));
            assert(v@.take(i + 1 as int).last() == v@[i as int]);
        }
        i = i + 1;
    }
    proof {
        assert(v@.take(v@.len() as int) =~= v@);
    }
    out
}

fn clone_stmts(v: &Vec<Statement>) -> (r: Vec<Statement>)
    ensures
        stmts_view(r@) == stmts_view(v@),
    decreases *v,
{
    let mut out: Vec<Statement> = Vec::new();
    let mut i: usize = 0;
    while i < v.len()
        invariant
            0 <= i <= v@.len(),
            stmts_view(out@) == stmts_view(v@.take(i as int)),
        decreases v@.len() - i,
    {
        let ghost prev = out@;
        out.push(v[i].clone());
        proof {
            assert(out@.drop_last() =~= prev);
            assert(v@.take(i + 1 as int).drop_last() =~= v@.take(i as int));
            assert(v@.take(i + 1 as int).last() == v@[i as int]);
        }
        i = i + 1;
    }
    proof {
        assert(v@.take(v@.len() as int) =~= v@);
    }
    out
}

impl Clone for BlockStatement {
    fn clone(&self) -> (r: Self)
        ensures
            r@ == self@,
        decreases *self,
    {
        BlockStatement { token: self.token.clone(), statements: clone_stmts(&self.statements) }
    }
}

impl Clone for Statement {
    fn clone(&self) -> (r: Self)
        ensures
            r@ == self@,
        decreases *self,
    {
        match self {
            Statement::LetStatement(x) => Statement::LetStatement(
                LetStatement {
                    token: x.token.clone(),
                    name: match &x.name {
                        Some(n) => Some(n.clone()),
                        None => None,
                    },
                    value: clone_opt_expr(&x.value),
                },
            ),
            Statement::ReturnStatement(x) => Statement::ReturnStatement(
                ReturnStatement { token: x.token.clone(), value: clone_opt_expr(&x.value) },
            ),
            Statement::ExpressionStatement(x) => Statement::ExpressionStatement(
                ExpressionStatement { token: x.token.clone(), expr: clone_opt_expr(&x.expr) },
            ),
            Statement::BlockStatement(x) => Statement::BlockStatement(x.clone()),
        }
    }
}

impl Clone for Expression {
    fn clone(&self) -> (r: Self)
        ensures
            r@ == self@,
        decreases *self,
    {
        match self {
            Expression::Identifier(x) => Expression::Identifier(x.clone()),
            Expression::IntegerLiteral(x) => Expression::IntegerLiteral(
                IntegerLiteral { token: x.token.clone(), value: x.value },
            ),
            Expression::PrefixExpression(x) => Expression::PrefixExpression(
                PrefixExpression {
                    token: x.token.clone(),
                    operator: x.operator.clone(),
                    right: clone_opt_expr(&x.right),
                },
            ),
            Expression::InfixExpression(x) => Expression::InfixExpression(
                InfixExpression {
                    token: x.token.clone(),
                    left: clone_opt_expr(&x.left),
                    operator: x.operator.clone(),
                    right: clone_opt_expr(&x.right),
                },
            ),
            Expression::Boolean(x) => Expression::Boolean(
                Boolean { token: x.token.clone(), value: x.value },
            ),
            Expression::IfExpression(x) => Expression::IfExpression(
                IfExpression {
                    token: x.token.clone(),
                    cond: clone_opt_expr(&x.cond),
                    consequence: clone_opt_stmt(&x.consequence),
                    alternative: clone_opt_stmt(&x.alternative),
                },
            ),
            Expression::FunctionLiteral(x) => Expression::FunctionLiteral(
                FunctionLiteral {
                    token: x.token.clone(),
                    parameters: match &x.parameters {
                        Some(v) => Some(clone_exprs(v)),
                        None => None,
                    },
                    body: clone_opt_stmt(&x.body),
                },
            ),
            Expression::CallExpression(x) => Expression::CallExpression(
                CallExpression {
                    token: x.token.clone(),
                    func: clone_opt_expr(&x.func),
                    args: match &x.args {
                        Some(v) => Some(clone_exprs(v)),
                        None => None,
                    },
                },
            ),
            Expression::StringLiteral(x) => Expression::StringLiteral(
                StringLiteral { token: x.token.clone(), value: x.value.clone() },
            ),
        }
    }
}

// ----------------------------------------------------------------------------
// Rendering. Each node prints to a line of text; the spec functions below
// state the exact text and the executable `print` methods produce it.
// ----------------------------------------------------------------------------

/// The text a token prints as inside a node rendering.
pub open spec fn token_print(t: TokenV) -> Seq<char> {
    token_type_name(t.type_) + "(\""@ + t.literal + "\")"@
}

/// The text of a boolean value.
pub open spec fn bool_text(b: bool) -> Seq<char> {
    if b {
        "true"@
    } else {
        "false"@
    }
}

pub open spec fn opt_expr_print(o: Option<Box<ExprV>>) -> Seq<char>
    decreases o,
{
    match o {
        Some(e) => expr_print(*e),
        None => "None"@,
    }
}

pub open spec fn opt_stmt_print(o: Option<Box<StmtV>>) -> Seq<char>
    decreases o,
{
    match o {
        Some(s) => stmt_print(*s),
        None => "None"@,
    }
}

pub open spec fn stmts_print(l: Seq<StmtV>) -> Seq<char>
    decreases l,
{
    if l.len() == 0 {
        Seq::empty()
    } else {
        stmts_print(l.drop_last()) + stmt_print(l.last())
    }
}

pub open spec fn exprs_print(l: Seq<ExprV>) -> Seq<char>
    decreases l,
{
    if l.len() == 0 {
        Seq::empty()
    } else {
        exprs_print(l.drop_last()) + expr_print(l.last())
    }
}

pub open spec fn opt_exprs_print(o: Option<Seq<ExprV>>) -> Seq<char>
    decreases o,
{
    match o {
        Some(l) => exprs_print(l),
        None => "None"@,
    }
}

pub open spec fn stmt_print(s: StmtV) -> Seq<char>
    decreases s,
{
    match s {
        StmtV::LetStatement(x) => "LetStmt: "@ + token_print(x.token) + " name: "@ + (match x.name {
            Some(n) => ident_print(n),
            None => "None"@,
        }) + " value "@ + opt_expr_print(x.value),
        StmtV::ReturnStatement(x) => "ReturnStmt: "@ + token_print(x.token) + " value "@
            + opt_expr_print(x.value),
        StmtV::ExpressionStatement(x) => "ExprStmt: "@ + token_print(x.token) + " expr: "@
            + opt_expr_print(x.expr),
        StmtV::BlockStatement(x) => "BlockStmt: "@ + token_print(x.token) + " statements: "@
            + stmts_print(x.statements),
    }
}

pub open spec fn ident_print(n: IdentifierV) -> Seq<char> {
    "(Identifier: "@ + token_print(n.token) + " value: "@ + n.value + ")"@
}

pub open spec fn expr_print(e: ExprV) -> Seq<char>
    decreases e,
{
    match e {
        ExprV::Identifier(x) => ident_print(x),
        ExprV::IntegerLiteral(x) => "(IntegerLiteral: "@ + token_print(x.token) + " value: "@
            + dec_int(x.value as int) + ")"@,
        ExprV::PrefixExpression(x) => "(PrefixExpr: "@ + token_print(x.token) + " operator: "@
            + x.operator + " right: "@ + opt_expr_print(x.right) + " )"@,
        ExprV::InfixExpression(x) => "InfixExpr: "@ + token_print(x.token) + " left: "@
            + opt_expr_print(x.left) + " operator: "@ + x.operator + " right: "@ + opt_expr_print(
            x.right,
        ),
        ExprV::Boolean(x) => token_print(x.token) + " value: "@ + bool_text(x.value) + " "@,
        ExprV::IfExpression(x) => "IfExpr: "@ + token_print(x.token) + " cond: "@ + opt_expr_print(
            x.cond,
        ) + " cons: "@ + opt_stmt_print(x.consequence) + " alt: "@ + opt_stmt_print(x.alternative),
        ExprV::FunctionLiteral(x) => token_print(x.token) + ": params: "@ + opt_exprs_print(
            x.parameters,
        ) + " body: "@ + opt_stmt_print(x.body),
        ExprV::CallExpression(x) => "CallExpr: "@ + token_print(x.token) + " func: "@
            + opt_expr_print(x.func) + " args: "@ + opt_exprs_print(x.args),
        ExprV::StringLiteral(x) => "String: "@ + x.value,
    }
}

/// Renders a token for inclusion in a node's printed form.
fn token_text(t: &Token) -> (r: String)
    ensures
        r@ == token_print(t@),
{
    let mut s = crate::token::token_type_text(t.type_);
    push_str(&mut s, "(\"");
    push_string(&mut s, &t.literal);
    push_str(&mut s, "\")");
    s
}

/// Renders a boolean value.
fn bool_string(b: bool) -> (r: String)
    ensures
        r@ == bool_text(b),
{
    if b {
        "true".to_owned()
    } else {
        "false".to_owned()
    }
}

fn print_opt_expr(o: &Option<Box<Expression>>) -> (r: String)
    ensures
        r@ == opt_expr_print(opt_expr_view(*o)),
    decreases *o,
{
    match o {
        Some(e) => (**e).print(),
        None => "None".to_owned(),
    }
}

fn print_opt_stmt(o: &Option<Box<Statement>>) -> (r: String)
    ensures
        r@ == opt_stmt_print(opt_stmt_view(*o)),
    decreases *o,
{
    match o {
        Some(s) => (**s).print(),
        None => "None".to_owned(),
    }
}

pub(crate) fn print_exprs(v: &Vec<Expression>) -> (r: String)
    ensures
        r@ == exprs_print(exprs_view(v@)),
    decreases *v,
{
    let mut s = String::new();
    let mut i: usize = 0;
    while i < v.len()
        invariant
            0 <= i <= v@.len(),
            s@ == exprs_print(exprs_view(v@.take(i as int))),
        decreases v@.len() - i,
    {
        let piece = v[i].print();
        push_string(&mut s, &piece);
        proof {
            assert(v@.take(i + 1 as int).drop_last() =~= v@.take(i as int));
            assert(v@.take(i + 1 as int).last() == v@[i as int]);
            assert(exprs_view(v@.take(i + 1 as int)).drop_last() =~= exprs_view(
                v@.take(i as int),
            ));
        }
        i = i + 1;
    }
    proof {
        assert(v@.take(v@.len() as int) =~= v@);
    }
    s
}

impl Statement {
    /// Renders the statement; the text is given exactly by `stmt_print`.
    pub fn print(&self) -> (r: String)
        ensures
            r@ == stmt_print(self@),
        decreases *self,
    {
        match self {
            Statement::LetStatement(x) => {
                let mut s = "LetStmt: ".to_owned();
                let tok = token_text(&x.token);
                push_string(&mut s, &tok);
                push_str(&mut s, " name: ");
                match &x.name {
                    Some(n) => {
                        let np = n.print();
                        push_string(&mut s, &np);
                    },
                    None => {
                        push_str(&mut s, "None");
                    },
                }
                push_str(&mut s, " value ");
                let vp = print_opt_expr(&x.value);
                push_string(&mut s, &vp);
                s
            },
            Statement::ReturnStatement(x) => {
                let mut s = "ReturnStmt: ".to_owned();
                let tok = token_text(&x.token);
                push_string(&mut s, &tok);
                push_str(&mut s, " value ");
                let vp = print_opt_expr(&x.value);
                push_string(&mut s, &vp);
                s
            },
            Statement::ExpressionStatement(x) => {
                let mut s = "ExprStmt: ".to_owned();
                let tok = token_text(&x.token);
                push_string(&mut s, &tok);
                push_str(&mut s, " expr: ");
                let vp = print_opt_expr(&x.expr);
                push_string(&mut s, &vp);
                s
            },
            Statement::BlockStatement(x) => x.print(),
        }
    }
}

impl BlockStatement {
    /// Renders the block and every statement in it, in order.
    pub fn print(&self) -> (r: String)
        ensures
            r@ == stmt_print(StmtV::BlockStatement(self@)),
        decreases *self,
    {
        let mut s = "BlockStmt: ".to_owned();
        let tok = token_text(&self.token);
        push_string(&mut s, &tok);
        push_str(&mut s, " statements: ");
        let mut i: usize = 0;
        while i < self.statements.len()
            invariant
                0 <= i <= self.statements@.len(),
                s@ == "BlockStmt: "@ + token_print(self.token@) + " statements: "@ + stmts_print(
                    stmts_view(self.statements@.take(i as int)),
                ),
            decreases self.statements@.len() - i,
        {
            let piece = self.statements[i].print();
            push_string(&mut s, &piece);
            proof {
                assert(self.statements@.take(i + 1 as int).drop_last() =~= self.statements@.take(
                    i as int,
                ));
                assert(self.statements@.take(i + 1 as int).last() == self.statements@[i as int]);
                assert(stmts_view(self.statements@.take(i + 1 as int)).drop_last() =~= stmts_view(
                    self.statements@.take(i as int),
                ));
            }
            i = i + 1;
        }
        proof {
            assert(self.statements@.take(self.statements@.len() as int) =~= self.statements@);
        }
        s
    }
}

impl Identifier {
    /// Renders the identifier.
    pub fn print(&self) -> (r: String)
        ensures
            r@ == ident_print(self@),
    {
        let mut s = "(Identifier: ".to_owned();
        let tok = token_text(&self.token);
        push_string(&mut s, &tok);
        push_str(&mut s, " value: ");
        push_string(&mut s, &self.value);
        push_str(&mut s, ")");
        s
    }
}

impl Expression {
    /// Renders the expression; the text is given exactly by `expr_print`.
    pub fn print(&self) -> (r: String)
        ensures
            r@ == expr_print(self@),
        decreases *self,
    {
        match self {
            Expression::Identifier(x) => x.print(),
            Expression::IntegerLiteral(x) => {
                let mut s = "(IntegerLiteral: ".to_owned();
                let tok = token_text(&x.token);
                push_string(&mut s, &tok);
                push_str(&mut s, " value: ");
                let num = crate::numbers::i64_dec_string(x.value);
                push_string(&mut s, &num);
                push_str(&mut s, ")");
                s
            },
            Expression::PrefixExpression(x) => {
                let mut s = "(PrefixExpr: ".to_owned();
                let tok = token_text(&x.token);
                push_string(&mut s, &tok);
                push_str(&mut s, " operator: ");
                push_string(&mut s, &x.operator);
                push_str(&mut s, " right: ");
                let rp = print_opt_expr(&x.right);
                push_string(&mut s, &rp);
                push_str(&mut s, " )");
                s
            },
            Expression::InfixExpression(x) => {
                let mut s = "InfixExpr: ".to_owned();
                let tok = token_text(&x.token);
                push_string(&mut s, &tok);
                push_str(&mut s, " left: ");
                let lp = print_opt_expr(&x.left);
                push_string(&mut s, &lp);
                push_str(&mut s, " operator: ");
                push_string(&mut s, &x.operator);
                push_str(&mut s, " right: ");
                let rp = print_opt_expr(&x.right);
                push_string(&mut s, &rp);
                s
            },
            Expression::Boolean(x) => {
                let mut s = token_text(&x.token);
                push_str(&mut s, " value: ");
                let bp = bool_string(x.value);
                push_string(&mut s, &bp);
                push_str(&mut s, " ");
                s
            },
            Expression::IfExpression(x) => {
                let mut s = "IfExpr: ".to_owned();
                let tok = token_text(&x.token);
                push_string(&mut s, &tok);
                push_str(&mut s, " cond: ");
                let cp = print_opt_expr(&x.cond);
                push_string(&mut s, &cp);
                push_str(&mut s, " cons: ");
                let np = print_opt_stmt(&x.consequence);
                push_string(&mut s, &np);
                push_str(&mut s, " alt: ");
                let ap = print_opt_stmt(&x.alternative);
                push_string(&mut s, &ap);
                s
            },
            Expression::FunctionLiteral(x) => {
                let mut s = token_text(&x.token);
                push_str(&mut s, ": params: ");
                match &x.parameters {
                    Some(v) => {
                        let pp = print_exprs(v);
                        push_string(&mut s, &pp);
                    },
                    None => {
                        push_str(&mut s, "None");
                    },
                }
                push_str(&mut s, " body: ");
                let bp = print_opt_stmt(&x.body);
                push_string(&mut s, &bp);
                s
            },
            Expression::CallExpression(x) => {
                let mut s = "CallExpr: ".to_owned();
                let tok = token_text(&x.token);
                push_string(&mut s, &tok);
                push_str(&mut s, " func: ");
                let fp = print_opt_expr(&x.func);
                push_string(&mut s, &fp);
                push_str(&mut s, " args: ");
                match &x.args {
                    Some(v) => {
                        let ap = print_exprs(v);
                        push_string(&mut s, &ap);
                    },
                    None => {
                        push_str(&mut s, "None");
                    },
                }
                s
            },
            Expression::StringLiteral(x) => {
                let mut s = "String: ".to_owned();
                push_string(&mut s, &x.value);
                s
            },
        }
    }
}

} // verus!
