//! The abstract syntax tree: an ordered program of statements over an
//! expression grammar, with deterministic, fully parenthesized textual
//! rendering. The `*_text` spec functions are the mathematical model of the
//! rendering; the `render` methods are proved to produce exactly that text.

use vstd::prelude::*;
use crate::numeral::int_repr;
use crate::token::{TokenKind, literal_of};

verus! {

/// An identifier: the name it carries.
#[derive(Debug, PartialEq, Eq)]
pub struct Identifier(pub String);

impl Clone for Identifier {
    /// Clones the identifier; the copy is equal to the original.
    fn clone(&self) -> (r: Identifier)
        ensures
            r == *self,
    {
        Identifier(self.0.clone())
    }
}

/// An expression node. Each node exclusively owns its children: expressions
/// form a tree with no sharing and no cycles.
#[derive(Debug, PartialEq, Eq)]
pub enum Expression {
    /// A name to be resolved in the environment.
    Identifier(Identifier),
    /// A 64-bit signed integer literal.
    Integer(i64),
    /// A boolean literal.
    Boolean(bool),
    /// A string literal, carrying its contents.
    StringLiteral(String),
    /// A unary operator applied to an operand.
    Prefix(TokenKind, Box<Expression>),
    /// A binary operator applied to a left and a right operand.
    Infix(Box<Expression>, TokenKind, Box<Expression>),
    /// A condition with a consequence block and an optional alternative.
    If(Box<Expression>, BlockStatement, Option<BlockStatement>),
    /// A function literal: parameters and a body block.
    FunctionLiteral(Vec<Identifier>, BlockStatement),
    /// A call: a callee expression applied to arguments.
    Call(Box<Expression>, Vec<Expression>),
}

/// A statement: a `let` binding, a `return`, or a bare expression.
#[derive(Debug, PartialEq, Eq)]
pub enum Statement {
    LetStatement(Identifier, Expression),
    ReturnStatement(Expression),
    ExpressionStatement(Expression),
}

/// An ordered sequence of statements serving as the body of an `if` or `fn`.
#[derive(Debug, PartialEq, Eq)]
pub struct BlockStatement {
    pub statements: Vec<Statement>,
}

/// An ordered program of statements; order is execution order.
pub struct Program {
    pub statements: Vec<Statement>,
}

/// The mathematical model of an expression: string payloads as character
/// sequences, integers unbounded, operators as token models.
pub enum ExprView {
    Ident(Seq<char>),
    IntLit(int),
    BoolLit(bool),
    StrLit(Seq<char>),
    Pre(crate::token::TokenView, Box<ExprView>),
    Bin(Box<ExprView>, crate::token::TokenView, Box<ExprView>),
    Cond(Box<ExprView>, Seq<StmtView>, Option<Seq<StmtView>>),
    FnLit(Seq<Seq<char>>, Seq<StmtView>),
    CallOf(Box<ExprView>, Seq<ExprView>),
}

/// The mathematical model of a statement.
pub enum StmtView {
    LetOf(Seq<char>, ExprView),
    RetOf(ExprView),
    ExprOf(ExprView),
}

/// The model of an expression node.
pub open spec fn expr_view(e: Expression) -> ExprView
    decreases e,
{
    match e {
        Expression::Identifier(id) => ExprView::Ident(id.0@),
        Expression::Integer(n) => ExprView::IntLit(n as int),
        Expression::Boolean(b) => ExprView::BoolLit(b),
        Expression::StringLiteral(s) => ExprView::StrLit(s@),
        Expression::Prefix(op, inner) => ExprView::Pre(op@, Box::new(expr_view(*inner))),
        Expression::Infix(l, op, r) => ExprView::Bin(
            Box::new(expr_view(*l)),
            op@,
            Box::new(expr_view(*r)),
        ),
        Expression::If(cond, cons, alt) => ExprView::Cond(
            Box::new(expr_view(*cond)),
            stmts_view(cons.statements@),
            match alt {
                Some(a) => Some(stmts_view(a.statements@)),
                None => None,
            },
        ),
        Expression::FunctionLiteral(params, body) => ExprView::FnLit(
            params@.map_values(|p: Identifier| p.0@),
            stmts_view(body.statements@),
        ),
        Expression::Call(f, args) => ExprView::CallOf(
            Box::new(expr_view(*f)),
            exprs_view(args@),
        ),
    }
}

/// The model of each expression of a sequence.
pub open spec fn exprs_view(es: Seq<Expression>) -> Seq<ExprView>
    decreases es,
{
    if es.len() == 0 {
        Seq::empty()
    } else {
        seq![expr_view(es[0])] + exprs_view(es.drop_first())
    }
}

/// The model of a statement node.
pub open spec fn stmt_view(st: Statement) -> StmtView
    decreases st,
{
    match st {
        Statement::LetStatement(id, e) => StmtView::LetOf(id.0@, expr_view(e)),
        Statement::ReturnStatement(e) => StmtView::RetOf(expr_view(e)),
        Statement::ExpressionStatement(e) => StmtView::ExprOf(expr_view(e)),
    }
}

/// The model of each statement of a sequence.
pub open spec fn stmts_view(ss: Seq<Statement>) -> Seq<StmtView>
    decreases ss,
{
    if ss.len() == 0 {
        Seq::empty()
    } else {
        seq![stmt_view(ss[0])] + stmts_view(ss.drop_first())
    }
}

/// The text of an expression model: the same rendering as `expr_text`,
/// computed from the model alone.
pub open spec fn view_text(ev: ExprView) -> Seq<char>
    decreases ev,
{
    match ev {
        ExprView::Ident(nm) => nm,
        ExprView::IntLit(n) => int_repr(n),
        ExprView::BoolLit(b) => if b {
            "true"@
        } else {
            "false"@
        },
        ExprView::StrLit(s) => s,
        ExprView::Pre(op, inner) => "("@ + literal_of(op) + view_text(*inner) + ")"@,
        ExprView::Bin(l, op, r) => "("@ + view_text(*l) + " "@ + literal_of(op) + " "@
            + view_text(*r) + ")"@,
        ExprView::Cond(c, cons, alt) => {
            let base = "if"@ + view_text(*c) + " "@ + stmt_views_text(cons);
            match alt {
                Some(a) => base + " else "@ + stmt_views_text(a),
                None => base,
            }
        },
        ExprView::FnLit(ps, body) => "fn("@ + names_text(ps) + ") "@ + stmt_views_text(body),
        ExprView::CallOf(f, args) => view_text(*f) + "("@ + expr_views_text(args) + ")"@,
    }
}

/// The text of a statement model.
pub open spec fn stmt_view_text(sv: StmtView) -> Seq<char>
    decreases sv,
{
    match sv {
        StmtView::LetOf(nm, ev) => "let "@ + nm + " = "@ + view_text(ev) + ";"@,
        StmtView::RetOf(ev) => "return "@ + view_text(ev) + ";"@,
        StmtView::ExprOf(ev) => view_text(ev),
    }
}

/// The text of a statement-model sequence, concatenated.
pub open spec fn stmt_views_text(svs: Seq<StmtView>) -> Seq<char>
    decreases svs,
{
    if svs.len() == 0 {
        Seq::empty()
    } else {
        stmt_view_text(svs[0]) + stmt_views_text(svs.drop_first())
    }
}

/// The text of an argument-model list, joined by a comma and a space.
pub open spec fn expr_views_text(evs: Seq<ExprView>) -> Seq<char>
    decreases evs,
{
    if evs.len() == 0 {
        Seq::empty()
    } else {
        view_text(evs[0]) + expr_views_rest_text(evs.drop_first())
    }
}

/// The text of the argument models after the first, each preceded by a
/// comma and a space.
pub open spec fn expr_views_rest_text(evs: Seq<ExprView>) -> Seq<char>
    decreases evs,
{
    if evs.len() == 0 {
        Seq::empty()
    } else {
        ", "@ + view_text(evs[0]) + expr_views_rest_text(evs.drop_first())
    }
}

/// The text of a name list, joined by a comma and a space.
pub open spec fn names_text(ns: Seq<Seq<char>>) -> Seq<char>
    decreases ns.len(),
{
    if ns.len() == 0 {
        Seq::empty()
    } else {
        ns[0] + names_rest_text(ns.drop_first())
    }
}

/// The text of the names after the first, each preceded by a comma and a
/// space.
pub open spec fn names_rest_text(ns: Seq<Seq<char>>) -> Seq<char>
    decreases ns.len(),
{
    if ns.len() == 0 {
        Seq::empty()
    } else {
        ", "@ + ns[0] + names_rest_text(ns.drop_first())
    }
}

/// Law: an expression's text is determined by its model — rendering factors
/// through `expr_view`.
pub proof fn lemma_text_of_view(e: Expression)
    ensures
        expr_text(e) == view_text(expr_view(e)),
    decreases e,
{
    match e {
        Expression::Prefix(_op, inner) => {
            lemma_text_of_view(*inner);
        },
        Expression::Infix(l, _op, r) => {
            lemma_text_of_view(*l);
            lemma_text_of_view(*r);
        },
        Expression::If(cond, cons, alt) => {
            lemma_text_of_view(*cond);
            lemma_stmts_text_of_view(cons.statements@);
            match alt {
                Some(a) => {
                    lemma_stmts_text_of_view(a.statements@);
                },
                None => {},
            }
        },
        Expression::FunctionLiteral(params, body) => {
            lemma_params_text_of_names(params@);
            lemma_stmts_text_of_view(body.statements@);
        },
        Expression::Call(f, args) => {
            lemma_text_of_view(*f);
            lemma_args_text_of_view(args@);
        },
        _ => {},
    }
}

/// Law: a statement's text is determined by its model.
pub proof fn lemma_stmt_text_of_view(st: Statement)
    ensures
        stmt_text(st) == stmt_view_text(stmt_view(st)),
    decreases st,
{
    match st {
        Statement::LetStatement(_id, e) => {
            lemma_text_of_view(e);
        },
        Statement::ReturnStatement(e) => {
            lemma_text_of_view(e);
        },
        Statement::ExpressionStatement(e) => {
            lemma_text_of_view(e);
        },
    }
}

/// Law: a statement sequence's text is determined by its model.
pub proof fn lemma_stmts_text_of_view(ss: Seq<Statement>)
    ensures
        stmts_text(ss) == stmt_views_text(stmts_view(ss)),
    decreases ss,
{
    if ss.len() > 0 {
        lemma_stmt_text_of_view(ss[0]);
        lemma_stmts_text_of_view(ss.drop_first());
        assert(stmts_view(ss).drop_first() =~= stmts_view(ss.drop_first()));
        assert(stmts_view(ss)[0] == stmt_view(ss[0]));
    }
}

proof fn lemma_args_text_of_view(es: Seq<Expression>)
    ensures
        args_text(es) == expr_views_text(exprs_view(es)),
        args_rest_text(es) == expr_views_rest_text(exprs_view(es)),
    decreases es,
{
    if es.len() > 0 {
        lemma_text_of_view(es[0]);
        lemma_args_text_of_view(es.drop_first());
        assert(exprs_view(es).drop_first() =~= exprs_view(es.drop_first()));
        assert(exprs_view(es)[0] == expr_view(es[0]));
    }
}

proof fn lemma_params_text_of_names(ps: Seq<Identifier>)
    ensures
        params_text(ps) == names_text(ps.map_values(|p: Identifier| p.0@)),
        params_rest_text(ps) == names_rest_text(ps.map_values(|p: Identifier| p.0@)),
    decreases ps.len(),
{
    if ps.len() > 0 {
        lemma_params_text_of_names(ps.drop_first());
        assert(ps.map_values(|p: Identifier| p.0@).drop_first() =~= ps.drop_first().map_values(
            |p: Identifier| p.0@,
        ));
        assert(ps.map_values(|p: Identifier| p.0@)[0] == ps[0].0@);
    }
}

/// Appending an expression on the right appends its model on the right.
pub proof fn lemma_exprs_view_push(es: Seq<Expression>, e: Expression)
    ensures
        exprs_view(es.push(e)) == exprs_view(es).push(expr_view(e)),
    decreases es.len(),
{
    let ps = es.push(e);
    if es.len() == 0 {
        assert(ps[0] == e);
        assert(exprs_view(Seq::<Expression>::empty()) =~= Seq::<ExprView>::empty());
        assert(ps.drop_first() == Seq::<Expression>::empty());
        assert(exprs_view(ps) == seq![expr_view(ps[0])] + exprs_view(ps.drop_first()));
        assert(exprs_view(ps) =~= exprs_view(es).push(expr_view(e)));
    } else {
        assert(ps[0] == es[0]);
        assert(ps.drop_first() == es.drop_first().push(e)) by {
            assert(ps.drop_first() =~= es.drop_first().push(e));
        }
        lemma_exprs_view_push(es.drop_first(), e);
        assert(exprs_view(ps) == seq![expr_view(ps[0])] + exprs_view(ps.drop_first()));
        assert(exprs_view(ps) =~= exprs_view(es).push(expr_view(e)));
    }
}

/// Appending a statement on the right appends its model on the right.
pub proof fn lemma_stmts_view_push(ss: Seq<Statement>, st: Statement)
    ensures
        stmts_view(ss.push(st)) == stmts_view(ss).push(stmt_view(st)),
    decreases ss.len(),
{
    let ps = ss.push(st);
    if ss.len() == 0 {
        assert(ps[0] == st);
        assert(stmts_view(Seq::<Statement>::empty()) =~= Seq::<StmtView>::empty());
        assert(ps.drop_first() == Seq::<Statement>::empty());
        assert(stmts_view(ps) == seq![stmt_view(ps[0])] + stmts_view(ps.drop_first()));
        assert(stmts_view(ps) =~= stmts_view(ss).push(stmt_view(st)));
    } else {
        assert(ps[0] == ss[0]);
        assert(ps.drop_first() == ss.drop_first().push(st)) by {
            assert(ps.drop_first() =~= ss.drop_first().push(st));
        }
        lemma_stmts_view_push(ss.drop_first(), st);
        assert(stmts_view(ps) == seq![stmt_view(ps[0])] + stmts_view(ps.drop_first()));
        assert(stmts_view(ps) =~= stmts_view(ss).push(stmt_view(st)));
    }
}

/// The text of an expression: fully parenthesized for unary and binary
/// operators.
pub open spec fn expr_text(e: Expression) -> Seq<char>
    decreases e,
{
    match e {
        Expression::Identifier(id) => id.0@,
        Expression::Integer(n) => int_repr(n as int),
        Expression::Boolean(b) => if b {
            "true"@
        } else {
            "false"@
        },
        Expression::StringLiteral(s) => s@,
        Expression::Prefix(op, inner) => "("@ + literal_of(op@) + expr_text(*inner) + ")"@,
        Expression::Infix(l, op, r) => "("@ + expr_text(*l) + " "@ + literal_of(op@) + " "@
            + expr_text(*r) + ")"@,
        Expression::If(cond, cons, alt) => {
            let base = "if"@ + expr_text(*cond) + " "@ + stmts_text(cons.statements@);
            match alt {
                Some(a) => base + " else "@ + stmts_text(a.statements@),
                None => base,
            }
        },
        Expression::FunctionLiteral(params, body) => "fn("@ + params_text(params@) + ") "@
            + stmts_text(body.statements@),
        Expression::Call(f, args) => expr_text(*f) + "("@ + args_text(args@) + ")"@,
    }
}

/// The text of a parameter list: names joined by a comma and a space.
pub open spec fn params_text(ps: Seq<Identifier>) -> Seq<char>
    decreases ps.len(),
{
    if ps.len() == 0 {
        Seq::empty()
    } else {
        ps[0].0@ + params_rest_text(ps.drop_first())
    }
}

/// The text of the parameters after the first, each preceded by a comma and
/// a space.
pub open spec fn params_rest_text(ps: Seq<Identifier>) -> Seq<char>
    decreases ps.len(),
{
    if ps.len() == 0 {
        Seq::empty()
    } else {
        ", "@ + ps[0].0@ + params_rest_text(ps.drop_first())
    }
}

/// The text of an argument list: renderings joined by a comma and a space.
pub open spec fn args_text(es: Seq<Expression>) -> Seq<char>
    decreases es,
{
    if es.len() == 0 {
        Seq::empty()
    } else {
        expr_text(es[0]) + args_rest_text(es.drop_first())
    }
}

/// The text of the arguments after the first, each preceded by a comma and a
/// space.
pub open spec fn args_rest_text(es: Seq<Expression>) -> Seq<char>
    decreases es,
{
    if es.len() == 0 {
        Seq::empty()
    } else {
        ", "@ + expr_text(es[0]) + args_rest_text(es.drop_first())
    }
}

/// The text of a statement.
pub open spec fn stmt_text(st: Statement) -> Seq<char>
    decreases st,
{
    match st {
        Statement::LetStatement(id, e) => "let "@ + id.0@ + " = "@ + expr_text(e) + ";"@,
        Statement::ReturnStatement(e) => "return "@ + expr_text(e) + ";"@,
        Statement::ExpressionStatement(e) => expr_text(e),
    }
}

/// The text of a statement sequence: the statements' texts, concatenated.
pub open spec fn stmts_text(ss: Seq<Statement>) -> Seq<char>
    decreases ss,
{
    if ss.len() == 0 {
        Seq::empty()
    } else {
        stmt_text(ss[0]) + stmts_text(ss.drop_first())
    }
}

/// Appending a statement on the right appends its text on the right.
pub proof fn lemma_stmts_text_push(ss: Seq<Statement>, st: Statement)
    ensures
        stmts_text(ss.push(st)) == stmts_text(ss) + stmt_text(st),
    decreases ss.len(),
{
    let ps = ss.push(st);
    if ss.len() == 0 {
        assert(ps[0] == st);
        assert(stmts_text(Seq::<Statement>::empty()) =~= Seq::<char>::empty());
        assert(ps.drop_first() == Seq::<Statement>::empty());
        assert(stmts_text(ps) == stmt_text(ps[0]) + stmts_text(ps.drop_first()));
        assert(stmts_text(ps) =~= stmts_text(ss) + stmt_text(st));
    } else {
        assert(ps[0] == ss[0]);
        assert(ps.drop_first() == ss.drop_first().push(st)) by {
            assert(ps.drop_first() =~= ss.drop_first().push(st));
        }
        lemma_stmts_text_push(ss.drop_first(), st);
        assert(stmts_text(ps) == stmt_text(ps[0]) + stmts_text(ps.drop_first()));
        assert(stmts_text(ps) =~= stmts_text(ss) + stmt_text(st));
    }
}

/// Appending an argument on the right appends its text, preceded by the
/// separator when it is not the first.
pub proof fn lemma_args_text_push(es: Seq<Expression>, e: Expression)
    ensures
        es.len() == 0 ==> args_text(es.push(e)) == expr_text(e),
        es.len() > 0 ==> args_text(es.push(e)) == args_text(es) + ", "@ + expr_text(e),
    decreases es.len(),
{
    let ps = es.push(e);
    if es.len() > 0 {
        lemma_args_rest_text_push(es.drop_first(), e);
    }
    if es.len() == 0 {
        assert(ps[0] == e);
        assert(args_rest_text(Seq::<Expression>::empty()) =~= Seq::<char>::empty());
        assert(ps.drop_first() == Seq::<Expression>::empty());
        assert(args_text(ps) == expr_text(ps[0]) + args_rest_text(ps.drop_first()));
        assert(args_text(ps) =~= expr_text(e));
    } else {
        assert(ps[0] == es[0]);
        assert(ps.drop_first() == es.drop_first().push(e)) by {
            assert(ps.drop_first() =~= es.drop_first().push(e));
        }
        assert(args_text(ps) == expr_text(ps[0]) + args_rest_text(ps.drop_first()));
        assert(args_text(ps) =~= args_text(es) + ", "@ + expr_text(e));
    }
}

proof fn lemma_args_rest_text_push(es: Seq<Expression>, e: Expression)
    ensures
        args_rest_text(es.push(e)) == args_rest_text(es) + ", "@ + expr_text(e),
    decreases es.len(),
{
    let ps = es.push(e);
    if es.len() == 0 {
        assert(ps[0] == e);
        assert(args_rest_text(Seq::<Expression>::empty()) =~= Seq::<char>::empty());
        assert(ps.drop_first() == Seq::<Expression>::empty());
        assert(args_rest_text(ps) == ", "@ + expr_text(ps[0]) + args_rest_text(ps.drop_first()));
        assert(args_rest_text(ps) =~= args_rest_text(es) + ", "@ + expr_text(e));
    } else {
        assert(ps[0] == es[0]);
        assert(ps.drop_first() == es.drop_first().push(e)) by {
            assert(ps.drop_first() =~= es.drop_first().push(e));
        }
        lemma_args_rest_text_push(es.drop_first(), e);
        assert(args_rest_text(ps) == ", "@ + expr_text(ps[0]) + args_rest_text(ps.drop_first()));
        assert(args_rest_text(ps) =~= args_rest_text(es) + ", "@ + expr_text(e));
    }
}

/// Appending a parameter on the right appends its name, preceded by the
/// separator when it is not the first.
pub proof fn lemma_params_text_push(ps: Seq<Identifier>, p: Identifier)
    ensures
        ps.len() == 0 ==> params_text(ps.push(p)) == p.0@,
        ps.len() > 0 ==> params_text(ps.push(p)) == params_text(ps) + ", "@ + p.0@,
    decreases ps.len(),
{
    let qs = ps.push(p);
    if ps.len() == 0 {
        assert(qs[0] == p);
        assert(params_rest_text(Seq::<Identifier>::empty()) =~= Seq::<char>::empty());
        assert(qs.drop_first() == Seq::<Identifier>::empty());
        assert(params_text(qs) == qs[0].0@ + params_rest_text(qs.drop_first()));
        assert(params_text(qs) =~= p.0@);
    } else {
        assert(qs[0] == ps[0]);
        assert(qs.drop_first() == ps.drop_first().push(p)) by {
            assert(qs.drop_first() =~= ps.drop_first().push(p));
        }
        lemma_params_rest_text_push(ps.drop_first(), p);
        assert(params_text(qs) == qs[0].0@ + params_rest_text(qs.drop_first()));
        assert(params_text(qs) =~= params_text(ps) + ", "@ + p.0@);
    }
}

proof fn lemma_params_rest_text_push(ps: Seq<Identifier>, p: Identifier)
    ensures
        params_rest_text(ps.push(p)) == params_rest_text(ps) + ", "@ + p.0@,
    decreases ps.len(),
{
    let qs = ps.push(p);
    if ps.len() == 0 {
        assert(qs[0] == p);
        assert(params_rest_text(Seq::<Identifier>::empty()) =~= Seq::<char>::empty());
        assert(qs.drop_first() == Seq::<Identifier>::empty());
        assert(params_rest_text(qs) == ", "@ + qs[0].0@ + params_rest_text(qs.drop_first()));
        assert(params_rest_text(qs) =~= params_rest_text(ps) + ", "@ + p.0@);
    } else {
        assert(qs[0] == ps[0]);
        assert(qs.drop_first() == ps.drop_first().push(p)) by {
            assert(qs.drop_first() =~= ps.drop_first().push(p));
        }
        lemma_params_rest_text_push(ps.drop_first(), p);
        assert(params_rest_text(qs) == ", "@ + qs[0].0@ + params_rest_text(qs.drop_first()));
        assert(params_rest_text(qs) =~= params_rest_text(ps) + ", "@ + p.0@);
    }
}

impl Expression {
    /// Renders the expression as text, fully parenthesized.
    pub fn render(&self) -> (r: String)
        ensures
            r@ == expr_text(*self),
        decreases *self,
    {
        match self {
            Expression::Identifier(id) => id.0.clone(),
            Expression::Integer(n) => crate::numeral::i64_to_string(*n),
            Expression::Boolean(b) => {
                if *b {
                    String::from_str("true")
                } else {
                    String::from_str("false")
                }
            },
            Expression::StringLiteral(s) => s.clone(),
            Expression::Prefix(op, inner) => {
                let mut out = String::from_str("(");
                out.append(op.literal().as_str());
                out.append(inner.render().as_str());
                out.append(")");
                proof {
                    assert(out@ =~= expr_text(*self));
                }
                out
            },
            Expression::Infix(l, op, r) => {
                let mut out = String::from_str("(");
                out.append(l.render().as_str());
                out.append(" ");
                out.append(op.literal().as_str());
                out.append(" ");
                out.append(r.render().as_str());
                out.append(")");
                proof {
                    assert(out@ =~= expr_text(*self));
                }
                out
            },
            Expression::If(cond, cons, alt) => {
                let mut out = String::from_str("if");
                out.append(cond.render().as_str());
                out.append(" ");
                out.append(render_statements(&cons.statements).as_str());
                match alt {
                    Some(a) => {
                        out.append(" else ");
                        out.append(render_statements(&a.statements).as_str());
                    },
                    None => {},
                }
                proof {
                    assert(out@ =~= expr_text(*self));
                }
                out
            },
            Expression::FunctionLiteral(params, body) => {
                let mut out = String::from_str("fn(");
                let mut i: usize = 0;
                while i < params.len()
                    invariant
                        i <= params.len(),
                        out@ == "fn("@ + params_text(params@.subrange(0, i as int)),
                    decreases params.len() - i,
                {
                    if i > 0 {
                        out.append(", ");
                    }
                    out.append(params[i].0.as_str());
                    proof {
                        assert(params@.subrange(0, i + 1 as int) =~= params@.subrange(
                            0,
                            i as int,
                        ).push(params@[i as int]));
                        lemma_params_text_push(params@.subrange(0, i as int), params@[i as int]);
                        assert(out@ =~= "fn("@ + params_text(params@.subrange(0, i + 1 as int)));
                    }
                    i = i + 1;
                }
                out.append(") ");
                out.append(render_statements(&body.statements).as_str());
                proof {
                    assert(params@.subrange(0, params@.len() as int) =~= params@);
                    assert(out@ =~= expr_text(*self));
                }
                out
            },
            Expression::Call(f, args) => {
                let mut out = f.render();
                out.append("(");
                let mut i: usize = 0;
                while i < args.len()
                    invariant
                        i <= args.len(),
                        *self == Expression::Call(*f, *args),
                        out@ == expr_text(**f) + "("@ + args_text(args@.subrange(0, i as int)),
                    decreases args.len() - i,
                {
                    if i > 0 {
                        out.append(", ");
                    }
                    proof {
                        assert(self->Call_1 == *args);
                        assert(decreases_to!(*self => self->Call_1));
                        assert(decreases_to!(*args => args@));
                        assert(decreases_to!(args@ => args@[i as int]));
                        assert(decreases_to!(*self => args@[i as int]));
                    }
                    out.append(args[i].render().as_str());
                    proof {
                        assert(args@.subrange(0, i + 1 as int) =~= args@.subrange(
                            0,
                            i as int,
                        ).push(args@[i as int]));
                        lemma_args_text_push(args@.subrange(0, i as int), args@[i as int]);
                        assert(out@ =~= expr_text(**f) + "("@ + args_text(
                            args@.subrange(0, i + 1 as int),
                        ));
                    }
                    i = i + 1;
                }
                out.append(")");
                proof {
                    assert(args@.subrange(0, args@.len() as int) =~= args@);
                    assert(out@ =~= expr_text(*self));
                }
                out
            },
        }
    }
}

impl Statement {
    /// Renders the statement as text.
    pub fn render(&self) -> (r: String)
        ensures
            r@ == stmt_text(*self),
        decreases *self,
    {
        match self {
            Statement::LetStatement(id, e) => {
                let mut out = String::from_str("let ");
                out.append(id.0.as_str());
                out.append(" = ");
                out.append(e.render().as_str());
                out.append(";");
                proof {
                    assert(out@ =~= stmt_text(*self));
                }
                out
            },
            Statement::ReturnStatement(e) => {
                let mut out = String::from_str("return ");
                out.append(e.render().as_str());
                out.append(";");
                proof {
                    assert(out@ =~= stmt_text(*self));
                }
                out
            },
            Statement::ExpressionStatement(e) => e.render(),
        }
    }
}

/// Renders a statement sequence: each statement's text in order, with no
/// separator.
fn render_statements(ss: &Vec<Statement>) -> (r: String)
    ensures
        r@ == stmts_text(ss@),
    decreases ss@,
{
    let mut out = String::new();
    let mut i: usize = 0;
    while i < ss.len()
        invariant
            i <= ss.len(),
            out@ == stmts_text(ss@.subrange(0, i as int)),
        decreases ss.len() - i,
    {
        out.append(ss[i].render().as_str());
        proof {
            assert(ss@.subrange(0, i + 1 as int) =~= ss@.subrange(0, i as int).push(
                ss@[i as int],
            ));
            lemma_stmts_text_push(ss@.subrange(0, i as int), ss@[i as int]);
            assert(out@ =~= stmts_text(ss@.subrange(0, i + 1 as int)));
        }
        i = i + 1;
    }
    proof {
        assert(ss@.subrange(0, ss@.len() as int) =~= ss@);
    }
    out
}

impl BlockStatement {
    /// Renders the block: its statements' texts in order.
    pub fn render(&self) -> (r: String)
        ensures
            r@ == stmts_text(self.statements@),
    {
        render_statements(&self.statements)
    }
}

/// The leading literal of an expression: the text of the first token that
/// begins it.
pub open spec fn leading_literal_expr(e: Expression) -> Seq<char>
    decreases e,
{
    match e {
        Expression::Identifier(id) => id.0@,
        Expression::Integer(n) => int_repr(n as int),
        Expression::Boolean(b) => if b {
            "true"@
        } else {
            "false"@
        },
        Expression::StringLiteral(s) => s@,
        Expression::Prefix(op, _) => literal_of(op@),
        Expression::Infix(l, _, _) => leading_literal_expr(*l),
        Expression::If(_, _, _) => "if"@,
        Expression::FunctionLiteral(_, _) => "fn"@,
        Expression::Call(f, _) => leading_literal_expr(*f),
    }
}

/// The leading literal of a statement: its keyword, or the leading literal
/// of its expression.
pub open spec fn leading_literal_stmt(st: Statement) -> Seq<char> {
    match st {
        Statement::LetStatement(_, _) => "let"@,
        Statement::ReturnStatement(_) => "return"@,
        Statement::ExpressionStatement(e) => leading_literal_expr(e),
    }
}

/// Renders the leading literal of an expression.
fn render_leading_literal(e: &Expression) -> (r: String)
    ensures
        r@ == leading_literal_expr(*e),
    decreases *e,
{
    match e {
        Expression::Identifier(id) => id.0.clone(),
        Expression::Integer(n) => crate::numeral::i64_to_string(*n),
        Expression::Boolean(b) => {
            if *b {
                String::from_str("true")
            } else {
                String::from_str("false")
            }
        },
        Expression::StringLiteral(s) => s.clone(),
        Expression::Prefix(op, _) => op.literal(),
        Expression::Infix(l, _, _) => render_leading_literal(l),
        Expression::If(_, _, _) => String::from_str("if"),
        Expression::FunctionLiteral(_, _) => String::from_str("fn"),
        Expression::Call(f, _) => render_leading_literal(f),
    }
}

impl Program {
    /// An empty program.
    pub fn new() -> (p: Program)
        ensures
            p.statements@.len() == 0,
    {
        Program { statements: Vec::new() }
    }

    /// The literal text of the token that begins the program: empty for an
    /// empty program, otherwise the first statement's leading literal.
    pub fn token_literal(&self) -> (r: String)
        ensures
            self.statements@.len() == 0 ==> r@ == Seq::<char>::empty(),
            self.statements@.len() > 0 ==> r@ == leading_literal_stmt(self.statements@[0]),
    {
        if self.statements.len() == 0 {
            return String::new();
        }
        let first = &self.statements[0];
        match first {
            Statement::LetStatement(_, _) => String::from_str("let"),
            Statement::ReturnStatement(_) => String::from_str("return"),
            Statement::ExpressionStatement(e) => render_leading_literal(e),
        }
    }

    /// Renders the program: its statements' texts in order, with no
    /// separator.
    pub fn render(&self) -> (r: String)
        ensures
            r@ == stmts_text(self.statements@),
    {
        render_statements(&self.statements)
    }
}

} // verus!
