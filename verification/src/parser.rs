//! The operator-precedence (Pratt) parser: recursive descent over a
//! two-token lookahead window, building the abstract syntax tree while
//! collecting syntax errors rather than aborting on them. Ties between
//! operators of equal precedence resolve left-associatively because the
//! binding-power comparison is strict.

use vstd::prelude::*;
use crate::ast::{BlockStatement, Expression, Identifier, Program, Statement};
use crate::lexer::{Lexer, lex_all};
use crate::token::{Token, TokenKind, TokenView, literal_of};

verus! {

/// Operator binding power, lowest to highest. A tie resolves to the left
/// operand because the parser re-enters only on a strictly higher power.
#[derive(Debug, Clone, Copy, PartialEq, Eq, Structural)]
pub enum Precedence {
    Lowest,
    Equals,
    LessGreater,
    Sum,
    Product,
    Prefix,
    Call,
}

/// The binding power of the operator a token stands for; tokens that are no
/// operator bind lowest.
pub open spec fn prec_of(t: TokenView) -> Precedence {
    match t {
        TokenView::Equal => Precedence::Equals,
        TokenView::NotEqual => Precedence::Equals,
        TokenView::LessThan => Precedence::LessGreater,
        TokenView::GreaterThan => Precedence::LessGreater,
        TokenView::Plus => Precedence::Sum,
        TokenView::Minus => Precedence::Sum,
        TokenView::Slash => Precedence::Product,
        TokenView::Asterisk => Precedence::Product,
        TokenView::Lparen => Precedence::Call,
        _ => Precedence::Lowest,
    }
}

/// The numeric rank of a binding power, for strict comparisons.
pub open spec fn prec_rank(p: Precedence) -> int {
    match p {
        Precedence::Lowest => 0,
        Precedence::Equals => 1,
        Precedence::LessGreater => 2,
        Precedence::Sum => 3,
        Precedence::Product => 4,
        Precedence::Prefix => 5,
        Precedence::Call => 6,
    }
}

impl Precedence {
    /// The binding power of the operator `kind` stands for.
    pub fn of(kind: &TokenKind) -> (p: Precedence)
        ensures
            p == prec_of(kind@),
    {
        match kind {
            TokenKind::Equal => Precedence::Equals,
            TokenKind::NotEqual => Precedence::Equals,
            TokenKind::LessThan => Precedence::LessGreater,
            TokenKind::GreaterThan => Precedence::LessGreater,
            TokenKind::Plus => Precedence::Sum,
            TokenKind::Minus => Precedence::Sum,
            TokenKind::Slash => Precedence::Product,
            TokenKind::Asterisk => Precedence::Product,
            TokenKind::Lparen => Precedence::Call,
            _ => Precedence::Lowest,
        }
    }

    /// The numeric rank of this binding power.
    pub fn rank(&self) -> (r: u8)
        ensures
            r as int == prec_rank(*self),
    {
        match self {
            Precedence::Lowest => 0,
            Precedence::Equals => 1,
            Precedence::LessGreater => 2,
            Precedence::Sum => 3,
            Precedence::Product => 4,
            Precedence::Prefix => 5,
            Precedence::Call => 6,
        }
    }
}

/// Whether a prefix handler exists for a token kind: literals, identifiers,
/// the unary operators, grouping, `if` and `fn`.
pub open spec fn has_prefix_fn(t: TokenView) -> bool {
    ||| t is Ident
    ||| t is Int
    ||| t is Str
    ||| t is True
    ||| t is False
    ||| t is Bang
    ||| t is Minus
    ||| t is Lparen
    ||| t is If
    ||| t is Function
}

/// Whether an infix handler exists for a token kind: the binary operators
/// and the call form, entered at an opening parenthesis.
pub open spec fn has_infix_fn(t: TokenView) -> bool {
    ||| t is Plus
    ||| t is Minus
    ||| t is Asterisk
    ||| t is Slash
    ||| t is LessThan
    ||| t is GreaterThan
    ||| t is Equal
    ||| t is NotEqual
    ||| t is Lparen
}

/// Whether the operator at `peek` binds tighter than `precedence`, so that
/// expression parsing extends the tree instead of stopping: the peek token
/// is no semicolon, its binding power strictly exceeds `precedence`, and an
/// infix handler exists for it.
pub open spec fn binds_tighter(peek: TokenView, precedence: Precedence) -> bool {
    &&& !(peek is Semicolon)
    &&& prec_rank(precedence) < prec_rank(prec_of(peek))
    &&& has_infix_fn(peek)
}

/// The message recorded when an expected token is missing.
pub open spec fn msg_expected(expected: TokenView, got: TokenView) -> Seq<char> {
    "expected next token to be "@ + literal_of(expected) + ", got "@ + literal_of(got)
}

/// The message recorded when no prefix handler exists for a token.
pub open spec fn msg_no_prefix(t: TokenView) -> Seq<char> {
    "no prefix parse function for "@ + literal_of(t)
}

/// The message recorded when an identifier was required.
pub open spec fn msg_expected_ident(got: TokenView) -> Seq<char> {
    "expected an identifier, got "@ + literal_of(got)
}

/// What the parse model prescribes for an expression: the tree and the
/// position of its last token, or silence where the input leads beyond the
/// modeled core (an `if`, `fn` or call form, or a parse failure).
pub enum SpExpr {
    Done(crate::ast::ExprView, int),
    Beyond,
}

/// What the parse model prescribes for a block's statements.
pub enum SpBlock {
    Done(Seq<crate::ast::StmtView>, int),
    Beyond,
}

/// What the parse model prescribes for a parameter list.
pub enum SpParams {
    Done(Seq<Seq<char>>, int),
    Beyond,
}

/// What the parse model prescribes for a call's argument list.
pub enum SpArgs {
    Done(Seq<crate::ast::ExprView>, int),
    Beyond,
}

/// What the parse model prescribes for a statement.
pub enum SpStmt {
    Done(crate::ast::StmtView, int),
    Beyond,
}

/// What the parse model prescribes for a whole program.
pub enum SpProg {
    Done(Seq<crate::ast::StmtView>, int),
    Beyond,
}

/// The model of the prefix position: a literal or identifier stands alone
/// at its own position; `!` and `-` wrap the expression parsed at unary
/// binding power; `(` wraps the expression up to the matching `)`. Guards
/// that re-check positions keep the definition well-founded; they never
/// fire on a well-formed token stream.
pub open spec fn sp_prefix(toks: Seq<TokenView>, pos: int) -> SpExpr
    decreases toks.len() - pos, 1int,
    when 0 <= pos < toks.len()
{
    match toks[pos] {
        TokenView::Ident(nm) => SpExpr::Done(crate::ast::ExprView::Ident(nm), pos),
        TokenView::Int(v) => SpExpr::Done(crate::ast::ExprView::IntLit(v), pos),
        TokenView::True => SpExpr::Done(crate::ast::ExprView::BoolLit(true), pos),
        TokenView::False => SpExpr::Done(crate::ast::ExprView::BoolLit(false), pos),
        TokenView::Str(s) => SpExpr::Done(crate::ast::ExprView::StrLit(s), pos),
        TokenView::Bang => if pos + 1 < toks.len() {
            match sp_expr(toks, pos + 1, Precedence::Prefix) {
                SpExpr::Done(ev, p) => SpExpr::Done(
                    crate::ast::ExprView::Pre(TokenView::Bang, Box::new(ev)),
                    p,
                ),
                SpExpr::Beyond => SpExpr::Beyond,
            }
        } else {
            SpExpr::Beyond
        },
        TokenView::Minus => if pos + 1 < toks.len() {
            match sp_expr(toks, pos + 1, Precedence::Prefix) {
                SpExpr::Done(ev, p) => SpExpr::Done(
                    crate::ast::ExprView::Pre(TokenView::Minus, Box::new(ev)),
                    p,
                ),
                SpExpr::Beyond => SpExpr::Beyond,
            }
        } else {
            SpExpr::Beyond
        },
        TokenView::Lparen => if pos + 1 < toks.len() {
            match sp_expr(toks, pos + 1, Precedence::Lowest) {
                SpExpr::Done(ev, p) => if p + 1 < toks.len() && toks[p + 1] is Rparen {
                    SpExpr::Done(ev, p + 1)
                } else {
                    SpExpr::Beyond
                },
                SpExpr::Beyond => SpExpr::Beyond,
            }
        } else {
            SpExpr::Beyond
        },
        TokenView::If => sp_if(toks, pos),
        TokenView::Function => sp_fnlit(toks, pos),
        _ => SpExpr::Beyond,
    }
}

/// The model of `if (<condition>) { <consequence> }` with an optional
/// `else { <alternative> }`, entered at the `if` at `pos`.
pub open spec fn sp_if(toks: Seq<TokenView>, pos: int) -> SpExpr
    decreases toks.len() - pos, 0int,
    when 0 <= pos < toks.len()
{
    if pos + 2 < toks.len() && toks[pos + 1] is Lparen {
        match sp_expr(toks, pos + 2, Precedence::Lowest) {
            SpExpr::Done(cv, pc) => if pos + 2 <= pc && pc + 2 < toks.len() && toks[pc + 1]
                is Rparen && toks[pc + 2] is Lbrace {
                match sp_block(toks, pc + 2) {
                    SpBlock::Done(cons, pb) => if pc + 2 <= pb && pb + 1 < toks.len() {
                        if toks[pb + 1] is Else {
                            if pb + 2 < toks.len() && toks[pb + 2] is Lbrace {
                                match sp_block(toks, pb + 2) {
                                    SpBlock::Done(alt, pb2) => if pb + 2 <= pb2 < toks.len() {
                                        SpExpr::Done(
                                            crate::ast::ExprView::Cond(
                                                Box::new(cv),
                                                cons,
                                                Some(alt),
                                            ),
                                            pb2,
                                        )
                                    } else {
                                        SpExpr::Beyond
                                    },
                                    SpBlock::Beyond => SpExpr::Beyond,
                                }
                            } else {
                                SpExpr::Beyond
                            }
                        } else {
                            SpExpr::Done(
                                crate::ast::ExprView::Cond(Box::new(cv), cons, None),
                                pb,
                            )
                        }
                    } else {
                        SpExpr::Beyond
                    },
                    SpBlock::Beyond => SpExpr::Beyond,
                }
            } else {
                SpExpr::Beyond
            },
            SpExpr::Beyond => SpExpr::Beyond,
        }
    } else {
        SpExpr::Beyond
    }
}

/// The model of `fn (<parameters>) { <body> }`, entered at the `fn` at
/// `pos`.
pub open spec fn sp_fnlit(toks: Seq<TokenView>, pos: int) -> SpExpr
    decreases toks.len() - pos, 0int,
    when 0 <= pos < toks.len()
{
    if pos + 1 < toks.len() && toks[pos + 1] is Lparen {
        match sp_params(toks, pos + 1) {
            SpParams::Done(ns, pp) => if pos + 1 <= pp && pp + 1 < toks.len() && toks[pp + 1]
                is Lbrace {
                match sp_block(toks, pp + 1) {
                    SpBlock::Done(body, pb) => if pp + 1 <= pb < toks.len() {
                        SpExpr::Done(crate::ast::ExprView::FnLit(ns, body), pb)
                    } else {
                        SpExpr::Beyond
                    },
                    SpBlock::Beyond => SpExpr::Beyond,
                }
            } else {
                SpExpr::Beyond
            },
            SpParams::Beyond => SpExpr::Beyond,
        }
    } else {
        SpExpr::Beyond
    }
}

/// The model of a block, entered at the opening brace at `pos`: the
/// statements up to the closing brace, whose position the result carries.
pub open spec fn sp_block(toks: Seq<TokenView>, pos: int) -> SpBlock
    decreases toks.len() - pos, 0int,
    when 0 <= pos < toks.len()
{
    if pos + 1 < toks.len() {
        match sp_block_items(toks, pos + 1) {
            SpBlock::Done(svs, p) => if 0 <= p < toks.len() && toks[p] is Rbrace {
                SpBlock::Done(svs, p)
            } else {
                SpBlock::Beyond
            },
            SpBlock::Beyond => SpBlock::Beyond,
        }
    } else {
        SpBlock::Beyond
    }
}

/// The model of the statements inside a block, one per construct until the
/// closing brace.
pub open spec fn sp_block_items(toks: Seq<TokenView>, pos: int) -> SpBlock
    decreases toks.len() - pos, 6int,
    when 0 <= pos < toks.len()
{
    if toks[pos] is Rbrace {
        SpBlock::Done(Seq::empty(), pos)
    } else if toks[pos] is Eof {
        SpBlock::Beyond
    } else {
        match sp_stmt(toks, pos) {
            SpStmt::Done(sv, p) => if pos <= p && p + 1 < toks.len() {
                match sp_block_items(toks, p + 1) {
                    SpBlock::Done(rest, pend) => SpBlock::Done(seq![sv] + rest, pend),
                    SpBlock::Beyond => SpBlock::Beyond,
                }
            } else {
                SpBlock::Beyond
            },
            SpStmt::Beyond => SpBlock::Beyond,
        }
    }
}

/// The model of a parameter list, entered at the opening parenthesis at
/// `pos`: comma-separated identifiers up to the matching `)`, whose
/// position the result carries.
pub open spec fn sp_params(toks: Seq<TokenView>, pos: int) -> SpParams
    decreases toks.len() - pos,
    when 0 <= pos < toks.len()
{
    if pos + 1 >= toks.len() {
        SpParams::Beyond
    } else if toks[pos + 1] is Rparen {
        SpParams::Done(Seq::empty(), pos + 1)
    } else {
        match toks[pos + 1] {
            TokenView::Ident(nm) => match sp_params_rest(toks, pos + 1) {
                SpParams::Done(rest, pend) => SpParams::Done(seq![nm] + rest, pend),
                SpParams::Beyond => SpParams::Beyond,
            },
            _ => SpParams::Beyond,
        }
    }
}

/// The model of the parameters after the first: with the previous name at
/// `pos`, a comma introduces the next name, and the closing parenthesis
/// ends the list.
pub open spec fn sp_params_rest(toks: Seq<TokenView>, pos: int) -> SpParams
    decreases toks.len() - pos,
    when 0 <= pos < toks.len()
{
    if pos + 1 >= toks.len() {
        SpParams::Beyond
    } else if toks[pos + 1] is Rparen {
        SpParams::Done(Seq::empty(), pos + 1)
    } else if toks[pos + 1] is Comma && pos + 2 < toks.len() {
        match toks[pos + 2] {
            TokenView::Ident(nm) => match sp_params_rest(toks, pos + 2) {
                SpParams::Done(rest, pend) => SpParams::Done(seq![nm] + rest, pend),
                SpParams::Beyond => SpParams::Beyond,
            },
            _ => SpParams::Beyond,
        }
    } else {
        SpParams::Beyond
    }
}

/// The model of the precedence climb: with the tree built so far ending at
/// `pos`, the climb stops when the next operator does not bind tighter than
/// `prec`, and otherwise folds that operator and its right operand — parsed
/// at the operator's own binding power, so a tie falls back out and
/// associates to the left — into a larger left tree.
pub open spec fn sp_climb(toks: Seq<TokenView>, pos: int, prec: Precedence, left: crate::ast::ExprView) -> SpExpr
    decreases toks.len() - pos, 0int,
    when 0 <= pos < toks.len()
{
    if pos + 1 >= toks.len() {
        SpExpr::Beyond
    } else {
        let pk = toks[pos + 1];
        if !binds_tighter(pk, prec) {
            SpExpr::Done(left, pos)
        } else if pk is Lparen {
            match sp_args(toks, pos + 1) {
                SpArgs::Done(avs, pend) => if pos + 1 <= pend < toks.len() {
                    sp_climb(
                        toks,
                        pend,
                        prec,
                        crate::ast::ExprView::CallOf(Box::new(left), avs),
                    )
                } else {
                    SpExpr::Beyond
                },
                SpArgs::Beyond => SpExpr::Beyond,
            }
        } else if pos + 2 < toks.len() {
            match sp_expr(toks, pos + 2, prec_of(pk)) {
                SpExpr::Done(rv, p2) => if pos + 2 <= p2 < toks.len() {
                    sp_climb(
                        toks,
                        p2,
                        prec,
                        crate::ast::ExprView::Bin(Box::new(left), pk, Box::new(rv)),
                    )
                } else {
                    SpExpr::Beyond
                },
                SpExpr::Beyond => SpExpr::Beyond,
            }
        } else {
            SpExpr::Beyond
        }
    }
}

/// The model of a call's argument list, entered at the opening parenthesis
/// at `pos`: comma-separated expressions up to the matching `)`, whose
/// position the result carries.
pub open spec fn sp_args(toks: Seq<TokenView>, pos: int) -> SpArgs
    decreases toks.len() - pos, 0int,
    when 0 <= pos < toks.len()
{
    if pos + 1 >= toks.len() {
        SpArgs::Beyond
    } else if toks[pos + 1] is Rparen {
        SpArgs::Done(Seq::empty(), pos + 1)
    } else {
        match sp_expr(toks, pos + 1, Precedence::Lowest) {
            SpExpr::Done(ev, p) => if pos + 1 <= p < toks.len() {
                match sp_args_rest(toks, p) {
                    SpArgs::Done(rest, pend) => SpArgs::Done(seq![ev] + rest, pend),
                    SpArgs::Beyond => SpArgs::Beyond,
                }
            } else {
                SpArgs::Beyond
            },
            SpExpr::Beyond => SpArgs::Beyond,
        }
    }
}

/// The model of the arguments after the first: with the previous argument
/// ending at `pos`, a comma introduces the next argument, and the closing
/// parenthesis ends the list.
pub open spec fn sp_args_rest(toks: Seq<TokenView>, pos: int) -> SpArgs
    decreases toks.len() - pos, 1int,
    when 0 <= pos < toks.len()
{
    if pos + 1 >= toks.len() {
        SpArgs::Beyond
    } else if toks[pos + 1] is Rparen {
        SpArgs::Done(Seq::empty(), pos + 1)
    } else if toks[pos + 1] is Comma && pos + 2 < toks.len() {
        match sp_expr(toks, pos + 2, Precedence::Lowest) {
            SpExpr::Done(ev, p2) => if pos + 2 <= p2 < toks.len() {
                match sp_args_rest(toks, p2) {
                    SpArgs::Done(rest, pend) => SpArgs::Done(seq![ev] + rest, pend),
                    SpArgs::Beyond => SpArgs::Beyond,
                }
            } else {
                SpArgs::Beyond
            },
            SpExpr::Beyond => SpArgs::Beyond,
        }
    } else {
        SpArgs::Beyond
    }
}

/// The model of expression parsing at binding power `prec`: the prefix
/// position, then the precedence climb.
pub open spec fn sp_expr(toks: Seq<TokenView>, pos: int, prec: Precedence) -> SpExpr
    decreases toks.len() - pos, 2int,
    when 0 <= pos < toks.len()
{
    match sp_prefix(toks, pos) {
        SpExpr::Done(ev, p) => if pos <= p < toks.len() {
            sp_climb(toks, p, prec, ev)
        } else {
            SpExpr::Beyond
        },
        SpExpr::Beyond => SpExpr::Beyond,
    }
}

/// The model of `let <identifier> = <expression>;` with the `let` at `pos`.
pub open spec fn sp_let(toks: Seq<TokenView>, pos: int) -> SpStmt
    decreases toks.len() - pos, 3int,
    when 0 <= pos < toks.len()
{
    if 0 <= pos && pos + 3 < toks.len() {
        match toks[pos + 1] {
            TokenView::Ident(nm) => if toks[pos + 2] is Assign {
                match sp_expr(toks, pos + 3, Precedence::Lowest) {
                    SpExpr::Done(ev, p) => if p + 1 < toks.len() && toks[p + 1] is Semicolon {
                        SpStmt::Done(crate::ast::StmtView::LetOf(nm, ev), p + 1)
                    } else {
                        SpStmt::Beyond
                    },
                    SpExpr::Beyond => SpStmt::Beyond,
                }
            } else {
                SpStmt::Beyond
            },
            _ => SpStmt::Beyond,
        }
    } else {
        SpStmt::Beyond
    }
}

/// The model of `return <expression>;` with the `return` at `pos`.
pub open spec fn sp_return(toks: Seq<TokenView>, pos: int) -> SpStmt
    decreases toks.len() - pos, 3int,
    when 0 <= pos < toks.len()
{
    if 0 <= pos && pos + 1 < toks.len() {
        match sp_expr(toks, pos + 1, Precedence::Lowest) {
            SpExpr::Done(ev, p) => if p + 1 < toks.len() && toks[p + 1] is Semicolon {
                SpStmt::Done(crate::ast::StmtView::RetOf(ev), p + 1)
            } else {
                SpStmt::Beyond
            },
            SpExpr::Beyond => SpStmt::Beyond,
        }
    } else {
        SpStmt::Beyond
    }
}

/// The model of a bare expression statement at `pos`; a trailing semicolon
/// is optional and consumed when present.
pub open spec fn sp_expr_stmt(toks: Seq<TokenView>, pos: int) -> SpStmt
    decreases toks.len() - pos, 4int,
    when 0 <= pos < toks.len()
{
    if 0 <= pos < toks.len() {
        match sp_expr(toks, pos, Precedence::Lowest) {
            SpExpr::Done(ev, p) => if p + 1 < toks.len() && !(toks[p] is Eof) {
                if toks[p + 1] is Semicolon {
                    SpStmt::Done(crate::ast::StmtView::ExprOf(ev), p + 1)
                } else {
                    SpStmt::Done(crate::ast::StmtView::ExprOf(ev), p)
                }
            } else {
                SpStmt::Beyond
            },
            SpExpr::Beyond => SpStmt::Beyond,
        }
    } else {
        SpStmt::Beyond
    }
}

/// The model of one statement: dispatch on the token at `pos`.
pub open spec fn sp_stmt(toks: Seq<TokenView>, pos: int) -> SpStmt
    decreases toks.len() - pos, 5int,
    when 0 <= pos < toks.len()
{
    if 0 <= pos < toks.len() {
        if toks[pos] is Let {
            sp_let(toks, pos)
        } else if toks[pos] is Return {
            sp_return(toks, pos)
        } else {
            sp_expr_stmt(toks, pos)
        }
    } else {
        SpStmt::Beyond
    }
}

/// The model of a whole program: one statement per construct until
/// end-of-input, the cursor moving one past each statement's last token.
pub open spec fn sp_prog(toks: Seq<TokenView>, pos: int) -> SpProg
    decreases toks.len() - pos,
    when 0 <= pos < toks.len()
{
    if toks[pos] is Eof {
        SpProg::Done(Seq::empty(), pos)
    } else {
        match sp_stmt(toks, pos) {
            SpStmt::Done(sv, p) => if pos <= p && p + 1 < toks.len() {
                match sp_prog(toks, p + 1) {
                    SpProg::Done(rest, pend) => SpProg::Done(seq![sv] + rest, pend),
                    SpProg::Beyond => SpProg::Beyond,
                }
            } else {
                SpProg::Beyond
            },
            SpStmt::Beyond => SpProg::Beyond,
        }
    }
}

/// The model of a program whose first construct is a malformed `let` — no
/// identifier after the keyword: the parser records one message, skips to
/// the recovery semicolon, and the rest of the program parses from one past
/// it.
pub open spec fn sp_prog_after_bad_let(toks: Seq<TokenView>, pos: int) -> SpProg {
    if 0 <= pos <= toks.len() {
        let s = sync_end(toks, pos);
        if s + 1 < toks.len() && toks[s] is Semicolon {
            sp_prog(toks, s + 1)
        } else {
            SpProg::Beyond
        }
    } else {
        SpProg::Beyond
    }
}

/// The recovery point at or after `pos`: the first position holding a
/// semicolon or end-of-input.
pub open spec fn sync_end(toks: Seq<TokenView>, pos: int) -> int
    decreases toks.len() - pos,
    when 0 <= pos <= toks.len()
{
    if pos == toks.len() {
        pos
    } else if toks[pos] is Semicolon || toks[pos] is Eof {
        pos
    } else {
        sync_end(toks, pos + 1)
    }
}

/// A vector's length fits in `usize`.
proof fn lemma_tokens_len(v: &Vec<Token>)
    ensures
        v@.len() <= usize::MAX,
{
    vstd::std_specs::vec::axiom_spec_len(v);
}

/// The parser: the token stream drawn from the tokenizer, a cursor holding
/// the two-token lookahead window, and the accumulated error list.
#[derive(Debug)]
pub struct Parser {
    tokens: Vec<Token>,
    pos: usize,
    errors: Vec<String>,
}

impl Parser {
    /// The token stream under the cursor.
    pub closed spec fn toks(&self) -> Seq<Token> {
        self.tokens@
    }

    /// The cursor: the index of the current token.
    pub closed spec fn at(&self) -> int {
        self.pos as int
    }

    /// The token stream as its mathematical model.
    pub closed spec fn views(&self) -> Seq<TokenView> {
        self.tokens@.map_values(|t: Token| t@)
    }

    /// The errors collected so far.
    pub closed spec fn errs(&self) -> Seq<String> {
        self.errors@
    }

    /// The current token.
    pub closed spec fn cur(&self) -> TokenView {
        self.tokens@[self.pos as int]@
    }

    /// The peek token: one past the current token.
    pub closed spec fn peek(&self) -> TokenView {
        self.tokens@[self.pos as int + 1]@
    }

    /// The token stream's model holds, at each index, the model of the
    /// token there.
    proof fn lemma_view_at(&self, i: int)
        requires
            0 <= i < self.toks().len(),
        ensures
            self.views()[i] == self.toks()[i]@,
    {
    }

    /// The parser's invariant: the lookahead window lies within the token
    /// stream, the stream ends in end-of-input tokens, and everything after
    /// an end-of-input token is end-of-input again.
    pub closed spec fn wf(&self) -> bool {
        &&& self.tokens@.len() >= 2
        &&& self.pos + 1 < self.tokens@.len()
        &&& self.tokens@[self.tokens@.len() - 1]@ is Eof
        &&& self.tokens@[self.tokens@.len() - 2]@ is Eof
        &&& forall|i: int, j: int|
            0 <= i <= j < self.tokens@.len() && (#[trigger] self.tokens@[i]@) is Eof ==> (
            #[trigger] self.tokens@[j]@) is Eof
    }

    /// Builds a parser by drawing every token from `lexer`, up to and
    /// including the end-of-input token.
    pub fn new(lexer: Lexer) -> (p: Parser)
        requires
            lexer.wf(),
        ensures
            p.wf(),
            p.at() == 0,
            p.errs().len() == 0,
            p.toks().map_values(|t: Token| t@) == lex_all(lexer.src(), lexer.at()).push(
                TokenView::Eof,
            ),
    {
        let ghost src = lexer.src();
        let ghost start = lexer.at();
        let mut lx = lexer;
        let mut tokens: Vec<Token> = Vec::new();
        proof {
            lx.wf_bounds();
            assert(tokens@.map_values(|t: Token| t@) =~= Seq::<TokenView>::empty());
        }
        loop
            invariant_except_break
                tokens@.map_values(|t: Token| t@) + lex_all(src, lx.at()) == lex_all(src, start),
                forall|i: int|
                    0 <= i < tokens@.len() ==> !((#[trigger] tokens@[i]@) is Eof),
            invariant
                lx.wf(),
                lx.src() == src,
                0 <= start <= src.len(),
                0 <= lx.at() <= src.len(),
            ensures
                lx.src() == src,
                tokens@.map_values(|t: Token| t@) == lex_all(src, start),
                tokens@.len() >= 1,
                tokens@[tokens@.len() - 1]@ is Eof,
                forall|i: int|
                    0 <= i < tokens@.len() - 1 ==> !((#[trigger] tokens@[i]@) is Eof),
            decreases src.len() - lx.at(),
        {
            proof {
                crate::lexer::lemma_lex_token_bounds(src, lx.at());
            }
            let ghost p0 = lx.at();
            let ghost before = tokens@;
            let t = lx.next_token();
            let is_end = matches!(t.kind, TokenKind::Eof);
            tokens.push(t);
            proof {
                lx.wf_bounds();
                assert(tokens@.map_values(|t: Token| t@) =~= before.map_values(
                    |u: Token| u@,
                ).push(t@));
                if t@ is Eof {
                    assert(lex_all(src, p0) == seq![t@]);
                    assert(tokens@.map_values(|u: Token| u@) =~= before.map_values(|u: Token| u@)
                        + lex_all(src, p0));
                    assert(tokens@.map_values(|u: Token| u@) == lex_all(src, start));
                } else {
                    assert(lex_all(src, p0) == seq![t@] + lex_all(src, lx.at()));
                    assert(tokens@.map_values(|u: Token| u@) + lex_all(src, lx.at())
                        =~= before.map_values(|u: Token| u@) + lex_all(src, p0));
                }
            }
            if is_end {
                break;
            }
        }
        let ghost lexed = tokens@;
        tokens.push(Token::new(TokenKind::Eof));
        proof {
            assert(tokens@.map_values(|t: Token| t@) =~= lexed.map_values(|t: Token| t@).push(
                TokenView::Eof,
            ));
        }
        let p = Parser { tokens, pos: 0, errors: Vec::new() };
        proof {
            assert(p.wf());
        }
        p
    }

    /// The errors collected so far, in the order they were recorded.
    pub fn errors(&self) -> (r: &Vec<String>)
        ensures
            r@ == self.errs(),
    {
        &self.errors
    }

    /// Advances the lookahead window by one token. Once the current token
    /// is end-of-input the window no longer moves observably: every later
    /// token is end-of-input as well.
    fn next_token(&mut self)
        requires
            old(self).wf(),
        ensures
            final(self).wf(),
            final(self).toks() == old(self).toks(),
            final(self).errs() == old(self).errs(),
            old(self).pos <= final(self).pos <= old(self).pos + 1,
            !(old(self).cur() is Eof) ==> final(self).pos == old(self).pos + 1,
            old(self).cur() is Eof ==> final(self).cur() is Eof,
    {
        proof {
            lemma_tokens_len(&self.tokens);
        }
        if self.pos + 2 < self.tokens.len() {
            self.pos = self.pos + 1;
        }
    }

    /// Whether the current token has the given kind and payload.
    fn current_token_is(&self, kind: &TokenKind) -> (r: bool)
        requires
            self.wf(),
        ensures
            r == (self.cur() == kind@),
    {
        self.tokens[self.pos].kind.same_as(kind)
    }

    /// Whether the peek token has the given kind and payload.
    fn peek_token_is(&self, kind: &TokenKind) -> (r: bool)
        requires
            self.wf(),
        ensures
            r == (self.peek() == kind@),
    {
        proof {
            lemma_tokens_len(&self.tokens);
        }
        self.tokens[self.pos + 1].kind.same_as(kind)
    }

    /// The binding power of the peek token.
    fn peek_precedence(&self) -> (p: Precedence)
        requires
            self.wf(),
        ensures
            p == prec_of(self.peek()),
    {
        proof {
            lemma_tokens_len(&self.tokens);
        }
        Precedence::of(&self.tokens[self.pos + 1].kind)
    }

    /// The binding power of the current token.
    fn current_precedence(&self) -> (p: Precedence)
        requires
            self.wf(),
        ensures
            p == prec_of(self.cur()),
    {
        Precedence::of(&self.tokens[self.pos].kind)
    }

    /// The message for a missing expected token at the peek position.
    fn peek_error_message(&self, expected: &TokenKind) -> (m: String)
        requires
            self.wf(),
        ensures
            m@ == msg_expected(expected@, self.peek()),
    {
        proof {
            lemma_tokens_len(&self.tokens);
        }
        let mut m = String::from_str("expected next token to be ");
        m.append(expected.literal().as_str());
        m.append(", got ");
        m.append(self.tokens[self.pos + 1].kind.literal().as_str());
        proof {
            assert(m@ =~= msg_expected(expected@, self.peek()));
        }
        m
    }

    /// Checks that the peek token has the given kind: on success the window
    /// advances onto it; on failure the window stays put and the error
    /// message names the expected kind and the token found.
    fn expect_peek(&mut self, kind: &TokenKind) -> (r: Result<(), String>)
        requires
            old(self).wf(),
            !(kind@ is Eof),
        ensures
            final(self).wf(),
            final(self).toks() == old(self).toks(),
            final(self).errs() == old(self).errs(),
            r is Ok <==> old(self).peek() == kind@,
            r is Ok ==> final(self).pos == old(self).pos + 1 && final(self).cur() == kind@,
            r is Err ==> *final(self) == *old(self),
            r matches Err(m) ==> m@ == msg_expected(kind@, old(self).peek()),
    {
        if !self.peek_token_is(kind) {
            return Err(self.peek_error_message(kind));
        }
        proof {
            assert(!(self.cur() is Eof)) by {
                let toks = self.tokens@;
                let p = self.pos as int;
                if toks[p]@ is Eof {
                    assert(toks[p + 1]@ is Eof);
                }
            }
        }
        self.next_token();
        Ok(())
    }

    /// The message for a token with no prefix handler at the current
    /// position.
    fn no_prefix_message(&self) -> (m: String)
        requires
            self.wf(),
        ensures
            m@ == msg_no_prefix(self.cur()),
    {
        let mut m = String::from_str("no prefix parse function for ");
        m.append(self.tokens[self.pos].kind.literal().as_str());
        proof {
            assert(m@ =~= msg_no_prefix(self.cur()));
        }
        m
    }

    /// Parses the whole token stream: one statement per top-level
    /// construct, until end-of-input. A construct that fails to parse
    /// records its message and is skipped; the program holds every
    /// statement that parsed. The parser never aborts on malformed input.
    pub fn parse_program(&mut self) -> (prog: Program)
        requires
            old(self).wf(),
        ensures
            final(self).wf(),
            final(self).toks() == old(self).toks(),
            final(self).cur() is Eof,
            old(self).errs().is_prefix_of(final(self).errs()),
            !(old(self).cur() is Eof) ==> prog.statements@.len() + final(self).errs().len()
                >= old(self).errs().len() + 1,
            sp_prog(old(self).views(), old(self).at()) matches SpProg::Done(svs, pend) ==> (
            crate::ast::stmts_view(prog.statements@) == svs && final(self).at() == pend
                && final(self).errs() == old(self).errs()),
            (old(self).cur() is Let && !(old(self).peek() is Ident)) ==> (
            sp_prog_after_bad_let(old(self).views(), old(self).at()) matches SpProg::Done(
                svs,
                pend,
            ) ==> ({
                &&& crate::ast::stmts_view(prog.statements@) == svs
                &&& final(self).errs().len() == old(self).errs().len() + 1
                &&& final(self).errs().last()@ == msg_expected_ident(old(self).peek())
                &&& final(self).at() == pend
            })),
    {
        let ghost mp = sp_prog(self.views(), self.at());
        let ghost mb = sp_prog_after_bad_let(self.views(), self.at());
        let ghost bad_let = self.cur() is Let && !(self.peek() is Ident);
        let mut program = Program::new();
        proof {
            assert(crate::ast::stmts_view(program.statements@) =~= Seq::<
                crate::ast::StmtView,
            >::empty());
        }
        loop
            invariant
                self.wf(),
                self.toks() == old(self).toks(),
                self.pos >= old(self).pos,
                old(self).errs().is_prefix_of(self.errs()),
                self.pos > old(self).pos ==> program.statements@.len() + self.errs().len()
                    >= old(self).errs().len() + 1,
                mp == sp_prog(old(self).views(), old(self).at()),
                mb == sp_prog_after_bad_let(old(self).views(), old(self).at()),
                bad_let == (old(self).cur() is Let && !(old(self).peek() is Ident)),
                mp matches SpProg::Done(svs, pend) ==> ({
                    &&& self.errs() == old(self).errs()
                    &&& sp_prog(old(self).views(), self.at()) matches SpProg::Done(rest, pend2)
                    &&& pend2 == pend
                    &&& crate::ast::stmts_view(program.statements@) + rest == svs
                }),
                bad_let ==> (mb matches SpProg::Done(svs, pend) ==> ({
                    ||| (self.pos == old(self).pos && program.statements@.len() == 0
                        && self.errs() == old(self).errs())
                    ||| ({
                        &&& self.pos > old(self).pos
                        &&& self.errs().len() == old(self).errs().len() + 1
                        &&& self.errs().last()@ == msg_expected_ident(old(self).peek())
                        &&& sp_prog(old(self).views(), self.at()) matches SpProg::Done(
                            rest,
                            pend2,
                        )
                        &&& pend2 == pend
                        &&& crate::ast::stmts_view(program.statements@) + rest == svs
                    })
                })),
            ensures
                self.wf(),
                self.toks() == old(self).toks(),
                self.pos >= old(self).pos,
                self.cur() is Eof,
                old(self).errs().is_prefix_of(self.errs()),
                self.pos > old(self).pos ==> program.statements@.len() + self.errs().len()
                    >= old(self).errs().len() + 1,
                mp matches SpProg::Done(svs, pend) ==> (self.errs() == old(self).errs()
                    && crate::ast::stmts_view(program.statements@) == svs && self.at() == pend),
                bad_let ==> (mb matches SpProg::Done(svs, pend) ==> ({
                    &&& crate::ast::stmts_view(program.statements@) == svs
                    &&& self.errs().len() == old(self).errs().len() + 1
                    &&& self.errs().last()@ == msg_expected_ident(old(self).peek())
                    &&& self.at() == pend
                })),
            decreases self.toks().len() - self.at(),
        {
            if self.current_token_is(&TokenKind::Eof) {
                proof {
                    self.lemma_view_at(self.at());
                    assert(crate::ast::stmts_view(program.statements@) + Seq::<
                        crate::ast::StmtView,
                    >::empty() =~= crate::ast::stmts_view(program.statements@));
                    if mp is Done {
                        assert(sp_prog(old(self).views(), self.at()) == SpProg::Done(
                            Seq::<crate::ast::StmtView>::empty(),
                            self.at(),
                        ));
                    }
                    if bad_let && mb is Done {
                        assert(self.pos > old(self).pos);
                        assert(sp_prog(old(self).views(), self.at()) == SpProg::Done(
                            Seq::<crate::ast::StmtView>::empty(),
                            self.at(),
                        ));
                    }
                }
                break;
            }
            let ghost p0 = self.pos;
            let ghost stmts0 = program.statements@;
            proof {
                self.lemma_view_at(self.at());
            }
            let parsed = self.parser_statement();
            match parsed {
                Some(statement) => {
                    proof {
                        crate::ast::lemma_stmts_view_push(program.statements@, statement);
                    }
                    program.statements.push(statement);
                    proof {
                        assert(crate::ast::stmts_view(program.statements@)
                            =~= crate::ast::stmts_view(stmts0) + seq![
                            crate::ast::stmt_view(statement),
                        ]);
                    }
                },
                None => {},
            }
            proof {
                if mp is Done || (bad_let && mb is Done && p0 > old(self).pos) {
                    // The model-following cases: the statement ended on a
                    // semicolon or another non-terminal token, so the
                    // window moves one past it.
                    self.lemma_view_at(self.at());
                    assert(!(self.cur() is Eof));
                }
                if bad_let && mb is Done && p0 == old(self).pos {
                    // The recovery case: the message is recorded and the
                    // window sits on the recovery semicolon.
                    self.lemma_view_at(self.at());
                    assert(self.cur() is Semicolon);
                }
            }
            self.next_token();
            proof {
                assert(self.pos > p0);
                if mp is Done {
                    assert(sp_prog(old(self).views(), self.at()) is Done);
                }
                if bad_let && mb is Done {
                    assert(sp_prog(old(self).views(), self.at()) is Done);
                    if p0 == old(self).pos {
                        match mb {
                            SpProg::Done(svs, _pend) => {
                                assert(crate::ast::stmts_view(program.statements@) =~= Seq::<
                                    crate::ast::StmtView,
                                >::empty());
                                assert(Seq::<crate::ast::StmtView>::empty() + svs =~= svs);
                            },
                            SpProg::Beyond => {},
                        }
                    }
                }
            }
        }
        program
    }

    /// Dispatches on the current token to parse one statement. On failure
    /// the message is recorded and, for a malformed `let` or `return`, the
    /// window skips forward to the next semicolon so that the statements
    /// after it still parse.
    fn parser_statement(&mut self) -> (r: Option<Statement>)
        requires
            old(self).wf(),
        ensures
            final(self).wf(),
            final(self).toks() == old(self).toks(),
            final(self).pos >= old(self).pos,
            old(self).errs().is_prefix_of(final(self).errs()),
            r is None ==> final(self).errs().len() > old(self).errs().len(),
            r matches Some(st) ==> ({
                &&& old(self).cur() is Let ==> (st matches Statement::LetStatement(id, _v)
                    && old(self).peek() matches TokenView::Ident(nm) && id.0@ == nm)
                &&& old(self).cur() is Return ==> st is ReturnStatement
                &&& (!(old(self).cur() is Let) && !(old(self).cur() is Return)) ==> st
                    is ExpressionStatement
            }),
            sp_stmt(old(self).views(), old(self).at()) matches SpStmt::Done(sv, p) ==> (
            r matches Some(st) && crate::ast::stmt_view(st) == sv && final(self).at() == p
                && final(self).errs() == old(self).errs()),
            (old(self).cur() is Let && !(old(self).peek() is Ident)) ==> ({
                &&& r is None
                &&& final(self).errs().len() == old(self).errs().len() + 1
                &&& final(self).errs().last()@ == msg_expected_ident(old(self).peek())
                &&& final(self).at() == sync_end(old(self).views(), old(self).at())
            }),
        decreases old(self).toks().len() - old(self).at(), 5int,
    {
        proof {
            self.lemma_view_at(self.at());
        }
        let is_let = self.current_token_is(&TokenKind::Let);
        let is_return = self.current_token_is(&TokenKind::Return);
        let result = if is_let {
            self.parse_let_statement()
        } else if is_return {
            self.parse_return_statement()
        } else {
            self.parse_expression_statement()
        };
        match result {
            Ok(statement) => Some(statement),
            Err(message) => {
                self.errors.push(message);
                if is_let || is_return {
                    self.skip_to_semicolon();
                }
                None
            },
        }
    }

    /// Moves the window forward until a semicolon or end-of-input: the
    /// recovery point after a malformed `let` or `return`.
    fn skip_to_semicolon(&mut self)
        requires
            old(self).wf(),
        ensures
            final(self).wf(),
            final(self).toks() == old(self).toks(),
            final(self).errs() == old(self).errs(),
            final(self).pos >= old(self).pos,
            final(self).at() == sync_end(old(self).views(), old(self).at()),
    {
        loop
            invariant
                self.wf(),
                self.toks() == old(self).toks(),
                self.errs() == old(self).errs(),
                self.pos >= old(self).pos,
                sync_end(self.views(), self.at()) == sync_end(old(self).views(), old(self).at()),
            ensures
                self.wf(),
                self.toks() == old(self).toks(),
                self.errs() == old(self).errs(),
                self.pos >= old(self).pos,
                self.at() == sync_end(old(self).views(), old(self).at()),
            decreases self.toks().len() - self.at(),
        {
            if self.current_token_is(&TokenKind::Semicolon) {
                break;
            }
            if self.current_token_is(&TokenKind::Eof) {
                break;
            }
            self.next_token();
        }
    }

    /// Parses `let <identifier> = <expression>;`. On success the statement
    /// binds exactly the identifier that stood after `let`.
    #[verifier::rlimit(100)]
    fn parse_let_statement(&mut self) -> (r: Result<Statement, String>)
        requires
            old(self).wf(),
            old(self).cur() is Let,
        ensures
            final(self).wf(),
            final(self).toks() == old(self).toks(),
            final(self).pos >= old(self).pos,
            old(self).errs().is_prefix_of(final(self).errs()),
            r matches Ok(s) ==> (old(self).peek() matches TokenView::Ident(nm) && s matches
                Statement::LetStatement(id, _v) && id.0@ == nm),
            !(old(self).peek() is Ident) ==> (r matches Err(m) && m@ == msg_expected_ident(
                old(self).peek(),
            ) && *final(self) == *old(self)),
            sp_let(old(self).views(), old(self).at()) matches SpStmt::Done(sv, p) ==> (
            r matches Ok(s) && crate::ast::stmt_view(s) == sv && final(self).at() == p
                && final(self).errs() == old(self).errs()),
        decreases old(self).toks().len() - old(self).at(), 4int,
    {
        let ghost ml = sp_let(self.views(), self.at());
        proof {
            lemma_tokens_len(&self.tokens);
            if ml is Done {
                self.lemma_view_at(self.at() + 1);
                self.lemma_view_at(self.at() + 2);
            }
        }
        let kind = self.tokens[self.pos + 1].kind.clone();
        match kind {
            TokenKind::Ident(name) => {
                proof {
                    assert(!(self.cur() is Eof));
                }
                self.next_token();
                self.expect_peek(&TokenKind::Assign)?;
                proof {
                    assert(!(self.cur() is Eof));
                }
                self.next_token();
                let value = self.parse_expression(Precedence::Lowest)?;
                proof {
                    if ml is Done {
                        self.lemma_view_at(self.at() + 1);
                    }
                }
                self.expect_peek(&TokenKind::Semicolon)?;
                Ok(Statement::LetStatement(Identifier(name), value))
            },
            _ => {
                let mut m = String::from_str("expected an identifier, got ");
                m.append(self.tokens[self.pos + 1].kind.literal().as_str());
                proof {
                    assert(m@ =~= msg_expected_ident(self.peek()));
                }
                Err(m)
            },
        }
    }

    /// Parses `return <expression>;`.
    fn parse_return_statement(&mut self) -> (r: Result<Statement, String>)
        requires
            old(self).wf(),
            old(self).cur() is Return,
        ensures
            final(self).wf(),
            final(self).toks() == old(self).toks(),
            final(self).pos >= old(self).pos,
            old(self).errs().is_prefix_of(final(self).errs()),
            r matches Ok(s) ==> s is ReturnStatement,
            sp_return(old(self).views(), old(self).at()) matches SpStmt::Done(sv, p) ==> (
            r matches Ok(s) && crate::ast::stmt_view(s) == sv && final(self).at() == p
                && final(self).errs() == old(self).errs()),
        decreases old(self).toks().len() - old(self).at(), 4int,
    {
        let ghost mr = sp_return(self.views(), self.at());
        proof {
            assert(!(self.cur() is Eof));
        }
        self.next_token();
        let value = self.parse_expression(Precedence::Lowest)?;
        proof {
            if mr is Done {
                self.lemma_view_at(self.at() + 1);
            }
        }
        self.expect_peek(&TokenKind::Semicolon)?;
        Ok(Statement::ReturnStatement(value))
    }

    /// Parses a bare expression as a statement; a trailing semicolon is
    /// optional and consumed when present.
    fn parse_expression_statement(&mut self) -> (r: Result<Statement, String>)
        requires
            old(self).wf(),
        ensures
            final(self).wf(),
            final(self).toks() == old(self).toks(),
            final(self).pos >= old(self).pos,
            old(self).errs().is_prefix_of(final(self).errs()),
            r matches Ok(s) ==> s is ExpressionStatement,
            sp_expr_stmt(old(self).views(), old(self).at()) matches SpStmt::Done(sv, p) ==> (
            r matches Ok(s) && crate::ast::stmt_view(s) == sv && final(self).at() == p
                && final(self).errs() == old(self).errs()),
        decreases old(self).toks().len() - old(self).at(), 4int,
    {
        let ghost ms = sp_expr_stmt(self.views(), self.at());
        let expression = self.parse_expression(Precedence::Lowest)?;
        proof {
            if ms is Done {
                self.lemma_view_at(self.at());
                self.lemma_view_at(self.at() + 1);
            }
        }
        if self.peek_token_is(&TokenKind::Semicolon) {
            self.next_token();
        }
        Ok(Statement::ExpressionStatement(expression))
    }

    /// Parses an expression: a prefix handler for the current token, then,
    /// while the next token is no semicolon, binds strictly tighter than
    /// `precedence` and has an infix handler, the infix handler extends the
    /// tree to the left. A token without a prefix handler is a parse error
    /// whose message names it.
    fn parse_expression(&mut self, precedence: Precedence) -> (r: Result<Expression, String>)
        requires
            old(self).wf(),
        ensures
            final(self).wf(),
            final(self).toks() == old(self).toks(),
            final(self).pos >= old(self).pos,
            old(self).errs().is_prefix_of(final(self).errs()),
            !has_prefix_fn(old(self).cur()) ==> (final(self).pos == old(self).pos && (
            r matches Err(m) && m@ == msg_no_prefix(old(self).cur()))),
            old(self).cur() matches TokenView::Ident(nm) ==> (!binds_tighter(
                old(self).peek(),
                precedence,
            ) ==> (r matches Ok(e) && e matches Expression::Identifier(id) && id.0@ == nm
                && final(self).pos == old(self).pos)),
            old(self).cur() matches TokenView::Int(v) ==> (!binds_tighter(
                old(self).peek(),
                precedence,
            ) ==> (r matches Ok(e) && e matches Expression::Integer(x) && x as int == v
                && final(self).pos == old(self).pos)),
            sp_expr(old(self).views(), old(self).at(), precedence) matches SpExpr::Done(ev, p)
                ==> (r matches Ok(e) && crate::ast::expr_view(e) == ev && final(self).at() == p
                && final(self).errs() == old(self).errs()),
        decreases old(self).toks().len() - old(self).at(), 3int,
    {
        let ghost m = sp_expr(self.views(), self.at(), precedence);
        let has_prefix = match &self.tokens[self.pos].kind {
            TokenKind::Ident(_) => true,
            TokenKind::Int(_) => true,
            TokenKind::Str(_) => true,
            TokenKind::True => true,
            TokenKind::False => true,
            TokenKind::Bang => true,
            TokenKind::Minus => true,
            TokenKind::Lparen => true,
            TokenKind::If => true,
            TokenKind::Function => true,
            _ => false,
        };
        if !has_prefix {
            proof {
                self.lemma_view_at(self.at());
            }
            return Err(self.no_prefix_message());
        }
        let mut expression = self.parse_prefix()?;
        let ghost e0 = expression;
        let ghost pos0 = self.pos;
        proof {
            if m is Done {
                self.lemma_view_at(old(self).at());
                assert(sp_climb(
                    old(self).views(),
                    self.at(),
                    precedence,
                    crate::ast::expr_view(expression),
                ) == m);
            }
        }
        loop
            invariant
                self.wf(),
                self.toks() == old(self).toks(),
                self.pos >= old(self).pos,
                self.pos >= pos0,
                old(self).errs().is_prefix_of(self.errs()),
                has_prefix_fn(old(self).cur()),
                (old(self).cur() is Ident || old(self).cur() is Int) ==> pos0 == old(self).pos,
                (pos0 == old(self).pos && !binds_tighter(old(self).peek(), precedence)) ==> (
                self.pos == pos0 && expression == e0),
                m == sp_expr(old(self).views(), old(self).at(), precedence),
                m is Done ==> (sp_climb(
                    old(self).views(),
                    self.at(),
                    precedence,
                    crate::ast::expr_view(expression),
                ) == m && self.errs() == old(self).errs()),
            ensures
                self.wf(),
                self.toks() == old(self).toks(),
                self.pos >= old(self).pos,
                old(self).errs().is_prefix_of(self.errs()),
                (pos0 == old(self).pos && !binds_tighter(old(self).peek(), precedence)) ==> (
                self.pos == pos0 && expression == e0),
                m matches SpExpr::Done(mev, mp) ==> (crate::ast::expr_view(expression) == mev
                    && self.at() == mp && self.errs() == old(self).errs()),
            decreases self.toks().len() - self.at(),
        {
            proof {
                if m is Done {
                    self.lemma_view_at(self.at() + 1);
                }
            }
            if self.peek_token_is(&TokenKind::Semicolon) {
                break;
            }
            let peek_prec = self.peek_precedence();
            if precedence.rank() >= peek_prec.rank() {
                break;
            }
            proof {
                lemma_tokens_len(&self.tokens);
            }
            let has_infix = match &self.tokens[self.pos + 1].kind {
                TokenKind::Plus => true,
                TokenKind::Minus => true,
                TokenKind::Asterisk => true,
                TokenKind::Slash => true,
                TokenKind::LessThan => true,
                TokenKind::GreaterThan => true,
                TokenKind::Equal => true,
                TokenKind::NotEqual => true,
                TokenKind::Lparen => true,
                _ => false,
            };
            if !has_infix {
                break;
            }
            proof {
                assert(!(self.cur() is Eof)) by {
                    let toks = self.tokens@;
                    let p = self.pos as int;
                    if toks[p]@ is Eof {
                        assert(toks[p + 1]@ is Eof);
                    }
                }
                // The checks above passed, so the peek operator binds
                // tighter; were the window still where it started, that
                // operator would be the one seen at entry.
                assert(binds_tighter(self.peek(), precedence));
                if pos0 == old(self).pos && !binds_tighter(old(self).peek(), precedence) {
                    assert(self.pos == pos0);
                    assert(self.peek() == old(self).peek());
                    assert(false);
                }
                // Where the model speaks, it folds the operator at the peek
                // into the left tree: for a call form the argument list's
                // model succeeds, and for a binary operator the right
                // operand's model succeeds.
                if m is Done {
                    if self.peek() is Lparen {
                        assert(sp_args(old(self).views(), self.at() + 1) is Done);
                    } else {
                        assert(self.at() + 2 < old(self).views().len());
                        assert(sp_expr(old(self).views(), self.at() + 2, prec_of(self.peek()))
                            is Done);
                    }
                }
            }
            let ghost p0 = self.pos;
            self.next_token();
            if self.current_token_is(&TokenKind::Lparen) {
                expression = self.parse_call_expression(expression)?;
            } else {
                expression = self.parse_infix(expression)?;
            }
            proof {
                assert(self.pos > p0);
                if m is Done {
                    assert(sp_climb(
                        old(self).views(),
                        self.at(),
                        precedence,
                        crate::ast::expr_view(expression),
                    ) == m);
                }
            }
        }
        Ok(expression)
    }

    /// Applies the prefix handler for the current token: literals and
    /// identifiers stand alone; `!` and `-` parse their operand at unary
    /// binding power; `(` parses a grouped expression up to the matching
    /// `)`; `if` and `fn` parse their forms.
    fn parse_prefix(&mut self) -> (r: Result<Expression, String>)
        requires
            old(self).wf(),
            has_prefix_fn(old(self).cur()),
        ensures
            final(self).wf(),
            final(self).toks() == old(self).toks(),
            final(self).pos >= old(self).pos,
            old(self).errs().is_prefix_of(final(self).errs()),
            old(self).cur() matches TokenView::Ident(nm) ==> (r matches Ok(e) && e matches
                Expression::Identifier(id) && id.0@ == nm && final(self).pos == old(self).pos),
            old(self).cur() matches TokenView::Int(v) ==> (r matches Ok(e) && e matches
                Expression::Integer(x) && x as int == v && final(self).pos == old(self).pos),
            old(self).cur() matches TokenView::Str(s) ==> (r matches Ok(e) && e matches
                Expression::StringLiteral(w) && w@ == s && final(self).pos == old(self).pos),
            old(self).cur() is True ==> r == Ok::<Expression, String>(Expression::Boolean(true)),
            old(self).cur() is False ==> r == Ok::<Expression, String>(
                Expression::Boolean(false),
            ),
            old(self).cur() is Bang ==> (r matches Ok(e) ==> (e matches Expression::Prefix(op, _)
                && op@ is Bang)),
            old(self).cur() is Minus ==> (r matches Ok(e) ==> (e matches Expression::Prefix(
                op,
                _,
            ) && op@ is Minus)),
            old(self).cur() is If ==> (r matches Ok(e) ==> e is If),
            old(self).cur() is Function ==> (r matches Ok(e) ==> e is FunctionLiteral),
            sp_prefix(old(self).views(), old(self).at()) matches SpExpr::Done(ev, p) ==> (
            r matches Ok(e) && crate::ast::expr_view(e) == ev && final(self).at() == p
                && final(self).errs() == old(self).errs()),
        decreases old(self).toks().len() - old(self).at(), 2int,
    {
        let kind = self.tokens[self.pos].kind.clone();
        match kind {
            TokenKind::Ident(name) => Ok(Expression::Identifier(Identifier(name))),
            TokenKind::Int(value) => Ok(Expression::Integer(value)),
            TokenKind::Str(contents) => Ok(Expression::StringLiteral(contents)),
            TokenKind::True => Ok(Expression::Boolean(true)),
            TokenKind::False => Ok(Expression::Boolean(false)),
            TokenKind::Bang => {
                self.next_token();
                let operand = self.parse_expression(Precedence::Prefix)?;
                Ok(Expression::Prefix(TokenKind::Bang, Box::new(operand)))
            },
            TokenKind::Minus => {
                self.next_token();
                let operand = self.parse_expression(Precedence::Prefix)?;
                Ok(Expression::Prefix(TokenKind::Minus, Box::new(operand)))
            },
            TokenKind::Lparen => {
                self.next_token();
                let inner = self.parse_expression(Precedence::Lowest)?;
                self.expect_peek(&TokenKind::Rparen)?;
                Ok(inner)
            },
            TokenKind::If => self.parse_if_expression(),
            TokenKind::Function => self.parse_function_literal(),
            _ => {
                proof {
                    assert(false);
                }
                Err(String::new())
            },
        }
    }

    /// Applies the infix handler for the binary operator at the current
    /// token: the operand to its right is parsed at the operator's own
    /// binding power, so a following operator of equal power falls to the
    /// enclosing loop and the tree associates to the left.
    fn parse_infix(&mut self, left: Expression) -> (r: Result<Expression, String>)
        requires
            old(self).wf(),
            has_infix_fn(old(self).cur()),
            !(old(self).cur() is Lparen),
        ensures
            final(self).wf(),
            final(self).toks() == old(self).toks(),
            final(self).pos >= old(self).pos,
            old(self).errs().is_prefix_of(final(self).errs()),
            r matches Ok(e) ==> (e matches Expression::Infix(l, op, _rhs) && *l == left && op@
                == old(self).cur()),
            sp_expr(old(self).views(), old(self).at() + 1, prec_of(old(self).cur())) matches
                SpExpr::Done(rv, p2) ==> (r matches Ok(e) && crate::ast::expr_view(e)
                == crate::ast::ExprView::Bin(
                Box::new(crate::ast::expr_view(left)),
                old(self).cur(),
                Box::new(rv),
            ) && final(self).at() == p2 && final(self).errs() == old(self).errs()),
        decreases old(self).toks().len() - old(self).at(), 2int,
    {
        let operator = self.tokens[self.pos].kind.clone();
        let precedence = self.current_precedence();
        proof {
            assert(!(self.cur() is Eof));
        }
        self.next_token();
        let right = self.parse_expression(precedence)?;
        Ok(Expression::Infix(Box::new(left), operator, Box::new(right)))
    }

    /// Parses `if (<condition>) { <consequence> }`, with an optional
    /// `else { <alternative> }`.
    fn parse_if_expression(&mut self) -> (r: Result<Expression, String>)
        requires
            old(self).wf(),
            old(self).cur() is If,
        ensures
            final(self).wf(),
            final(self).toks() == old(self).toks(),
            final(self).pos >= old(self).pos,
            old(self).errs().is_prefix_of(final(self).errs()),
            r matches Ok(e) ==> e is If,
            sp_if(old(self).views(), old(self).at()) matches SpExpr::Done(ev, p) ==> (
            r matches Ok(e) && crate::ast::expr_view(e) == ev && final(self).at() == p
                && final(self).errs() == old(self).errs()),
        decreases old(self).toks().len() - old(self).at(), 1int,
    {
        let ghost mi = sp_if(self.views(), self.at());
        proof {
            if mi is Done {
                self.lemma_view_at(self.at() + 1);
            }
        }
        self.expect_peek(&TokenKind::Lparen)?;
        proof {
            assert(!(self.cur() is Eof));
        }
        self.next_token();
        let condition = self.parse_expression(Precedence::Lowest)?;
        proof {
            if mi is Done {
                self.lemma_view_at(self.at() + 1);
            }
        }
        self.expect_peek(&TokenKind::Rparen)?;
        proof {
            if mi is Done {
                self.lemma_view_at(self.at() + 1);
            }
        }
        self.expect_peek(&TokenKind::Lbrace)?;
        let consequence = self.parse_block_statement();
        proof {
            if mi is Done {
                self.lemma_view_at(self.at());
                self.lemma_view_at(self.at() + 1);
            }
        }
        if self.peek_token_is(&TokenKind::Else) {
            proof {
                assert(!(self.cur() is Eof)) by {
                    let toks = self.tokens@;
                    let p = self.pos as int;
                    if toks[p]@ is Eof {
                        assert(toks[p + 1]@ is Eof);
                    }
                }
            }
            self.next_token();
            proof {
                if mi is Done {
                    self.lemma_view_at(self.at() + 1);
                }
            }
            self.expect_peek(&TokenKind::Lbrace)?;
            let alternative = self.parse_block_statement();
            Ok(Expression::If(Box::new(condition), consequence, Some(alternative)))
        } else {
            Ok(Expression::If(Box::new(condition), consequence, None))
        }
    }

    /// Parses `fn (<parameters>) { <body> }`.
    fn parse_function_literal(&mut self) -> (r: Result<Expression, String>)
        requires
            old(self).wf(),
            old(self).cur() is Function,
        ensures
            final(self).wf(),
            final(self).toks() == old(self).toks(),
            final(self).pos >= old(self).pos,
            old(self).errs().is_prefix_of(final(self).errs()),
            r matches Ok(e) ==> e is FunctionLiteral,
            sp_fnlit(old(self).views(), old(self).at()) matches SpExpr::Done(ev, p) ==> (
            r matches Ok(e) && crate::ast::expr_view(e) == ev && final(self).at() == p
                && final(self).errs() == old(self).errs()),
        decreases old(self).toks().len() - old(self).at(), 1int,
    {
        let ghost mf = sp_fnlit(self.views(), self.at());
        proof {
            if mf is Done {
                self.lemma_view_at(self.at() + 1);
            }
        }
        self.expect_peek(&TokenKind::Lparen)?;
        let parameters = self.parse_function_parameters()?;
        proof {
            if mf is Done {
                self.lemma_view_at(self.at() + 1);
            }
        }
        self.expect_peek(&TokenKind::Lbrace)?;
        let body = self.parse_block_statement();
        Ok(Expression::FunctionLiteral(parameters, body))
    }

    /// Parses the comma-separated parameter names between the parentheses
    /// of a function literal; each must be an identifier.
    fn parse_function_parameters(&mut self) -> (r: Result<Vec<Identifier>, String>)
        requires
            old(self).wf(),
            old(self).cur() is Lparen,
        ensures
            final(self).wf(),
            final(self).toks() == old(self).toks(),
            final(self).pos >= old(self).pos,
            old(self).errs() == final(self).errs(),
            sp_params(old(self).views(), old(self).at()) matches SpParams::Done(ns, p) ==> (
            r matches Ok(a) && a@.map_values(|q: Identifier| q.0@) == ns && final(self).at()
                == p),
        decreases old(self).toks().len() - old(self).at(), 0int,
    {
        let ghost mpar = sp_params(self.views(), self.at());
        let mut identifiers: Vec<Identifier> = Vec::new();
        proof {
            self.lemma_view_at(self.at() + 1);
            assert(identifiers@.map_values(|q: Identifier| q.0@) =~= Seq::<Seq<char>>::empty());
        }
        if self.peek_token_is(&TokenKind::Rparen) {
            proof {
                assert(!(self.cur() is Eof));
            }
            self.next_token();
            return Ok(identifiers);
        }
        proof {
            assert(!(self.cur() is Eof));
        }
        self.next_token();
        let kind = self.tokens[self.pos].kind.clone();
        match kind {
            TokenKind::Ident(name) => {
                proof {
                    if mpar is Done {
                        assert(identifiers@.push(Identifier(name)).map_values(
                            |q: Identifier| q.0@,
                        ) =~= Seq::<Seq<char>>::empty().push(name@));
                    }
                }
                identifiers.push(Identifier(name));
            },
            _ => {
                let mut m = String::from_str("expected an identifier, got ");
                m.append(self.tokens[self.pos].kind.literal().as_str());
                return Err(m);
            },
        }
        loop
            invariant
                self.wf(),
                self.toks() == old(self).toks(),
                self.errs() == old(self).errs(),
                self.pos >= old(self).pos,
                mpar == sp_params(old(self).views(), old(self).at()),
                mpar matches SpParams::Done(ns, p) ==> ({
                    &&& sp_params_rest(old(self).views(), self.at()) matches SpParams::Done(
                        rest,
                        pend2,
                    )
                    &&& pend2 == p
                    &&& identifiers@.map_values(|q: Identifier| q.0@) + rest == ns
                }),
            ensures
                self.wf(),
                self.toks() == old(self).toks(),
                self.errs() == old(self).errs(),
                self.pos >= old(self).pos,
                mpar matches SpParams::Done(ns, p) ==> ({
                    &&& self.peek() is Rparen
                    &&& p == self.at() + 1
                    &&& identifiers@.map_values(|q: Identifier| q.0@) == ns
                }),
            decreases self.toks().len() - self.at(),
        {
            proof {
                if mpar is Done {
                    self.lemma_view_at(self.at() + 1);
                }
            }
            if !self.peek_token_is(&TokenKind::Comma) {
                proof {
                    if mpar is Done {
                        assert(identifiers@.map_values(|q: Identifier| q.0@) + Seq::<
                            Seq<char>,
                        >::empty() =~= identifiers@.map_values(|q: Identifier| q.0@));
                    }
                }
                break;
            }
            proof {
                assert(!(self.cur() is Eof)) by {
                    let toks = self.tokens@;
                    let p = self.pos as int;
                    if toks[p]@ is Eof {
                        assert(toks[p + 1]@ is Eof);
                    }
                }
                if mpar is Done {
                    self.lemma_view_at(self.at() + 2);
                }
            }
            let ghost ids0 = identifiers@;
            self.next_token();
            proof {
                assert(!(self.cur() is Eof));
            }
            self.next_token();
            let kind = self.tokens[self.pos].kind.clone();
            match kind {
                TokenKind::Ident(name) => {
                    proof {
                        if mpar is Done {
                            assert(ids0.push(Identifier(name)).map_values(
                                |q: Identifier| q.0@,
                            ) =~= ids0.map_values(|q: Identifier| q.0@).push(name@));
                        }
                    }
                    identifiers.push(Identifier(name));
                },
                _ => {
                    let mut m = String::from_str("expected an identifier, got ");
                    m.append(self.tokens[self.pos].kind.literal().as_str());
                    return Err(m);
                },
            }
        }
        self.expect_peek(&TokenKind::Rparen)?;
        Ok(identifiers)
    }

    /// Parses a call: the callee has already been parsed; the current token
    /// is the opening parenthesis of the argument list.
    fn parse_call_expression(&mut self, callee: Expression) -> (r: Result<Expression, String>)
        requires
            old(self).wf(),
            old(self).cur() is Lparen,
        ensures
            final(self).wf(),
            final(self).toks() == old(self).toks(),
            final(self).pos >= old(self).pos,
            old(self).errs().is_prefix_of(final(self).errs()),
            r matches Ok(e) ==> (e matches Expression::Call(f, _args) && *f == callee),
            sp_args(old(self).views(), old(self).at()) matches SpArgs::Done(avs, pend) ==> (
            r matches Ok(e) && crate::ast::expr_view(e) == crate::ast::ExprView::CallOf(
                Box::new(crate::ast::expr_view(callee)),
                avs,
            ) && final(self).at() == pend && final(self).errs() == old(self).errs()),
        decreases old(self).toks().len() - old(self).at(), 1int,
    {
        let arguments = self.parse_call_arguments()?;
        Ok(Expression::Call(Box::new(callee), arguments))
    }

    /// Parses the comma-separated argument expressions between the
    /// parentheses of a call.
    fn parse_call_arguments(&mut self) -> (r: Result<Vec<Expression>, String>)
        requires
            old(self).wf(),
            old(self).cur() is Lparen,
        ensures
            final(self).wf(),
            final(self).toks() == old(self).toks(),
            final(self).pos >= old(self).pos,
            old(self).errs().is_prefix_of(final(self).errs()),
            sp_args(old(self).views(), old(self).at()) matches SpArgs::Done(avs, pend) ==> (
            r matches Ok(a) && crate::ast::exprs_view(a@) == avs && final(self).at() == pend
                && final(self).errs() == old(self).errs()),
        decreases old(self).toks().len() - old(self).at(), 0int,
    {
        let ghost ma = sp_args(self.views(), self.at());
        let mut arguments: Vec<Expression> = Vec::new();
        proof {
            self.lemma_view_at(self.at() + 1);
            assert(crate::ast::exprs_view(arguments@) =~= Seq::<crate::ast::ExprView>::empty());
        }
        if self.peek_token_is(&TokenKind::Rparen) {
            proof {
                assert(!(self.cur() is Eof));
            }
            self.next_token();
            return Ok(arguments);
        }
        proof {
            assert(!(self.cur() is Eof));
        }
        self.next_token();
        let first = self.parse_expression(Precedence::Lowest)?;
        proof {
            if ma is Done {
                crate::ast::lemma_exprs_view_push(arguments@, first);
            }
        }
        arguments.push(first);
        proof {
            if ma is Done {
                assert(crate::ast::exprs_view(arguments@) =~= Seq::<
                    crate::ast::ExprView,
                >::empty().push(crate::ast::expr_view(first)));
            }
        }
        loop
            invariant
                self.wf(),
                self.toks() == old(self).toks(),
                self.pos > old(self).pos,
                old(self).errs().is_prefix_of(self.errs()),
                ma == sp_args(old(self).views(), old(self).at()),
                ma matches SpArgs::Done(avs, pend) ==> ({
                    &&& self.errs() == old(self).errs()
                    &&& sp_args_rest(old(self).views(), self.at()) matches SpArgs::Done(
                        rest,
                        pend2,
                    )
                    &&& pend2 == pend
                    &&& crate::ast::exprs_view(arguments@) + rest == avs
                }),
            ensures
                self.wf(),
                self.toks() == old(self).toks(),
                self.pos >= old(self).pos,
                old(self).errs().is_prefix_of(self.errs()),
                ma matches SpArgs::Done(avs, pend) ==> ({
                    &&& self.errs() == old(self).errs()
                    &&& self.peek() is Rparen
                    &&& pend == self.at() + 1
                    &&& crate::ast::exprs_view(arguments@) == avs
                }),
            decreases self.toks().len() - self.at(),
        {
            proof {
                if ma is Done {
                    self.lemma_view_at(self.at() + 1);
                }
            }
            if !self.peek_token_is(&TokenKind::Comma) {
                proof {
                    if ma is Done {
                        assert(crate::ast::exprs_view(arguments@) + Seq::<
                            crate::ast::ExprView,
                        >::empty() =~= crate::ast::exprs_view(arguments@));
                    }
                }
                break;
            }
            proof {
                assert(!(self.cur() is Eof)) by {
                    let toks = self.tokens@;
                    let p = self.pos as int;
                    if toks[p]@ is Eof {
                        assert(toks[p + 1]@ is Eof);
                    }
                }
            }
            let ghost args0 = arguments@;
            self.next_token();
            proof {
                assert(!(self.cur() is Eof));
            }
            self.next_token();
            let next = self.parse_expression(Precedence::Lowest)?;
            proof {
                if ma is Done {
                    crate::ast::lemma_exprs_view_push(arguments@, next);
                }
            }
            arguments.push(next);
            proof {
                if ma is Done {
                    assert(crate::ast::exprs_view(arguments@) =~= crate::ast::exprs_view(args0)
                        + seq![crate::ast::expr_view(next)]);
                }
            }
        }
        self.expect_peek(&TokenKind::Rparen)?;
        Ok(arguments)
    }

    /// Parses the statements of a block up to the closing brace or
    /// end-of-input; a statement that fails to parse records its message
    /// and is skipped, as at the top level.
    fn parse_block_statement(&mut self) -> (b: BlockStatement)
        requires
            old(self).wf(),
            old(self).cur() is Lbrace,
        ensures
            final(self).wf(),
            final(self).toks() == old(self).toks(),
            final(self).pos > old(self).pos,
            old(self).errs().is_prefix_of(final(self).errs()),
            sp_block(old(self).views(), old(self).at()) matches SpBlock::Done(svs, p) ==> (
            crate::ast::stmts_view(b.statements@) == svs && final(self).at() == p
                && final(self).errs() == old(self).errs()),
        decreases old(self).toks().len() - old(self).at(), 0int,
    {
        let ghost mbk = sp_block(self.views(), self.at());
        let mut statements: Vec<Statement> = Vec::new();
        proof {
            assert(!(self.cur() is Eof));
            assert(crate::ast::stmts_view(statements@) =~= Seq::<crate::ast::StmtView>::empty());
        }
        self.next_token();
        loop
            invariant
                self.wf(),
                self.toks() == old(self).toks(),
                self.pos > old(self).pos,
                old(self).errs().is_prefix_of(self.errs()),
                mbk == sp_block(old(self).views(), old(self).at()),
                mbk matches SpBlock::Done(svs, p) ==> ({
                    &&& self.errs() == old(self).errs()
                    &&& sp_block_items(old(self).views(), self.at()) matches SpBlock::Done(
                        rest,
                        pend2,
                    )
                    &&& pend2 == p
                    &&& crate::ast::stmts_view(statements@) + rest == svs
                }),
            ensures
                self.wf(),
                self.toks() == old(self).toks(),
                self.pos > old(self).pos,
                old(self).errs().is_prefix_of(self.errs()),
                mbk matches SpBlock::Done(svs, p) ==> (self.errs() == old(self).errs()
                    && crate::ast::stmts_view(statements@) == svs && self.at() == p),
            decreases self.toks().len() - self.at(),
        {
            proof {
                if mbk is Done {
                    self.lemma_view_at(self.at());
                }
            }
            if self.current_token_is(&TokenKind::Rbrace) {
                proof {
                    if mbk is Done {
                        assert(crate::ast::stmts_view(statements@) + Seq::<
                            crate::ast::StmtView,
                        >::empty() =~= crate::ast::stmts_view(statements@));
                    }
                }
                break;
            }
            if self.current_token_is(&TokenKind::Eof) {
                break;
            }
            let ghost p0 = self.pos;
            let ghost stmts0 = statements@;
            let parsed = self.parser_statement();
            match parsed {
                Some(statement) => {
                    proof {
                        crate::ast::lemma_stmts_view_push(statements@, statement);
                    }
                    statements.push(statement);
                    proof {
                        assert(crate::ast::stmts_view(statements@)
                            =~= crate::ast::stmts_view(stmts0) + seq![
                            crate::ast::stmt_view(statement),
                        ]);
                    }
                },
                None => {},
            }
            proof {
                if mbk is Done {
                    // Under the model, the statement ended on a semicolon
                    // or another non-terminal token.
                    self.lemma_view_at(self.at());
                    assert(!(self.cur() is Eof));
                }
            }
            self.next_token();
            proof {
                assert(self.pos > p0);
                if mbk is Done {
                    assert(sp_block_items(old(self).views(), self.at()) is Done);
                }
            }
        }
        BlockStatement { statements }
    }
}

} // verus!
