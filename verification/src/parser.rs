use vstd::prelude::*;
use crate::span::CodeSpan;
use crate::token::{Operator, Token, TokenKind};
use crate::ast::{
    Expr,
    ExprKind,
    Stmt,
    StmtKind,
    IfThenExpr,
    ElseExpr,
    SpecExpr,
    SpecExprKind,
    SpecStmt,
    SpecStmtKind,
    SpecIfThen,
    SpecElse,
    view_expr,
    view_stmt,
    view_stmts,
    view_exprs,
    view_if_then,
    view_if_thens,
    view_else_opt,
    is_evalable,
    lemma_view_stmts,
    lemma_view_exprs,
    lemma_view_if_thens,
    lemma_view_stmts_push,
    lemma_view_exprs_push,
    lemma_view_if_thens_push,
    lemma_view_stmts_prepend,
};
use crate::source::SourceSequence;
use crate::lexer::{Lexer, lex_from, ok_tokens, err_spans, collect_tokens, lemma_lex_tokens_wf};
use crate::grammar::{
    ParseError,
    tokens_wf,
    step,
    level_op,
    has_underscore,
    rank_below,
    rank_binop,
    sp_skips,
    sp_semi,
    sp_lit,
    sp_ident_expr,
    sp_parented,
    sp_block_rest,
    sp_block,
    sp_if_then,
    sp_if_rest,
    sp_if_expr,
    sp_primary,
    sp_args_rest,
    sp_args,
    sp_call,
    sp_unary,
    sp_below,
    sp_binop_rest,
    sp_binop,
    sp_expr,
    sp_empty,
    sp_break_continue,
    sp_assign,
    sp_return,
    sp_for,
    sp_def,
    sp_extern,
    sp_stmt,
    sp_ast,
    sp_parse_ast,
    lemma_parse_ast_wf,
};

verus! {

// ===================================================================
// The executable parser
// ===================================================================
/// The result of an executable expression parser matches its grammar
/// function: same outcome, same continuation, and the parsed tree has the
/// model the grammar assigns.
pub open spec fn expr_step(
    r: Result<(Expr, usize, CodeSpan), ParseError>,
    s: Result<(SpecExpr, int, CodeSpan), ParseError>,
) -> bool {
    match (r, s) {
        (Ok(a), Ok(b)) => view_expr(a.0) == b.0 && a.1 as int == b.1 && a.2 == b.2,
        (Err(e1), Err(e2)) => e1 == e2,
        _ => false,
    }
}

/// As [`expr_step`], for statement parsers.
pub open spec fn stmt_step(
    r: Result<(Stmt, usize, CodeSpan), ParseError>,
    s: Result<(SpecStmt, int, CodeSpan), ParseError>,
) -> bool {
    match (r, s) {
        (Ok(a), Ok(b)) => view_stmt(a.0) == b.0 && a.1 as int == b.1 && a.2 == b.2,
        (Err(e1), Err(e2)) => e1 == e2,
        _ => false,
    }
}

/// As [`expr_step`], for the conditional-clause parser.
pub open spec fn if_then_step(
    r: Result<(IfThenExpr, usize, CodeSpan), ParseError>,
    s: Result<(SpecIfThen, int, CodeSpan), ParseError>,
) -> bool {
    match (r, s) {
        (Ok(a), Ok(b)) => view_if_then(a.0) == b.0 && a.1 as int == b.1 && a.2 == b.2,
        (Err(e1), Err(e2)) => e1 == e2,
        _ => false,
    }
}

/// As [`expr_step`], for the argument-list parser.
pub open spec fn args_step(
    r: Result<((Vec<Expr>, CodeSpan), usize, CodeSpan), ParseError>,
    s: Result<((Seq<SpecExpr>, CodeSpan), int, CodeSpan), ParseError>,
) -> bool {
    match (r, s) {
        (Ok(a), Ok(b)) => view_exprs(a.0.0@) == b.0.0 && a.0.1 == b.0.1 && a.1 as int == b.1 && a.2
            == b.2,
        (Err(e1), Err(e2)) => e1 == e2,
        _ => false,
    }
}

/// Skip to the next significant token.
pub(crate) fn parse_skips(toks: &Vec<Token>, pos: usize, last: CodeSpan) -> (r: Result<
    (Token, usize, CodeSpan),
    ParseError,
>)
    requires
        pos <= toks@.len(),
    ensures
        match (r, sp_skips(toks@, pos as int, last)) {
            (Ok(a), Ok(b)) => a.0 == b.0 && a.1 as int == b.1 && a.2 == b.2,
            (Err(e1), Err(e2)) => e1 == e2,
            _ => false,
        },
        r matches Ok(a) ==> pos < a.1 <= toks@.len() && a.0 == toks@[a.1 - 1] && a.2 == a.0.span,
{
    let ghost t = toks@;
    let mut i = pos;
    let mut l = last;
    loop
        invariant
            pos <= i <= t.len(),
            toks@ == t,
            sp_skips(t, pos as int, last) == sp_skips(t, i as int, l),
        decreases t.len() - i,
    {
        if i >= toks.len() {
            return Err(ParseError::UnexpectedEnd(l));
        }
        let tok = toks[i];
        if !tok.kind.skippable() {
            return Ok((tok, i + 1, tok.span));
        }
        l = tok.span;
        i = i + 1;
    }
}

/// Consume one optional trailing semicolon.
pub(crate) fn parse_semi(toks: &Vec<Token>, pos: usize, last: CodeSpan) -> (r: (usize, CodeSpan))
    requires
        pos <= toks@.len(),
    ensures
        r.0 as int == sp_semi(toks@, pos as int, last).0,
        r.1 == sp_semi(toks@, pos as int, last).1,
        pos <= r.0 <= toks@.len(),
{
    match parse_skips(toks, pos, last) {
        Ok((t, p, l)) => {
            if matches!(t.kind, TokenKind::Semicolon) {
                (p, l)
            } else {
                (pos, last)
            }
        },
        Err(_) => (pos, last),
    }
}

/// Whether `src[a..b]` contains an underscore.
pub(crate) fn scan_underscore(src: &Vec<u8>, a: usize, b: usize) -> (r: bool)
    requires
        a <= b <= src@.len(),
    ensures
        r == has_underscore(src@, a as int, b as int),
{
    let mut k = a;
    while k < b
        invariant
            a <= k <= b <= src@.len(),
            forall|j: int| a <= j < k ==> src@[j] != 0x5f,
        decreases b - k,
    {
        if src[k] == 0x5f {
            return true;
        }
        k = k + 1;
    }
    false
}

/// The operator denoted by a token at a binary-precedence level.
pub(crate) fn level_op_of(level: usize, kind: TokenKind) -> (r: Option<Operator>)
    ensures
        r == level_op(level as int, kind),
{
    if level == 7 {
        match kind {
            TokenKind::And => Some(Operator::And),
            TokenKind::Or => Some(Operator::Or),
            _ => None,
        }
    } else if level == 6 {
        match kind {
            TokenKind::Eq => Some(Operator::Eq),
            TokenKind::Ne => Some(Operator::Ne),
            TokenKind::Lt => Some(Operator::Lt),
            TokenKind::Le => Some(Operator::Le),
            TokenKind::Gt => Some(Operator::Gt),
            TokenKind::Ge => Some(Operator::Ge),
            _ => None,
        }
    } else if level == 5 {
        match kind {
            TokenKind::Add => Some(Operator::Add),
            TokenKind::Sub => Some(Operator::Sub),
            _ => None,
        }
    } else if level == 4 {
        match kind {
            TokenKind::Mul => Some(Operator::Mul),
            TokenKind::Div => Some(Operator::Div),
            _ => None,
        }
    } else {
        None
    }
}

/// Numeric literal.
pub(crate) fn parse_lit(src: &Vec<u8>, toks: &Vec<Token>, pos: usize, last: CodeSpan) -> (r: Result<
    (Expr, usize, CodeSpan),
    ParseError,
>)
    requires
        pos <= toks@.len(),
        tokens_wf(toks@, src@.len() as int),
    ensures
        expr_step(r, sp_lit(src@, toks@, pos as int, last)),
        r matches Ok(a) ==> pos < a.1 <= toks@.len(),
{
    proof {
        reveal(tokens_wf);
        reveal(sp_lit);
    }
    match parse_skips(toks, pos, last) {
        Ok((t, p, l)) => {
            if !matches!(t.kind, TokenKind::Number) {
                Err(ParseError::UnexpectedToken(t))
            } else {
                if scan_underscore(src, t.span.start, t.span.end) {
                    Err(ParseError::FloatError(t))
                } else {
                    Ok((Expr { kind: ExprKind::Lit, span: t.span }, p, t.span))
                }
            }
        },
        Err(e) => Err(e),
    }
}

/// Bare identifier reference.
pub(crate) fn parse_ident_expr(toks: &Vec<Token>, pos: usize, last: CodeSpan) -> (r: Result<
    (Expr, usize, CodeSpan),
    ParseError,
>)
    requires
        pos <= toks@.len(),
    ensures
        expr_step(r, sp_ident_expr(toks@, pos as int, last)),
        r matches Ok(a) ==> pos < a.1 <= toks@.len(),
{
    proof {
        reveal(sp_ident_expr);
    }
    match parse_skips(toks, pos, last) {
        Ok((t, p, l)) => {
            if !matches!(t.kind, TokenKind::Ident) {
                Err(ParseError::UnexpectedToken(t))
            } else {
                Ok((Expr { kind: ExprKind::Ident, span: t.span }, p, t.span))
            }
        },
        Err(e) => Err(e),
    }
}

/// Expression entry point.
#[verifier::rlimit(100)]
#[verifier::spinoff_prover]
pub(crate) fn parse_expr(src: &Vec<u8>, toks: &Vec<Token>, pos: usize, last: CodeSpan) -> (r: Result<
    (Expr, usize, CodeSpan),
    ParseError,
>)
    requires
        pos <= toks@.len(),
        tokens_wf(toks@, src@.len() as int),
    ensures
        expr_step(r, sp_expr(src@, toks@, pos as int, last)),
        r matches Ok(a) ==> pos < a.1 <= toks@.len(),
    decreases toks@.len() - pos, 30int,
{
    proof {
        reveal_with_fuel(sp_expr, 1);
    }
    parse_binop(src, toks, 7, pos, last)
}

/// The next-tighter parser below a binary-precedence level.
#[verifier::rlimit(100)]
#[verifier::spinoff_prover]
pub(crate) fn parse_below(src: &Vec<u8>, toks: &Vec<Token>, level: usize, pos: usize, last: CodeSpan) -> (r:
    Result<(Expr, usize, CodeSpan), ParseError>)
    requires
        pos <= toks@.len(),
        tokens_wf(toks@, src@.len() as int),
    ensures
        expr_step(r, sp_below(src@, toks@, level as int, pos as int, last)),
        r matches Ok(a) ==> pos < a.1 <= toks@.len(),
    decreases toks@.len() - pos, rank_below(level as int),
{
    proof {
        reveal_with_fuel(sp_below, 1);
    }
    if level == 7 {
        parse_binop(src, toks, 6, pos, last)
    } else if level == 6 {
        parse_binop(src, toks, 5, pos, last)
    } else if level == 5 {
        parse_binop(src, toks, 4, pos, last)
    } else {
        parse_unary(src, toks, pos, last)
    }
}

/// One binary-precedence level: a left-associative chain of operations.
#[verifier::rlimit(100)]
#[verifier::spinoff_prover]
pub(crate) fn parse_binop(src: &Vec<u8>, toks: &Vec<Token>, level: usize, pos: usize, last: CodeSpan) -> (r:
    Result<(Expr, usize, CodeSpan), ParseError>)
    requires
        pos <= toks@.len(),
        tokens_wf(toks@, src@.len() as int),
    ensures
        expr_step(r, sp_binop(src@, toks@, level as int, pos as int, last)),
        r matches Ok(a) ==> pos < a.1 <= toks@.len(),
    decreases toks@.len() - pos, rank_binop(level as int),
{
    proof {
        reveal_with_fuel(sp_binop, 1);
        reveal_with_fuel(sp_binop_rest, 1);
    }
    match parse_below(src, toks, level, pos, last) {
        Err(e) => Err(e),
        Ok((left0, p0, l0)) => {
            proof {
                assert(step(toks@, pos as int, p0 as int) == p0 as int);
            }
            let mut left = left0;
            let mut cur = p0;
            let mut lastc = l0;
            loop
                invariant
                    pos < cur <= toks@.len(),
                    tokens_wf(toks@, src@.len() as int),
                    sp_binop(src@, toks@, level as int, pos as int, last) == sp_binop_rest(
                        src@,
                        toks@,
                        level as int,
                        view_expr(left),
                        cur as int,
                        lastc,
                    ),
                decreases toks@.len() - cur,
            {
                proof {
                    reveal_with_fuel(sp_binop_rest, 1);
                }
                match parse_skips(toks, cur, lastc) {
                    Err(_) => {
                        return Ok((left, cur, lastc));
                    },
                    Ok((opt, p_op, l_op)) => {
                        match level_op_of(level, opt.kind) {
                            None => {
                                return Ok((left, cur, lastc));
                            },
                            Some(op) => {
                                proof {
                                    assert(step(toks@, cur as int, p_op as int) == p_op as int);
                                }
                                match parse_below(src, toks, level, p_op, opt.span) {
                                    Err(e) => {
                                        return Err(e);
                                    },
                                    Ok((right, p_r, l_r)) => {
                                        let newspan = left.span.merge(right.span);
                                        let ghost vleft = view_expr(left);
                                        let ghost vright = view_expr(right);
                                        let combined = Expr {
                                            kind: ExprKind::BinOp {
                                                op,
                                                op_span: opt.span,
                                                left: Box::new(left),
                                                right: Box::new(right),
                                            },
                                            span: newspan,
                                        };
                                        proof {
                                            assert(view_expr(combined) == SpecExpr {
                                                kind: SpecExprKind::BinOp {
                                                    op,
                                                    op_span: opt.span,
                                                    left: Box::new(vleft),
                                                    right: Box::new(vright),
                                                },
                                                span: newspan,
                                            });
                                            assert(step(toks@, cur as int, p_r as int)
                                                == p_r as int);
                                        }
                                        left = combined;
                                        cur = p_r;
                                        lastc = l_r;
                                    },
                                }
                            },
                        }
                    },
                }
            }
        },
    }
}

/// Unary operation, or fallthrough to a call.
#[verifier::rlimit(100)]
#[verifier::spinoff_prover]
pub(crate) fn parse_unary(src: &Vec<u8>, toks: &Vec<Token>, pos: usize, last: CodeSpan) -> (r: Result<
    (Expr, usize, CodeSpan),
    ParseError,
>)
    requires
        pos <= toks@.len(),
        tokens_wf(toks@, src@.len() as int),
    ensures
        expr_step(r, sp_unary(src@, toks@, pos as int, last)),
        r matches Ok(a) ==> pos < a.1 <= toks@.len(),
    decreases toks@.len() - pos, 12int,
{
    proof {
        reveal_with_fuel(sp_unary, 1);
    }
    match parse_skips(toks, pos, last) {
        Ok((t, p, l)) => {
            if !matches!(t.kind, TokenKind::Not | TokenKind::Sub) {
                parse_call(src, toks, pos, last)
            } else {
                proof {
                    assert(step(toks@, pos as int, p as int) == p as int);
                }
                match parse_call(src, toks, p, t.span) {
                    Ok((arg, p1, l1)) => {
                        let ghost varg = view_expr(arg);
                        let op = if matches!(t.kind, TokenKind::Not) {
                            Operator::Not
                        } else {
                            Operator::Sub
                        };
                        let span = t.span.merge(arg.span);
                        let result = Expr {
                            kind: ExprKind::UnOp { op, op_span: t.span, arg: Box::new(arg) },
                            span,
                        };
                        proof {
                            assert(view_expr(result) == SpecExpr {
                                kind: SpecExprKind::UnOp {
                                    op,
                                    op_span: t.span,
                                    arg: Box::new(varg),
                                },
                                span,
                            });
                        }
                        Ok((result, p1, l1))
                    },
                    Err(e) => Err(e),
                }
            }
        },
        Err(e) => Err(e),
    }
}

/// Call, or fallback to a primary expression.
#[verifier::rlimit(100)]
#[verifier::spinoff_prover]
pub(crate) fn parse_call(src: &Vec<u8>, toks: &Vec<Token>, pos: usize, last: CodeSpan) -> (r: Result<
    (Expr, usize, CodeSpan),
    ParseError,
>)
    requires
        pos <= toks@.len(),
        tokens_wf(toks@, src@.len() as int),
    ensures
        expr_step(r, sp_call(src@, toks@, pos as int, last)),
        r matches Ok(a) ==> pos < a.1 <= toks@.len(),
    decreases toks@.len() - pos, 11int,
{
    proof {
        reveal_with_fuel(sp_call, 1);
    }
    match parse_skips(toks, pos, last) {
        Ok((t, p, l)) => {
            if !matches!(t.kind, TokenKind::Ident) {
                parse_primary(src, toks, pos, last)
            } else if parse_skips(toks, p, t.span).is_err() {
                // at the end of the tokens no argument list can open
                parse_primary(src, toks, pos, last)
            } else {
                proof {
                    assert(step(toks@, pos as int, p as int) == p as int);
                }
                match parse_args(src, toks, p, t.span) {
                    Ok(((args, args_span), p1, l1)) => {
                        let ghost vargs = view_exprs(args@);
                        let span = t.span.merge(args_span);
                        let callee = Expr { kind: ExprKind::Ident, span: t.span };
                        proof {
                            assert(view_expr(callee) == SpecExpr {
                                kind: SpecExprKind::Ident,
                                span: t.span,
                            });
                        }
                        let result = Expr {
                            kind: ExprKind::Call { callee: Box::new(callee), args, args_span },
                            span,
                        };
                        proof {
                            assert(view_expr(result) == SpecExpr {
                                kind: SpecExprKind::Call {
                                    callee: Box::new(
                                        SpecExpr { kind: SpecExprKind::Ident, span: t.span },
                                    ),
                                    args: vargs,
                                    args_span,
                                },
                                span,
                            });
                        }
                        Ok((result, p1, l1))
                    },
                    Err(e) => {
                        if matches!(e, ParseError::ArgsNonBegin(_)) {
                            parse_primary(src, toks, pos, last)
                        } else {
                            Err(e)
                        }
                    },
                }
            }
        },
        Err(e) => Err(e),
    }
}

/// Argument expressions after the opening parenthesis.
#[verifier::rlimit(100)]
#[verifier::spinoff_prover]
pub(crate) fn parse_args_rest(
    src: &Vec<u8>,
    toks: &Vec<Token>,
    args: Vec<Expr>,
    cur: usize,
    last: CodeSpan,
) -> (r: Result<(Vec<Expr>, usize, CodeSpan, bool), ParseError>)
    requires
        cur <= toks@.len(),
        tokens_wf(toks@, src@.len() as int),
    ensures
        match (r, sp_args_rest(src@, toks@, view_exprs(args@), cur as int, last)) {
            (Ok(a), Ok(b)) => view_exprs(a.0@) == b.0 && a.1 as int == b.1 && a.2 == b.2 && a.3
                == b.3,
            (Err(e1), Err(e2)) => e1 == e2,
            _ => false,
        },
        r matches Ok(a) ==> cur <= a.1 <= toks@.len(),
    decreases toks@.len() - cur, 31int,
{
    proof {
        reveal_with_fuel(sp_args_rest, 1);
    }
    if cur >= toks.len() {
        return Ok((args, cur, last, false));
    }
    let mut args = args;
    match parse_expr(src, toks, cur, last) {
        Err(_) => Ok((args, cur, last, false)),
        Ok((arg, p1, l1)) => {
            match parse_skips(toks, p1, l1) {
                Err(e) => Err(e),
                Ok((c, p2, l2)) => {
                    proof {
                        lemma_view_exprs_push(args@, arg);
                    }
                    if matches!(c.kind, TokenKind::Comma) {
                        proof {
                            assert(step(toks@, cur as int, p2 as int) == p2 as int);
                        }
                        args.push(arg);
                        parse_args_rest(src, toks, args, p2, l2)
                    } else {
                        args.push(arg);
                        Ok((args, p1, l1, true))
                    }
                },
            }
        },
    }
}

/// Parenthesized, comma-separated argument list.
#[verifier::rlimit(100)]
#[verifier::spinoff_prover]
pub(crate) fn parse_args(src: &Vec<u8>, toks: &Vec<Token>, pos: usize, last: CodeSpan) -> (r: Result<
    ((Vec<Expr>, CodeSpan), usize, CodeSpan),
    ParseError,
>)
    requires
        pos <= toks@.len(),
        tokens_wf(toks@, src@.len() as int),
    ensures
        args_step(r, sp_args(src@, toks@, pos as int, last)),
        r matches Ok(a) ==> pos < a.1 <= toks@.len(),
    decreases toks@.len() - pos, 7int,
{
    proof {
        reveal_with_fuel(sp_args, 1);
    }
    match parse_skips(toks, pos, last) {
        Ok((t, p, l)) => {
            if !matches!(t.kind, TokenKind::OpenParen) {
                return Err(ParseError::ArgsNonBegin(t.span));
            }
            let start: Vec<Expr> = Vec::new();
            proof {
                assert(step(toks@, pos as int, p as int) == p as int);
                lemma_view_exprs(start@);
                assert(view_exprs(start@) =~= Seq::<SpecExpr>::empty());
            }
            match parse_args_rest(src, toks, start, p, t.span) {
                Err(e) => Err(e),
                Ok((args, p1, l1, flag)) => {
                    match parse_skips(toks, p1, l1) {
                        Ok((c, p2, l2)) => {
                            if matches!(c.kind, TokenKind::CloseParen) {
                                Ok(((args, t.span.merge(c.span)), p2, c.span))
                            } else if flag {
                                Err(ParseError::ArgsCommaError(c.span))
                            } else {
                                Err(ParseError::ArgsNonEnd(c.span))
                            }
                        },
                        Err(e) => Err(e),
                    }
                },
            }
        },
        Err(e) => Err(e),
    }
}

/// Primary expression dispatch.
#[verifier::rlimit(100)]
#[verifier::spinoff_prover]
pub(crate) fn parse_primary(src: &Vec<u8>, toks: &Vec<Token>, pos: usize, last: CodeSpan) -> (r: Result<
    (Expr, usize, CodeSpan),
    ParseError,
>)
    requires
        pos <= toks@.len(),
        tokens_wf(toks@, src@.len() as int),
    ensures
        expr_step(r, sp_primary(src@, toks@, pos as int, last)),
        r matches Ok(a) ==> pos < a.1 <= toks@.len(),
    decreases toks@.len() - pos, 10int,
{
    proof {
        reveal_with_fuel(sp_primary, 1);
    }
    let r1 = parse_block(src, toks, pos, last);
    if !matches!(r1, Err(ParseError::UnexpectedToken(_))) {
        return r1;
    }
    let r2 = parse_parented(src, toks, pos, last);
    if !matches!(r2, Err(ParseError::UnexpectedToken(_))) {
        return r2;
    }
    let r3 = parse_if_expr(src, toks, pos, last);
    if !matches!(r3, Err(ParseError::UnexpectedToken(_))) {
        return r3;
    }
    let r4 = parse_lit(src, toks, pos, last);
    if !matches!(r4, Err(ParseError::UnexpectedToken(_))) {
        return r4;
    }
    let r5 = parse_ident_expr(toks, pos, last);
    if !matches!(r5, Err(ParseError::UnexpectedToken(_))) {
        return r5;
    }
    Err(ParseError::UnexpectedEnd(last))
}

/// Parenthesized sub-expression.
#[verifier::rlimit(100)]
#[verifier::spinoff_prover]
pub(crate) fn parse_parented(src: &Vec<u8>, toks: &Vec<Token>, pos: usize, last: CodeSpan) -> (r: Result<
    (Expr, usize, CodeSpan),
    ParseError,
>)
    requires
        pos <= toks@.len(),
        tokens_wf(toks@, src@.len() as int),
    ensures
        expr_step(r, sp_parented(src@, toks@, pos as int, last)),
        r matches Ok(a) ==> pos < a.1 <= toks@.len(),
    decreases toks@.len() - pos, 9int,
{
    proof {
        reveal_with_fuel(sp_parented, 1);
    }
    match parse_skips(toks, pos, last) {
        Ok((t, p, l)) => {
            if !matches!(t.kind, TokenKind::OpenParen) {
                return Err(ParseError::UnexpectedToken(t));
            }
            proof {
                assert(step(toks@, pos as int, p as int) == p as int);
            }
            match parse_expr(src, toks, p, t.span) {
                Ok((inner, p1, l1)) => {
                    match parse_skips(toks, p1, l1) {
                        Ok((c, p2, l2)) => {
                            if !matches!(c.kind, TokenKind::CloseParen) {
                                Err(ParseError::UnexpectedToken(c))
                            } else {
                                let ghost vinner = view_expr(inner);
                                let span = t.span.merge(c.span);
                                let result = Expr {
                                    kind: ExprKind::Parented(Box::new(inner)),
                                    span,
                                };
                                proof {
                                    assert(view_expr(result) == SpecExpr {
                                        kind: SpecExprKind::Parented(Box::new(vinner)),
                                        span,
                                    });
                                }
                                Ok((result, p2, c.span))
                            }
                        },
                        Err(e) => Err(e),
                    }
                },
                Err(e) => Err(e),
            }
        },
        Err(e) => Err(e),
    }
}

/// Statement list of a block.
#[verifier::rlimit(100)]
#[verifier::spinoff_prover]
pub(crate) fn parse_block_rest(
    src: &Vec<u8>,
    toks: &Vec<Token>,
    stmts: Vec<Stmt>,
    cur: usize,
    last: CodeSpan,
) -> (r: Result<(Vec<Stmt>, usize, CodeSpan), ParseError>)
    requires
        cur <= toks@.len(),
        tokens_wf(toks@, src@.len() as int),
    ensures
        match (r, sp_block_rest(src@, toks@, view_stmts(stmts@), cur as int, last)) {
            (Ok(a), Ok(b)) => view_stmts(a.0@) == b.0 && a.1 as int == b.1 && a.2 == b.2,
            (Err(e1), Err(e2)) => e1 == e2,
            _ => false,
        },
        r matches Ok(a) ==> cur <= a.1 <= toks@.len(),
    decreases toks@.len() - cur, 39int,
{
    proof {
        reveal_with_fuel(sp_block_rest, 1);
    }
    if cur >= toks.len() {
        return Ok((stmts, cur, last));
    }
    let mut stmts = stmts;
    match parse_stmt(src, toks, cur, last) {
        Err(e) => {
            if matches!(e, ParseError::UnexpectedToken(_) | ParseError::UnexpectedEnd(_)) {
                Ok((stmts, cur, last))
            } else {
                Err(e)
            }
        },
        Ok((st, p1, l1)) => {
            proof {
                lemma_view_stmts_push(stmts@, st);
                assert(step(toks@, cur as int, p1 as int) == p1 as int);
            }
            stmts.push(st);
            parse_block_rest(src, toks, stmts, p1, l1)
        },
    }
}

/// Braced block expression.
#[verifier::rlimit(100)]
#[verifier::spinoff_prover]
pub(crate) fn parse_block(src: &Vec<u8>, toks: &Vec<Token>, pos: usize, last: CodeSpan) -> (r: Result<
    (Expr, usize, CodeSpan),
    ParseError,
>)
    requires
        pos <= toks@.len(),
        tokens_wf(toks@, src@.len() as int),
    ensures
        expr_step(r, sp_block(src@, toks@, pos as int, last)),
        r matches Ok(a) ==> pos < a.1 <= toks@.len(),
    decreases toks@.len() - pos, 9int,
{
    proof {
        reveal_with_fuel(sp_block, 1);
    }
    match parse_skips(toks, pos, last) {
        Ok((t, p, l)) => {
            if !matches!(t.kind, TokenKind::OpenBrace) {
                return Err(ParseError::UnexpectedToken(t));
            }
            let start: Vec<Stmt> = Vec::new();
            proof {
                assert(step(toks@, pos as int, p as int) == p as int);
                lemma_view_stmts(start@);
                assert(view_stmts(start@) =~= Seq::<SpecStmt>::empty());
            }
            match parse_block_rest(src, toks, start, p, t.span) {
                Err(e) => Err(e),
                Ok((stmts, p1, l1)) => match parse_skips(toks, p1, l1) {
                    Ok((c, p2, l2)) => {
                        if !matches!(c.kind, TokenKind::CloseBrace) {
                            Err(ParseError::UnexpectedToken(c))
                        } else {
                            let ghost vstmts = view_stmts(stmts@);
                            let span = t.span.merge(c.span);
                            let result = Expr { kind: ExprKind::Block(stmts), span };
                            proof {
                                assert(view_expr(result) == SpecExpr {
                                    kind: SpecExprKind::Block(vstmts),
                                    span,
                                });
                            }
                            Ok((result, p2, c.span))
                        }
                    },
                    Err(e) => Err(e),
                },
            }
        },
        Err(e) => Err(e),
    }
}

/// One `if cond then expr` clause, after its `if` token.
#[verifier::rlimit(100)]
#[verifier::spinoff_prover]
pub(crate) fn parse_if_then(
    src: &Vec<u8>,
    toks: &Vec<Token>,
    if_token: Token,
    pos: usize,
    last: CodeSpan,
) -> (r: Result<(IfThenExpr, usize, CodeSpan), ParseError>)
    requires
        pos <= toks@.len(),
        tokens_wf(toks@, src@.len() as int),
    ensures
        if_then_step(r, sp_if_then(src@, toks@, if_token, pos as int, last)),
        r matches Ok(a) ==> pos < a.1 <= toks@.len(),
    decreases toks@.len() - pos, 32int,
{
    proof {
        reveal_with_fuel(sp_if_then, 1);
    }
    match parse_expr(src, toks, pos, last) {
        Ok((cond, p1, l1)) => {
            match parse_skips(toks, p1, l1) {
                Ok((tt, p2, l2)) => {
                    if !matches!(tt.kind, TokenKind::Then) {
                        return Err(ParseError::ThenTokenError(tt));
                    }
                    proof {
                        assert(step(toks@, pos as int, p2 as int) == p2 as int);
                    }
                    match parse_expr(src, toks, p2, tt.span) {
                        Ok((th, p3, l3)) => {
                            let ghost vcond = view_expr(cond);
                            let ghost vth = view_expr(th);
                            let span = if_token.span.merge(th.span);
                            let result = IfThenExpr { cond, then_expr: th, span };
                            proof {
                                assert(view_if_then(result) == SpecIfThen {
                                    cond: Box::new(vcond),
                                    then_expr: Box::new(vth),
                                    span,
                                });
                            }
                            Ok((result, p3, l3))
                        },
                        Err(e) => Err(ParseError::ThenExprError(Box::new(e))),
                    }
                },
                Err(e) => Err(e),
            }
        },
        Err(e) => Err(ParseError::CondExprError(Box::new(e))),
    }
}

/// `else if` clauses and the optional terminal else branch.
#[verifier::rlimit(100)]
#[verifier::spinoff_prover]
pub(crate) fn parse_if_rest(
    src: &Vec<u8>,
    toks: &Vec<Token>,
    chain: Vec<IfThenExpr>,
    cur: usize,
    last: CodeSpan,
) -> (r: Result<(Vec<IfThenExpr>, Option<Box<ElseExpr>>, usize, CodeSpan), ParseError>)
    requires
        cur <= toks@.len(),
        tokens_wf(toks@, src@.len() as int),
    ensures
        match (r, sp_if_rest(src@, toks@, view_if_thens(chain@), cur as int, last)) {
            (Ok(a), Ok(b)) => view_if_thens(a.0@) == b.0 && view_else_opt(a.1) == b.1 && a.2 as int
                == b.2 && a.3 == b.3,
            (Err(e1), Err(e2)) => e1 == e2,
            _ => false,
        },
        r matches Ok(a) ==> cur <= a.2 <= toks@.len() && a.0@.len() >= chain@.len(),
    decreases toks@.len() - cur, 8int,
{
    proof {
        reveal_with_fuel(sp_if_rest, 1);
    }
    let mut chain = chain;
    match parse_skips(toks, cur, last) {
        Err(_) => Ok((chain, None, cur, last)),
        Ok((et, pe, le)) => {
            if !matches!(et.kind, TokenKind::Else) {
                return Ok((chain, None, cur, last));
            }
            match parse_skips(toks, pe, le) {
                Err(e) => Err(e),
                Ok((eit, pei, lei)) => {
                    if !matches!(eit.kind, TokenKind::If) {
                        proof {
                            assert(step(toks@, cur as int, pe as int) == pe as int);
                        }
                        match parse_expr(src, toks, pe, le) {
                            Err(e) => Err(e),
                            Ok((ex, px, lx)) => {
                                let espan = le.merge(ex.span);
                                let ghost vex = view_expr(ex);
                                let eb = Some(Box::new(ElseExpr { expr: ex, span: espan }));
                                proof {
                                    assert(view_else_opt(eb) == Some(
                                        Box::new(
                                            SpecElse { expr: Box::new(vex), span: espan },
                                        ),
                                    ));
                                }
                                Ok((chain, eb, px, lx))
                            },
                        }
                    } else {
                        proof {
                            assert(step(toks@, cur as int, pei as int) == pei as int);
                        }
                        match parse_if_then(src, toks, eit, pei, eit.span) {
                            Err(e) => Err(e),
                            Ok((it, p2, l2)) => {
                                proof {
                                    lemma_view_if_thens_push(chain@, it);
                                    assert(step(toks@, cur as int, p2 as int) == p2 as int);
                                }
                                chain.push(it);
                                parse_if_rest(src, toks, chain, p2, l2)
                            },
                        }
                    }
                },
            }
        },
    }
}

/// Conditional chain expression.
#[verifier::rlimit(100)]
#[verifier::spinoff_prover]
pub(crate) fn parse_if_expr(src: &Vec<u8>, toks: &Vec<Token>, pos: usize, last: CodeSpan) -> (r: Result<
    (Expr, usize, CodeSpan),
    ParseError,
>)
    requires
        pos <= toks@.len(),
        tokens_wf(toks@, src@.len() as int),
    ensures
        expr_step(r, sp_if_expr(src@, toks@, pos as int, last)),
        r matches Ok(a) ==> pos < a.1 <= toks@.len(),
    decreases toks@.len() - pos, 9int,
{
    proof {
        reveal_with_fuel(sp_if_expr, 1);
    }
    match parse_skips(toks, pos, last) {
        Ok((ift, p, l)) => {
            if !matches!(ift.kind, TokenKind::If) {
                return Err(ParseError::UnexpectedToken(ift));
            }
            proof {
                assert(step(toks@, pos as int, p as int) == p as int);
            }
            match parse_if_then(src, toks, ift, p, ift.span) {
                Err(e) => Err(e),
                Ok((it1, p1, l1)) => {
                    let ghost vit1 = view_if_then(it1);
                    let mut start: Vec<IfThenExpr> = Vec::new();
                    start.push(it1);
                    proof {
                        assert(step(toks@, pos as int, p1 as int) == p1 as int);
                        lemma_view_if_thens(start@);
                        assert(view_if_thens(start@) =~= seq![vit1]);
                    }
                    match parse_if_rest(src, toks, start, p1, l1) {
                        Err(e) => Err(e),
                        Ok((chain, els, cur, lastc)) => {
                            proof {
                                lemma_view_if_thens(chain@);
                            }
                            let ghost vchain = view_if_thens(chain@);
                            let ghost vels = view_else_opt(els);
                            let if_then_span = if chain.len() > 1 {
                                chain[0].span.merge(chain[chain.len() - 1].span)
                            } else {
                                chain[0].span
                            };
                            let span = ift.span.merge(lastc);
                            let result = Expr {
                                kind: ExprKind::If {
                                    if_then_exprs: chain,
                                    if_then_span,
                                    else_branch: els,
                                },
                                span,
                            };
                            proof {
                                assert(view_expr(result) == SpecExpr {
                                    kind: SpecExprKind::If {
                                        if_then_exprs: vchain,
                                        if_then_span,
                                        else_branch: vels,
                                    },
                                    span,
                                });
                            }
                            Ok((result, cur, lastc))
                        },
                    }
                },
            }
        },
        Err(e) => Err(e),
    }
}

/// Empty statement.
pub(crate) fn parse_empty(toks: &Vec<Token>, pos: usize, last: CodeSpan) -> (r: Result<
    (Stmt, usize, CodeSpan),
    ParseError,
>)
    requires
        pos <= toks@.len(),
    ensures
        stmt_step(r, sp_empty(toks@, pos as int, last)),
        r matches Ok(a) ==> pos < a.1 <= toks@.len(),
{
    proof {
        reveal(sp_empty);
    }
    match parse_skips(toks, pos, last) {
        Ok((t, p, l)) => {
            if !matches!(t.kind, TokenKind::Semicolon) {
                Err(ParseError::UnexpectedToken(t))
            } else {
                Ok((Stmt { kind: StmtKind::Empty, span: t.span }, p, t.span))
            }
        },
        Err(e) => Err(e),
    }
}

/// `break` or `continue` statement.
pub(crate) fn parse_break_continue(toks: &Vec<Token>, pos: usize, last: CodeSpan) -> (r: Result<
    (Stmt, usize, CodeSpan),
    ParseError,
>)
    requires
        pos <= toks@.len(),
    ensures
        stmt_step(r, sp_break_continue(toks@, pos as int, last)),
        r matches Ok(a) ==> pos < a.1 <= toks@.len(),
{
    proof {
        reveal(sp_break_continue);
    }
    match parse_skips(toks, pos, last) {
        Ok((t, p, l)) => {
            if !matches!(t.kind, TokenKind::Break | TokenKind::Continue) {
                Err(ParseError::UnexpectedToken(t))
            } else {
                let (p2, l2) = parse_semi(toks, p, t.span);
                let kind = if matches!(t.kind, TokenKind::Break) {
                    StmtKind::Break
                } else {
                    StmtKind::Continue
                };
                Ok((Stmt { kind, span: t.span }, p2, l2))
            }
        },
        Err(e) => Err(e),
    }
}

/// Assignment statement.
#[verifier::rlimit(100)]
#[verifier::spinoff_prover]
pub(crate) fn parse_assign(src: &Vec<u8>, toks: &Vec<Token>, pos: usize, last: CodeSpan) -> (r: Result<
    (Stmt, usize, CodeSpan),
    ParseError,
>)
    requires
        pos <= toks@.len(),
        tokens_wf(toks@, src@.len() as int),
    ensures
        stmt_step(r, sp_assign(src@, toks@, pos as int, last)),
        r matches Ok(a) ==> pos < a.1 <= toks@.len(),
    decreases toks@.len() - pos, 37int,
{
    proof {
        reveal_with_fuel(sp_assign, 1);
    }
    match parse_skips(toks, pos, last) {
        Ok((id, p0, l0)) => {
            if !matches!(id.kind, TokenKind::Ident) || p0 >= toks.len() {
                return Err(ParseError::UnexpectedToken(id));
            }
            match parse_skips(toks, p0, id.span) {
                Ok((opt, p1, l1)) => {
                    if !matches!(opt.kind, TokenKind::Assign) {
                        return Err(ParseError::UnexpectedToken(opt));
                    }
                    proof {
                        assert(step(toks@, pos as int, p1 as int) == p1 as int);
                    }
                    match parse_expr(src, toks, p1, opt.span) {
                        Ok((right, p2, l2)) => {
                            if !is_evalable(&right) {
                                return Err(
                                    ParseError::AssignRightExprError(
                                        Box::new(ParseError::NotEvalable(right.span)),
                                    ),
                                );
                            }
                            let consec = match parse_skips(toks, p2, l2) {
                                Ok((a, _, _)) => {
                                    if matches!(a.kind, TokenKind::Assign) {
                                        Some(a)
                                    } else {
                                        None
                                    }
                                },
                                Err(_) => None,
                            };
                            match consec {
                                Some(a) => Err(
                                    ParseError::ConsecutiveAssignError(id.span.merge(a.span)),
                                ),
                                None => {
                                    let (p3, l3) = parse_semi(toks, p2, l2);
                                    let ghost vright = view_expr(right);
                                    let span = id.span.merge(right.span);
                                    let left = Expr { kind: ExprKind::Ident, span: id.span };
                                    proof {
                                        assert(view_expr(left) == SpecExpr {
                                            kind: SpecExprKind::Ident,
                                            span: id.span,
                                        });
                                    }
                                    let result = Stmt {
                                        kind: StmtKind::Assign {
                                            left,
                                            right,
                                            assign_span: opt.span,
                                        },
                                        span,
                                    };
                                    proof {
                                        assert(view_stmt(result) == SpecStmt {
                                            kind: SpecStmtKind::Assign {
                                                left: Box::new(
                                                    SpecExpr {
                                                        kind: SpecExprKind::Ident,
                                                        span: id.span,
                                                    },
                                                ),
                                                right: Box::new(vright),
                                                assign_span: opt.span,
                                            },
                                            span,
                                        });
                                    }
                                    Ok((result, p3, l3))
                                },
                            }
                        },
                        Err(e) => Err(ParseError::AssignRightExprError(Box::new(e))),
                    }
                },
                Err(e) => Err(e),
            }
        },
        Err(e) => Err(e),
    }
}

/// `return expr ;?` statement.
#[verifier::rlimit(100)]
#[verifier::spinoff_prover]
pub(crate) fn parse_return(src: &Vec<u8>, toks: &Vec<Token>, pos: usize, last: CodeSpan) -> (r: Result<
    (Stmt, usize, CodeSpan),
    ParseError,
>)
    requires
        pos <= toks@.len(),
        tokens_wf(toks@, src@.len() as int),
    ensures
        stmt_step(r, sp_return(src@, toks@, pos as int, last)),
        r matches Ok(a) ==> pos < a.1 <= toks@.len(),
    decreases toks@.len() - pos, 37int,
{
    proof {
        reveal_with_fuel(sp_return, 1);
    }
    match parse_skips(toks, pos, last) {
        Ok((t, p, l)) => {
            if !matches!(t.kind, TokenKind::Return) {
                return Err(ParseError::UnexpectedToken(t));
            }
            proof {
                assert(step(toks@, pos as int, p as int) == p as int);
            }
            match parse_expr(src, toks, p, t.span) {
                Ok((ex, p1, l1)) => {
                    let (p2, l2) = parse_semi(toks, p1, l1);
                    let ghost vex = view_expr(ex);
                    let span = t.span.merge(ex.span);
                    let result = Stmt { kind: StmtKind::Return(ex), span };
                    proof {
                        assert(view_stmt(result) == SpecStmt {
                            kind: SpecStmtKind::Return(Box::new(vex)),
                            span,
                        });
                    }
                    Ok((result, p2, l2))
                },
                Err(e) => Err(ParseError::ReturnExprError(Box::new(e))),
            }
        },
        Err(e) => Err(e),
    }
}

/// `for ident in iter body ;?` statement.
#[verifier::rlimit(100)]
#[verifier::spinoff_prover]
pub(crate) fn parse_for_loop(src: &Vec<u8>, toks: &Vec<Token>, pos: usize, last: CodeSpan) -> (r: Result<
    (Stmt, usize, CodeSpan),
    ParseError,
>)
    requires
        pos <= toks@.len(),
        tokens_wf(toks@, src@.len() as int),
    ensures
        stmt_step(r, sp_for(src@, toks@, pos as int, last)),
        r matches Ok(a) ==> pos < a.1 <= toks@.len(),
    decreases toks@.len() - pos, 37int,
{
    proof {
        reveal_with_fuel(sp_for, 1);
    }
    match parse_skips(toks, pos, last) {
        Ok((ft, p0, l0)) => {
            if !matches!(ft.kind, TokenKind::For) {
                return Err(ParseError::UnexpectedToken(ft));
            }
            match parse_skips(toks, p0, ft.span) {
                Ok((id, p1, l1)) => {
                    if !matches!(id.kind, TokenKind::Ident) {
                        return Err(ParseError::ForIdentError(id.span));
                    }
                    match parse_skips(toks, p1, id.span) {
                        Ok((int_t, p2, l2)) => {
                            if !matches!(int_t.kind, TokenKind::In) {
                                return Err(ParseError::ForInError(int_t.span));
                            }
                            proof {
                                assert(step(toks@, pos as int, p2 as int) == p2 as int);
                            }
                            match parse_expr(src, toks, p2, int_t.span) {
                                Ok((iter, p3, l3)) => {
                                    proof {
                                        assert(step(toks@, pos as int, p3 as int) == p3 as int);
                                    }
                                    match parse_expr(src, toks, p3, l3) {
                                        Ok((bod, p4, l4)) => {
                                            let (p5, l5) = parse_semi(toks, p4, l4);
                                            let ghost viter = view_expr(iter);
                                            let ghost vbody = view_expr(bod);
                                            let span = ft.span.merge(bod.span);
                                            let head_span = ft.span.merge(l3);
                                            let lvar = Expr {
                                                kind: ExprKind::Ident,
                                                span: id.span,
                                            };
                                            proof {
                                                assert(view_expr(lvar) == SpecExpr {
                                                    kind: SpecExprKind::Ident,
                                                    span: id.span,
                                                });
                                            }
                                            let result = Stmt {
                                                kind: StmtKind::For {
                                                    loop_var: Box::new(lvar),
                                                    loop_iter: Box::new(iter),
                                                    head_span,
                                                    loop_body: Box::new(bod),
                                                },
                                                span,
                                            };
                                            proof {
                                                assert(view_stmt(result) == SpecStmt {
                                                    kind: SpecStmtKind::For {
                                                        loop_var: Box::new(
                                                            SpecExpr {
                                                                kind: SpecExprKind::Ident,
                                                                span: id.span,
                                                            },
                                                        ),
                                                        loop_iter: Box::new(viter),
                                                        head_span,
                                                        loop_body: Box::new(vbody),
                                                    },
                                                    span,
                                                });
                                            }
                                            Ok((result, p5, l5))
                                        },
                                        Err(e) => Err(ParseError::ForBodyError(Box::new(e))),
                                    }
                                },
                                Err(e) => Err(ParseError::ForIterError(Box::new(e))),
                            }
                        },
                        Err(e) => Err(e),
                    }
                },
                Err(e) => Err(e),
            }
        },
        Err(e) => Err(e),
    }
}

/// `def name(params) body ;?` statement; the body must be evalable.
#[verifier::rlimit(100)]
#[verifier::spinoff_prover]
pub(crate) fn parse_def(src: &Vec<u8>, toks: &Vec<Token>, pos: usize, last: CodeSpan) -> (r: Result<
    (Stmt, usize, CodeSpan),
    ParseError,
>)
    requires
        pos <= toks@.len(),
        tokens_wf(toks@, src@.len() as int),
    ensures
        stmt_step(r, sp_def(src@, toks@, pos as int, last)),
        r matches Ok(a) ==> pos < a.1 <= toks@.len(),
    decreases toks@.len() - pos, 37int,
{
    proof {
        reveal_with_fuel(sp_def, 1);
    }
    match parse_skips(toks, pos, last) {
        Ok((dt, p0, l0)) => {
            if !matches!(dt.kind, TokenKind::Def) {
                return Err(ParseError::UnexpectedToken(dt));
            }
            match parse_skips(toks, p0, dt.span) {
                Ok((id, p1, l1)) => {
                    if !matches!(id.kind, TokenKind::Ident) {
                        return Err(ParseError::DefNameError(id.span));
                    }
                    proof {
                        assert(step(toks@, pos as int, p1 as int) == p1 as int);
                    }
                    match parse_args(src, toks, p1, id.span) {
                        Ok(((args, args_span), p2, l2)) => {
                            proof {
                                assert(step(toks@, pos as int, p2 as int) == p2 as int);
                            }
                            match parse_expr(src, toks, p2, l2) {
                                Ok((bod, p3, l3)) => {
                                    if !is_evalable(&bod) {
                                        return Err(
                                            ParseError::DefBodyError(
                                                Box::new(ParseError::NotEvalable(bod.span)),
                                            ),
                                        );
                                    }
                                    let (p4, l4) = parse_semi(toks, p3, l3);
                                    let ghost vargs = view_exprs(args@);
                                    let ghost vbody = view_expr(bod);
                                    let span = dt.span.merge(bod.span);
                                    let body_span = bod.span;
                                    let iexpr = Expr { kind: ExprKind::Ident, span: id.span };
                                    proof {
                                        assert(view_expr(iexpr) == SpecExpr {
                                            kind: SpecExprKind::Ident,
                                            span: id.span,
                                        });
                                    }
                                    let result = Stmt {
                                        kind: StmtKind::Def {
                                            ident: iexpr,
                                            args,
                                            args_span,
                                            body: bod,
                                            body_span,
                                        },
                                        span,
                                    };
                                    proof {
                                        assert(view_stmt(result) == SpecStmt {
                                            kind: SpecStmtKind::Def {
                                                ident: Box::new(
                                                    SpecExpr {
                                                        kind: SpecExprKind::Ident,
                                                        span: id.span,
                                                    },
                                                ),
                                                args: vargs,
                                                args_span,
                                                body: Box::new(vbody),
                                                body_span,
                                            },
                                            span,
                                        });
                                    }
                                    Ok((result, p4, l4))
                                },
                                Err(e) => Err(ParseError::DefBodyError(Box::new(e))),
                            }
                        },
                        Err(e) => Err(ParseError::DefArgsError(Box::new(e))),
                    }
                },
                Err(e) => Err(e),
            }
        },
        Err(e) => Err(e),
    }
}

/// `extern name(params) ;` declaration.
#[verifier::rlimit(100)]
#[verifier::spinoff_prover]
pub(crate) fn parse_extern_decl(src: &Vec<u8>, toks: &Vec<Token>, pos: usize, last: CodeSpan) -> (r: Result<
    (Stmt, usize, CodeSpan),
    ParseError,
>)
    requires
        pos <= toks@.len(),
        tokens_wf(toks@, src@.len() as int),
    ensures
        stmt_step(r, sp_extern(src@, toks@, pos as int, last)),
        r matches Ok(a) ==> pos < a.1 <= toks@.len(),
    decreases toks@.len() - pos, 37int,
{
    proof {
        reveal_with_fuel(sp_extern, 1);
    }
    match parse_skips(toks, pos, last) {
        Ok((et, p0, l0)) => {
            if !matches!(et.kind, TokenKind::Extern) {
                return Err(ParseError::UnexpectedToken(et));
            }
            match parse_skips(toks, p0, et.span) {
                Ok((id, p1, l1)) => {
                    if !matches!(id.kind, TokenKind::Ident) {
                        return Err(ParseError::ExternNameError(id.span));
                    }
                    proof {
                        assert(step(toks@, pos as int, p1 as int) == p1 as int);
                    }
                    match parse_args(src, toks, p1, id.span) {
                        Ok(((args, args_span), p2, l2)) => {
                            match parse_skips(toks, p2, l2) {
                                Ok((st, p3, l3)) => {
                                    if !matches!(st.kind, TokenKind::Semicolon) {
                                        return Err(ParseError::ExternEndError(st.span));
                                    }
                                    let ghost vargs = view_exprs(args@);
                                    let span = et.span.merge(st.span);
                                    let iexpr = Expr { kind: ExprKind::Ident, span: id.span };
                                    proof {
                                        assert(view_expr(iexpr) == SpecExpr {
                                            kind: SpecExprKind::Ident,
                                            span: id.span,
                                        });
                                    }
                                    let result = Stmt {
                                        kind: StmtKind::Extern {
                                            ident: iexpr,
                                            args,
                                            args_span,
                                        },
                                        span,
                                    };
                                    proof {
                                        assert(view_stmt(result) == SpecStmt {
                                            kind: SpecStmtKind::Extern {
                                                ident: Box::new(
                                                    SpecExpr {
                                                        kind: SpecExprKind::Ident,
                                                        span: id.span,
                                                    },
                                                ),
                                                args: vargs,
                                                args_span,
                                            },
                                            span,
                                        });
                                    }
                                    Ok((result, p3, st.span))
                                },
                                Err(e) => Err(e),
                            }
                        },
                        Err(e) => Err(ParseError::ExternArgsError(Box::new(e))),
                    }
                },
                Err(e) => Err(e),
            }
        },
        Err(e) => Err(e),
    }
}

/// Statement dispatch, first match wins.
#[verifier::rlimit(100)]
#[verifier::spinoff_prover]
pub(crate) fn parse_stmt(src: &Vec<u8>, toks: &Vec<Token>, pos: usize, last: CodeSpan) -> (r: Result<
    (Stmt, usize, CodeSpan),
    ParseError,
>)
    requires
        pos <= toks@.len(),
        tokens_wf(toks@, src@.len() as int),
    ensures
        stmt_step(r, sp_stmt(src@, toks@, pos as int, last)),
        r matches Ok(a) ==> pos < a.1 <= toks@.len(),
    decreases toks@.len() - pos, 38int,
{
    proof {
        reveal_with_fuel(sp_stmt, 1);
    }
    let r1 = parse_empty(toks, pos, last);
    if !matches!(r1, Err(ParseError::UnexpectedToken(_))) {
        return r1;
    }
    let r2 = parse_assign(src, toks, pos, last);
    if !matches!(r2, Err(ParseError::UnexpectedToken(_))) {
        return r2;
    }
    let r3 = parse_return(src, toks, pos, last);
    if !matches!(r3, Err(ParseError::UnexpectedToken(_))) {
        return r3;
    }
    let r4 = parse_break_continue(toks, pos, last);
    if !matches!(r4, Err(ParseError::UnexpectedToken(_))) {
        return r4;
    }
    let r5 = parse_for_loop(src, toks, pos, last);
    if !matches!(r5, Err(ParseError::UnexpectedToken(_))) {
        return r5;
    }
    let r6 = parse_def(src, toks, pos, last);
    if !matches!(r6, Err(ParseError::UnexpectedToken(_))) {
        return r6;
    }
    let r7 = parse_extern_decl(src, toks, pos, last);
    if !matches!(r7, Err(ParseError::UnexpectedToken(_))) {
        return r7;
    }
    match parse_expr(src, toks, pos, last) {
        Ok((ex, p1, l1)) => {
            let (p2, l2) = parse_semi(toks, p1, l1);
            let ghost vex = view_expr(ex);
            let span = ex.span;
            let result = Stmt { kind: StmtKind::Expr(ex), span };
            proof {
                assert(view_stmt(result) == SpecStmt {
                    kind: SpecStmtKind::Expr(Box::new(vex)),
                    span,
                });
            }
            Ok((result, p2, l2))
        },
        Err(e) => Err(e),
    }
}

/// Statements from `pos` until the significant tokens are exhausted.
#[verifier::rlimit(100)]
#[verifier::spinoff_prover]
pub(crate) fn parse_ast_from(src: &Vec<u8>, toks: &Vec<Token>, pos: usize, last: CodeSpan) -> (r: Result<
    Vec<Stmt>,
    ParseError,
>)
    requires
        pos <= toks@.len(),
        tokens_wf(toks@, src@.len() as int),
    ensures
        match (r, sp_ast(src@, toks@, pos as int, last)) {
            (Ok(a), Ok(b)) => view_stmts(a@) == b,
            (Err(e1), Err(e2)) => e1 == e2,
            _ => false,
        },
    decreases toks@.len() - pos, 40int,
{
    proof {
        reveal_with_fuel(sp_ast, 1);
    }
    match parse_skips(toks, pos, last) {
        Err(_) => {
            let out: Vec<Stmt> = Vec::new();
            proof {
                lemma_view_stmts(out@);
                assert(view_stmts(out@) =~= Seq::<SpecStmt>::empty());
            }
            Ok(out)
        },
        Ok(_) => {
            match parse_stmt(src, toks, pos, last) {
                Err(e) => Err(e),
                Ok((st, p1, l1)) => {
                    proof {
                        assert(step(toks@, pos as int, p1 as int) == p1 as int);
                    }
                    match parse_ast_from(src, toks, p1, l1) {
                        Err(e) => Err(e),
                        Ok(mut rest) => {
                            proof {
                                lemma_view_stmts_prepend(rest@, st);
                            }
                            rest.insert(0, st);
                            Ok(rest)
                        },
                    }
                },
            }
        },
    }
}

/// Parse a whole unit: the ordered statement sequence of one source, from
/// its text and its token sequence.  On success the parsed statements are
/// exactly those the grammar assigns to the tokens, and each observes the
/// span discipline: its span is ordered and contains the span of every
/// child node.  On failure the error is exactly the one the grammar
/// assigns.
pub fn parse_ast(src: &Vec<u8>, tokens: &Vec<Token>) -> (r: Result<Vec<Stmt>, ParseError>)
    requires
        tokens_wf(tokens@, src@.len() as int),
    ensures
        match (r, sp_parse_ast(src@, tokens@)) {
            (Ok(a), Ok(b)) => view_stmts(a@) == b,
            (Err(e1), Err(e2)) => e1 == e2,
            _ => false,
        },
        r matches Ok(a) ==> forall|k: int|
            0 <= k < view_stmts(a@).len() ==> (#[trigger] view_stmts(a@)[k]).wf(),
{
    proof {
        lemma_parse_ast_wf(src@, tokens@);
    }
    parse_ast_from(src, tokens, 0, CodeSpan::zero())
}


/// Lex a registered source and parse what it yields: the spans of the
/// lexical errors, beside the parse of the recognised tokens.  The parse
/// is exactly the one the grammar assigns to the lexed token sequence.
#[verifier::rlimit(100)]
#[verifier::spinoff_prover]
pub fn parse_source(srcs: &SourceSequence, src_id: usize) -> (r: (
    Vec<CodeSpan>,
    Result<Vec<Stmt>, ParseError>,
))
    requires
        src_id < srcs.sources@.len(),
    ensures
        ({
            let s = srcs.sources@[src_id as int].spec_bytes();
            let items = lex_from(src_id as int, s, 0, 0);
            &&& r.0@ == err_spans(items)
            &&& match (r.1, sp_parse_ast(s, ok_tokens(items))) {
                (Ok(a), Ok(b)) => view_stmts(a@) == b,
                (Err(e1), Err(e2)) => e1 == e2,
                _ => false,
            }
        }),
{
    let mut lexer = Lexer::new(src_id, srcs);
    let items = lexer.lex_all();
    let (tokens, errs) = collect_tokens(&items);
    let text = lexer.text;
    // the byte length of a held vector fits in usize, which the lemma needs
    let _len = text.len();
    proof {
        lemma_lex_tokens_wf(src_id as int, text@, 0);
    }
    let ast = parse_ast(&text, &tokens);
    (errs, ast)
}

} // verus!
