use vstd::prelude::*;
use crate::span::CodeSpan;
use crate::token::{Operator, Token, TokenKind};
use crate::ast::{SpecExpr, SpecExprKind, SpecStmt, SpecStmtKind, SpecIfThen, SpecElse};

verus! {

/// Errors of the parser.  A variant carrying a span reports where the
/// offending production failed; one carrying a boxed sub-error preserves
/// the full derivation chain.  `UnexpectedToken` is the one *uncommitted*
/// failure: statement and primary dispatch discard it and try the next
/// alternative.  Every other variant is committed and always propagates.
#[derive(Debug, PartialEq)]
pub enum ParseError {
    UnexpectedEnd(CodeSpan),
    UnexpectedToken(Token),

    AssignRightExprError(Box<ParseError>),
    ConsecutiveAssignError(CodeSpan),
    ReturnExprError(Box<ParseError>),

    ArgsNonBegin(CodeSpan),
    ArgsNonEnd(CodeSpan),
    ArgsExprError(Box<ParseError>),
    ArgsCommaError(CodeSpan),

    ForIdentError(CodeSpan),
    ForInError(CodeSpan),
    ForIterError(Box<ParseError>),
    ForBodyError(Box<ParseError>),

    DefNameError(CodeSpan),
    DefArgsError(Box<ParseError>),
    DefBodyError(Box<ParseError>),

    ExternNameError(CodeSpan),
    ExternArgsError(Box<ParseError>),
    ExternEndError(CodeSpan),

    /// A value was syntactically required, and the expression found there
    /// cannot produce one on every control path.
    NotEvalable(CodeSpan),
    FloatError(Token),
    CondExprError(Box<ParseError>),
    ThenTokenError(Token),
    ThenExprError(Box<ParseError>),
}

/// An uncommitted failure: the only kind that statement and primary
/// dispatch may discard in favour of the next alternative.
pub open spec fn falls_through<T>(r: Result<T, ParseError>) -> bool {
    r matches Err(ParseError::UnexpectedToken(_))
}

/// What the parser requires of its token sequence: spans are ordered and
/// bounded by the source length, tokens appear in source order, and all
/// belong to one source.  The lexer produces exactly such sequences.
#[verifier::opaque]
pub open spec fn tokens_wf(toks: Seq<Token>, src_len: int) -> bool {
    &&& forall|j: int|
        0 <= j < toks.len() ==> (#[trigger] toks[j]).span.start <= toks[j].span.end <= src_len
    &&& forall|j: int, k: int|
        0 <= j < k < toks.len() ==> (#[trigger] toks[j]).span.end <= (#[trigger] toks[k]).span.start
    &&& forall|j: int, k: int|
        0 <= j < toks.len() && 0 <= k < toks.len() ==> (#[trigger] toks[j]).span.src_id == (
        #[trigger] toks[k]).span.src_id
}

/// Clamp a continuation position into the progress range.  Every parser
/// hands back a strictly advanced, in-range position, so on every
/// reachable value this is the identity; it makes the strict descent of
/// the recursion evident from the definitions alone.
pub open spec fn step(toks: Seq<Token>, pos: int, p: int) -> int {
    if pos < p && p <= toks.len() {
        p
    } else {
        toks.len() as int
    }
}

/// Number of tokens left at a position, clamped so that it is a measure.
pub open spec fn rem(toks: Seq<Token>, pos: int) -> int {
    if pos < 0 {
        toks.len() as int
    } else if pos <= toks.len() {
        toks.len() - pos
    } else {
        0
    }
}

/// Descent rank of one binary-precedence level.
pub open spec fn rank_binop(level: int) -> int {
    if level >= 4 {
        3 * level + 3
    } else {
        15
    }
}

/// Descent rank of the continuation of one binary-precedence level.
pub open spec fn rank_rest(level: int) -> int {
    if level >= 4 {
        3 * level + 2
    } else {
        14
    }
}

/// Descent rank of the parser below one binary-precedence level.
pub open spec fn rank_below(level: int) -> int {
    if level >= 4 {
        3 * level + 1
    } else {
        13
    }
}

// ===================================================================
// The grammar, as functions of the token sequence
// ===================================================================
/// Skip whitespace, comment and byte-order-mark tokens; yield the first
/// significant token, the position after it, and its span.  At the end of
/// the tokens: `UnexpectedEnd` carrying the last span seen.
pub open spec fn sp_skips(toks: Seq<Token>, pos: int, last: CodeSpan) -> Result<
    (Token, int, CodeSpan),
    ParseError,
>
    decreases toks.len() - pos,
{
    if pos < 0 || pos >= toks.len() {
        Err(ParseError::UnexpectedEnd(last))
    } else if !toks[pos].kind.is_skippable() {
        Ok((toks[pos], pos + 1, toks[pos].span))
    } else {
        sp_skips(toks, pos + 1, toks[pos].span)
    }
}

/// Consume one optional trailing semicolon.
pub open spec fn sp_semi(toks: Seq<Token>, pos: int, last: CodeSpan) -> (int, CodeSpan) {
    match sp_skips(toks, pos, last) {
        Ok((t, p, l)) => if t.kind == TokenKind::Semicolon {
            (p, l)
        } else {
            (pos, last)
        },
        Err(_) => (pos, last),
    }
}

/// Whether the literal text `src[a..b]` contains an underscore; such a
/// literal lexes but cannot be converted to a numeric value.
pub open spec fn has_underscore(src: Seq<u8>, a: int, b: int) -> bool {
    exists|k: int| a <= k < b && src[k] == 0x5f
}

/// Numeric literal.
#[verifier::opaque]
pub open spec fn sp_lit(src: Seq<u8>, toks: Seq<Token>, pos: int, last: CodeSpan) -> Result<
    (SpecExpr, int, CodeSpan),
    ParseError,
> {
    match sp_skips(toks, pos, last) {
        Ok((t, p, l)) => {
            if t.kind != TokenKind::Number {
                Err(ParseError::UnexpectedToken(t))
            } else if has_underscore(src, t.span.start as int, t.span.end as int) {
                Err(ParseError::FloatError(t))
            } else {
                Ok((SpecExpr { kind: SpecExprKind::Lit, span: t.span }, p, t.span))
            }
        },
        Err(e) => Err(e),
    }
}

/// Bare identifier reference.
#[verifier::opaque]
pub open spec fn sp_ident_expr(toks: Seq<Token>, pos: int, last: CodeSpan) -> Result<
    (SpecExpr, int, CodeSpan),
    ParseError,
> {
    match sp_skips(toks, pos, last) {
        Ok((t, p, l)) => {
            if t.kind != TokenKind::Ident {
                Err(ParseError::UnexpectedToken(t))
            } else {
                Ok((SpecExpr { kind: SpecExprKind::Ident, span: t.span }, p, t.span))
            }
        },
        Err(e) => Err(e),
    }
}

/// Parenthesized sub-expression.
#[verifier::opaque]
pub open spec fn sp_parented(src: Seq<u8>, toks: Seq<Token>, pos: int, last: CodeSpan) -> Result<
    (SpecExpr, int, CodeSpan),
    ParseError,
>
    decreases rem(toks, pos), 9int,
{
    match sp_skips(toks, pos, last) {
        Ok((t, p, l)) => {
            if t.kind != TokenKind::OpenParen {
                Err(ParseError::UnexpectedToken(t))
            } else {
                match sp_expr(src, toks, step(toks, pos, p), t.span) {
                    Ok((inner, p1, l1)) => match sp_skips(toks, p1, l1) {
                        Ok((c, p2, l2)) => {
                            if c.kind != TokenKind::CloseParen {
                                Err(ParseError::UnexpectedToken(c))
                            } else {
                                Ok(
                                    (
                                        SpecExpr {
                                            kind: SpecExprKind::Parented(Box::new(inner)),
                                            span: t.span.spec_merge(c.span),
                                        },
                                        p2,
                                        c.span,
                                    ),
                                )
                            }
                        },
                        Err(e) => Err(e),
                    },
                    Err(e) => Err(e),
                }
            }
        },
        Err(e) => Err(e),
    }
}

/// Whether a statement failure ends a block's statement list: the
/// uncommitted `UnexpectedToken`, or the `UnexpectedEnd` with which the
/// dispatch reports that no alternative opened here.  After either, the
/// close-brace check gives the block's own diagnosis.  Every other
/// statement error is committed to a specific production and propagates
/// out of the block.
pub open spec fn ends_stmt_list(e: ParseError) -> bool {
    e matches ParseError::UnexpectedToken(_) || e matches ParseError::UnexpectedEnd(_)
}

/// Statement list of a block, ended by the first statement failure that no
/// alternative claims; committed statement errors propagate.
#[verifier::opaque]
pub open spec fn sp_block_rest(
    src: Seq<u8>,
    toks: Seq<Token>,
    stmts: Seq<SpecStmt>,
    cur: int,
    last: CodeSpan,
) -> Result<(Seq<SpecStmt>, int, CodeSpan), ParseError>
    decreases rem(toks, cur), 39int,
{
    if cur < 0 || cur >= toks.len() {
        // no statement can start here: the list ends as it stands
        Ok((stmts, cur, last))
    } else {
        match sp_stmt(src, toks, cur, last) {
            Ok((st, p1, l1)) => sp_block_rest(src, toks, stmts.push(st), step(toks, cur, p1), l1),
            Err(e) => if ends_stmt_list(e) {
                Ok((stmts, cur, last))
            } else {
                Err(e)
            },
        }
    }
}

/// Braced block expression.
#[verifier::opaque]
pub open spec fn sp_block(src: Seq<u8>, toks: Seq<Token>, pos: int, last: CodeSpan) -> Result<
    (SpecExpr, int, CodeSpan),
    ParseError,
>
    decreases rem(toks, pos), 9int,
{
    match sp_skips(toks, pos, last) {
        Ok((t, p, l)) => {
            if t.kind != TokenKind::OpenBrace {
                Err(ParseError::UnexpectedToken(t))
            } else {
                match sp_block_rest(src, toks, Seq::empty(), step(toks, pos, p), t.span) {
                    Ok((stmts, p1, l1)) => match sp_skips(toks, p1, l1) {
                        Ok((c, p2, l2)) => {
                            if c.kind != TokenKind::CloseBrace {
                                Err(ParseError::UnexpectedToken(c))
                            } else {
                                Ok(
                                    (
                                        SpecExpr {
                                            kind: SpecExprKind::Block(stmts),
                                            span: t.span.spec_merge(c.span),
                                        },
                                        p2,
                                        c.span,
                                    ),
                                )
                            }
                        },
                        Err(e) => Err(e),
                    },
                    Err(e) => Err(e),
                }
            }
        },
        Err(e) => Err(e),
    }
}

/// One `if cond then expr` clause, given its already-consumed `if` token.
#[verifier::opaque]
pub open spec fn sp_if_then(
    src: Seq<u8>,
    toks: Seq<Token>,
    if_token: Token,
    pos: int,
    last: CodeSpan,
) -> Result<(SpecIfThen, int, CodeSpan), ParseError>
    decreases rem(toks, pos), 32int,
{
    match sp_expr(src, toks, pos, last) {
        Ok((cond, p1, l1)) => match sp_skips(toks, p1, l1) {
            Ok((tt, p2, l2)) => {
                if tt.kind != TokenKind::Then {
                    Err(ParseError::ThenTokenError(tt))
                } else {
                    match sp_expr(src, toks, step(toks, pos, p2), tt.span) {
                        Ok((th, p3, l3)) => Ok(
                            (
                                SpecIfThen {
                                    cond: Box::new(cond),
                                    then_expr: Box::new(th),
                                    span: if_token.span.spec_merge(th.span),
                                },
                                p3,
                                l3,
                            ),
                        ),
                        Err(e) => Err(ParseError::ThenExprError(Box::new(e))),
                    }
                }
            },
            Err(e) => Err(e),
        },
        Err(e) => Err(ParseError::CondExprError(Box::new(e))),
    }
}

/// `else if` clauses and the optional terminal else branch.
#[verifier::opaque]
pub open spec fn sp_if_rest(
    src: Seq<u8>,
    toks: Seq<Token>,
    chain: Seq<SpecIfThen>,
    cur: int,
    last: CodeSpan,
) -> Result<(Seq<SpecIfThen>, Option<Box<SpecElse>>, int, CodeSpan), ParseError>
    decreases rem(toks, cur), 8int,
{
    match sp_skips(toks, cur, last) {
        Ok((et, pe, le)) => {
            if et.kind != TokenKind::Else {
                Ok((chain, None, cur, last))
            } else {
                match sp_skips(toks, pe, le) {
                    Ok((eit, pei, lei)) => {
                        if eit.kind != TokenKind::If {
                            match sp_expr(src, toks, step(toks, cur, pe), le) {
                                Ok((ex, px, lx)) => Ok(
                                    (
                                        chain,
                                        Some(
                                            Box::new(
                                                SpecElse {
                                                    expr: Box::new(ex),
                                                    span: le.spec_merge(ex.span),
                                                },
                                            ),
                                        ),
                                        px,
                                        lx,
                                    ),
                                ),
                                Err(e) => Err(e),
                            }
                        } else {
                            match sp_if_then(src, toks, eit, step(toks, cur, pei), eit.span) {
                                Ok((it, p2, l2)) => sp_if_rest(
                                    src,
                                    toks,
                                    chain.push(it),
                                    step(toks, cur, p2),
                                    l2,
                                ),
                                Err(e) => Err(e),
                            }
                        }
                    },
                    Err(e) => Err(e),
                }
            }
        },
        Err(_) => Ok((chain, None, cur, last)),
    }
}

/// Conditional chain: `if cond then expr (else if cond then expr)* (else expr)?`.
#[verifier::opaque]
pub open spec fn sp_if_expr(src: Seq<u8>, toks: Seq<Token>, pos: int, last: CodeSpan) -> Result<
    (SpecExpr, int, CodeSpan),
    ParseError,
>
    decreases rem(toks, pos), 9int,
{
    match sp_skips(toks, pos, last) {
        Ok((ift, p, l)) => {
            if ift.kind != TokenKind::If {
                Err(ParseError::UnexpectedToken(ift))
            } else {
                match sp_if_then(src, toks, ift, step(toks, pos, p), ift.span) {
                    Ok((it1, p1, l1)) => {
                        match sp_if_rest(src, toks, seq![it1], step(toks, pos, p1), l1) {
                            Ok((chain, els, p2, l2)) => {
                                let if_then_span = if chain.len() > 1 {
                                    chain[0].span.spec_merge(chain[chain.len() - 1].span)
                                } else {
                                    chain[0].span
                                };
                                Ok(
                                    (
                                        SpecExpr {
                                            kind: SpecExprKind::If {
                                                if_then_exprs: chain,
                                                if_then_span,
                                                else_branch: els,
                                            },
                                            span: ift.span.spec_merge(l2),
                                        },
                                        p2,
                                        l2,
                                    ),
                                )
                            },
                            Err(e) => Err(e),
                        }
                    },
                    Err(e) => Err(e),
                }
            }
        },
        Err(e) => Err(e),
    }
}

/// Primary expression: block, parenthesized expression, conditional chain,
/// literal or identifier, in that order; uncommitted failures fall through,
/// and exhaustion is a committed `UnexpectedEnd`.
#[verifier::opaque]
pub open spec fn sp_primary(src: Seq<u8>, toks: Seq<Token>, pos: int, last: CodeSpan) -> Result<
    (SpecExpr, int, CodeSpan),
    ParseError,
>
    decreases rem(toks, pos), 10int,
{
    let r1 = sp_block(src, toks, pos, last);
    if !falls_through(r1) {
        r1
    } else {
        let r2 = sp_parented(src, toks, pos, last);
        if !falls_through(r2) {
            r2
        } else {
            let r3 = sp_if_expr(src, toks, pos, last);
            if !falls_through(r3) {
                r3
            } else {
                let r4 = sp_lit(src, toks, pos, last);
                if !falls_through(r4) {
                    r4
                } else {
                    let r5 = sp_ident_expr(toks, pos, last);
                    if !falls_through(r5) {
                        r5
                    } else {
                        Err(ParseError::UnexpectedEnd(last))
                    }
                }
            }
        }
    }
}

/// Comma-separated argument expressions after the opening parenthesis.
/// The boolean records whether the list ended because a comma was missing
/// after an argument, which decides the error reported for an unclosed
/// list.
#[verifier::opaque]
pub open spec fn sp_args_rest(
    src: Seq<u8>,
    toks: Seq<Token>,
    args: Seq<SpecExpr>,
    cur: int,
    last: CodeSpan,
) -> Result<(Seq<SpecExpr>, int, CodeSpan, bool), ParseError>
    decreases rem(toks, cur), 31int,
{
    if cur < 0 || cur >= toks.len() {
        // no expression can start here: the list ends as it stands
        Ok((args, cur, last, false))
    } else {
        match sp_expr(src, toks, cur, last) {
        Ok((arg, p1, l1)) => match sp_skips(toks, p1, l1) {
            Ok((c, p2, l2)) => {
                if c.kind == TokenKind::Comma {
                    sp_args_rest(src, toks, args.push(arg), step(toks, cur, p2), l2)
                } else {
                    Ok((args.push(arg), p1, l1, true))
                }
            },
            Err(e) => Err(e),
            },
            Err(_) => Ok((args, cur, last, false)),
        }
    }
}

/// Parenthesized, comma-separated argument list.  Yields the arguments and
/// the span of the parentheses.
#[verifier::opaque]
pub open spec fn sp_args(src: Seq<u8>, toks: Seq<Token>, pos: int, last: CodeSpan) -> Result<
    ((Seq<SpecExpr>, CodeSpan), int, CodeSpan),
    ParseError,
>
    decreases rem(toks, pos), 7int,
{
    match sp_skips(toks, pos, last) {
        Ok((t, p, l)) => {
            if t.kind != TokenKind::OpenParen {
                Err(ParseError::ArgsNonBegin(t.span))
            } else {
                match sp_args_rest(src, toks, Seq::empty(), step(toks, pos, p), t.span) {
                    Ok((args, p1, l1, flag)) => match sp_skips(toks, p1, l1) {
                        Ok((c, p2, l2)) => {
                            if c.kind == TokenKind::CloseParen {
                                Ok(((args, t.span.spec_merge(c.span)), p2, c.span))
                            } else if flag {
                                Err(ParseError::ArgsCommaError(c.span))
                            } else {
                                Err(ParseError::ArgsNonEnd(c.span))
                            }
                        },
                        Err(e) => Err(e),
                    },
                    Err(e) => Err(e),
                }
            }
        },
        Err(e) => Err(e),
    }
}

/// Call, or fallback to a primary expression.  A call is an identifier
/// immediately followed by an argument list; if no parenthesis opens —
/// including at the end of the tokens, where nothing can open — the
/// fallback is uncommitted and yields a bare identifier reference.
/// Failures after the opening parenthesis are committed.
#[verifier::opaque]
pub open spec fn sp_call(src: Seq<u8>, toks: Seq<Token>, pos: int, last: CodeSpan) -> Result<
    (SpecExpr, int, CodeSpan),
    ParseError,
>
    decreases rem(toks, pos), 11int,
{
    match sp_skips(toks, pos, last) {
        Ok((t, p, l)) => {
            if t.kind != TokenKind::Ident {
                sp_primary(src, toks, pos, last)
            } else if sp_skips(toks, p, t.span) is Err {
                // at the end of the tokens no argument list can open: fall
                // back to a bare identifier reference
                sp_primary(src, toks, pos, last)
            } else {
                match sp_args(src, toks, step(toks, pos, p), t.span) {
                    Ok(((args, args_span), p1, l1)) => Ok(
                        (
                            SpecExpr {
                                kind: SpecExprKind::Call {
                                    callee: Box::new(
                                        SpecExpr { kind: SpecExprKind::Ident, span: t.span },
                                    ),
                                    args,
                                    args_span,
                                },
                                span: t.span.spec_merge(args_span),
                            },
                            p1,
                            l1,
                        ),
                    ),
                    Err(ParseError::ArgsNonBegin(_)) => sp_primary(src, toks, pos, last),
                    Err(e) => Err(e),
                }
            }
        },
        Err(e) => Err(e),
    }
}

/// Unary operation: `-` or `!` applied to a call or primary.
#[verifier::opaque]
pub open spec fn sp_unary(src: Seq<u8>, toks: Seq<Token>, pos: int, last: CodeSpan) -> Result<
    (SpecExpr, int, CodeSpan),
    ParseError,
>
    decreases rem(toks, pos), 12int,
{
    match sp_skips(toks, pos, last) {
        Ok((t, p, l)) => {
            if t.kind != TokenKind::Not && t.kind != TokenKind::Sub {
                sp_call(src, toks, pos, last)
            } else {
                match sp_call(src, toks, step(toks, pos, p), t.span) {
                    Ok((arg, p1, l1)) => Ok(
                        (
                            SpecExpr {
                                kind: SpecExprKind::UnOp {
                                    op: if t.kind == TokenKind::Not {
                                        Operator::Not
                                    } else {
                                        Operator::Sub
                                    },
                                    op_span: t.span,
                                    arg: Box::new(arg),
                                },
                                span: t.span.spec_merge(arg.span),
                            },
                            p1,
                            l1,
                        ),
                    ),
                    Err(e) => Err(e),
                }
            }
        },
        Err(e) => Err(e),
    }
}

/// The operator denoted by a token at a given binary-precedence level.
pub open spec fn level_op(level: int, kind: TokenKind) -> Option<Operator> {
    if level == 7 {
        match kind {
            TokenKind::And => Some(Operator::And),
            TokenKind::Or => Some(Operator::Or),
            _ => None,
        }
    } else if level == 6 {
        match kind {
            TokenKind::Eq => Some(Operator::Eq),
            TokenKind::Ne => Some(Operator::Ne),
            TokenKind::Lt => Some(Operator::Lt),
            TokenKind::Le => Some(Operator::Le),
            TokenKind::Gt => Some(Operator::Gt),
            TokenKind::Ge => Some(Operator::Ge),
            _ => None,
        }
    } else if level == 5 {
        match kind {
            TokenKind::Add => Some(Operator::Add),
            TokenKind::Sub => Some(Operator::Sub),
            _ => None,
        }
    } else if level == 4 {
        match kind {
            TokenKind::Mul => Some(Operator::Mul),
            TokenKind::Div => Some(Operator::Div),
            _ => None,
        }
    } else {
        None
    }
}

/// The next-tighter parser below a binary-precedence level.
#[verifier::opaque]
pub open spec fn sp_below(src: Seq<u8>, toks: Seq<Token>, level: int, pos: int, last: CodeSpan) -> Result<
    (SpecExpr, int, CodeSpan),
    ParseError,
>
    decreases rem(toks, pos), rank_below(level),
{
    if level == 7 {
        sp_binop(src, toks, 6, pos, last)
    } else if level == 6 {
        sp_binop(src, toks, 5, pos, last)
    } else if level == 5 {
        sp_binop(src, toks, 4, pos, last)
    } else {
        sp_unary(src, toks, pos, last)
    }
}

/// Left-associative continuation of a binary-precedence level.
#[verifier::opaque]
pub open spec fn sp_binop_rest(
    src: Seq<u8>,
    toks: Seq<Token>,
    level: int,
    left: SpecExpr,
    cur: int,
    last: CodeSpan,
) -> Result<(SpecExpr, int, CodeSpan), ParseError>
    decreases rem(toks, cur), rank_rest(level),
{
    match sp_skips(toks, cur, last) {
        Ok((opt, p_op, l_op)) => match level_op(level, opt.kind) {
            Some(op) => match sp_below(src, toks, level, step(toks, cur, p_op), opt.span) {
                Ok((right, p_r, l_r)) => {
                    let combined = SpecExpr {
                        kind: SpecExprKind::BinOp {
                            op,
                            op_span: opt.span,
                            left: Box::new(left),
                            right: Box::new(right),
                        },
                        span: left.span.spec_merge(right.span),
                    };
                    sp_binop_rest(src, toks, level, combined, step(toks, cur, p_r), l_r)
                },
                Err(e) => Err(e),
            },
            None => Ok((left, cur, last)),
        },
        Err(_) => Ok((left, cur, last)),
    }
}

/// One binary-precedence level: logical 7, comparison 6, additive 5,
/// multiplicative 4, each binding tighter than the one above it.
#[verifier::opaque]
pub open spec fn sp_binop(src: Seq<u8>, toks: Seq<Token>, level: int, pos: int, last: CodeSpan) -> Result<
    (SpecExpr, int, CodeSpan),
    ParseError,
>
    decreases rem(toks, pos), rank_binop(level),
{
    match sp_below(src, toks, level, pos, last) {
        Ok((left, p, l)) => sp_binop_rest(src, toks, level, left, step(toks, pos, p), l),
        Err(e) => Err(e),
    }
}

/// Expression entry point: the loosest binary-precedence level.
#[verifier::opaque]
pub open spec fn sp_expr(src: Seq<u8>, toks: Seq<Token>, pos: int, last: CodeSpan) -> Result<
    (SpecExpr, int, CodeSpan),
    ParseError,
>
    decreases rem(toks, pos), 30int,
{
    sp_binop(src, toks, 7, pos, last)
}

// ===================================================================
// Statements
// ===================================================================
/// Empty statement: a bare semicolon.
#[verifier::opaque]
pub open spec fn sp_empty(toks: Seq<Token>, pos: int, last: CodeSpan) -> Result<
    (SpecStmt, int, CodeSpan),
    ParseError,
> {
    match sp_skips(toks, pos, last) {
        Ok((t, p, l)) => {
            if t.kind != TokenKind::Semicolon {
                Err(ParseError::UnexpectedToken(t))
            } else {
                Ok((SpecStmt { kind: SpecStmtKind::Empty, span: t.span }, p, t.span))
            }
        },
        Err(e) => Err(e),
    }
}

/// `break` or `continue` statement.
#[verifier::opaque]
pub open spec fn sp_break_continue(toks: Seq<Token>, pos: int, last: CodeSpan) -> Result<
    (SpecStmt, int, CodeSpan),
    ParseError,
> {
    match sp_skips(toks, pos, last) {
        Ok((t, p, l)) => {
            if t.kind != TokenKind::Break && t.kind != TokenKind::Continue {
                Err(ParseError::UnexpectedToken(t))
            } else {
                let (p2, l2) = sp_semi(toks, p, t.span);
                Ok(
                    (
                        SpecStmt {
                            kind: if t.kind == TokenKind::Break {
                                SpecStmtKind::Break
                            } else {
                                SpecStmtKind::Continue
                            },
                            span: t.span,
                        },
                        p2,
                        l2,
                    ),
                )
            }
        },
        Err(e) => Err(e),
    }
}

/// Assignment statement: `ident = expr ;?`.  The right-hand side must be
/// evalable, and a second `=` after it is rejected.
#[verifier::opaque]
pub open spec fn sp_assign(src: Seq<u8>, toks: Seq<Token>, pos: int, last: CodeSpan) -> Result<
    (SpecStmt, int, CodeSpan),
    ParseError,
>
    decreases rem(toks, pos), 37int,
{
    match sp_skips(toks, pos, last) {
        Ok((id, p0, l0)) => {
            if id.kind != TokenKind::Ident || p0 >= toks.len() {
                Err(ParseError::UnexpectedToken(id))
            } else {
                match sp_skips(toks, p0, id.span) {
                    Ok((opt, p1, l1)) => {
                        if opt.kind != TokenKind::Assign {
                            Err(ParseError::UnexpectedToken(opt))
                        } else {
                            match sp_expr(src, toks, step(toks, pos, p1), opt.span) {
                                Ok((right, p2, l2)) => {
                                    if !right.evalable() {
                                        Err(
                                            ParseError::AssignRightExprError(
                                                Box::new(ParseError::NotEvalable(right.span)),
                                            ),
                                        )
                                    } else {
                                        match sp_skips(toks, p2, l2) {
                                            Ok((a, _, _)) if a.kind == TokenKind::Assign => Err(
                                                ParseError::ConsecutiveAssignError(
                                                    id.span.spec_merge(a.span),
                                                ),
                                            ),
                                            _ => {
                                                let (p3, l3) = sp_semi(toks, p2, l2);
                                                Ok(
                                                    (
                                                        SpecStmt {
                                                            kind: SpecStmtKind::Assign {
                                                                left: Box::new(
                                                                    SpecExpr {
                                                                        kind: SpecExprKind::Ident,
                                                                        span: id.span,
                                                                    },
                                                                ),
                                                                right: Box::new(right),
                                                                assign_span: opt.span,
                                                            },
                                                            span: id.span.spec_merge(right.span),
                                                        },
                                                        p3,
                                                        l3,
                                                    ),
                                                )
                                            },
                                        }
                                    }
                                },
                                Err(e) => Err(ParseError::AssignRightExprError(Box::new(e))),
                            }
                        }
                    },
                    Err(e) => Err(e),
                }
            }
        },
        Err(e) => Err(e),
    }
}

/// `return expr ;?` statement.
#[verifier::opaque]
pub open spec fn sp_return(src: Seq<u8>, toks: Seq<Token>, pos: int, last: CodeSpan) -> Result<
    (SpecStmt, int, CodeSpan),
    ParseError,
>
    decreases rem(toks, pos), 37int,
{
    match sp_skips(toks, pos, last) {
        Ok((t, p, l)) => {
            if t.kind != TokenKind::Return {
                Err(ParseError::UnexpectedToken(t))
            } else {
                match sp_expr(src, toks, step(toks, pos, p), t.span) {
                    Ok((ex, p1, l1)) => {
                        let (p2, l2) = sp_semi(toks, p1, l1);
                        Ok(
                            (
                                SpecStmt {
                                    kind: SpecStmtKind::Return(Box::new(ex)),
                                    span: t.span.spec_merge(ex.span),
                                },
                                p2,
                                l2,
                            ),
                        )
                    },
                    Err(e) => Err(ParseError::ReturnExprError(Box::new(e))),
                }
            }
        },
        Err(e) => Err(e),
    }
}

/// `for ident in iter body ;?` statement.
#[verifier::opaque]
pub open spec fn sp_for(src: Seq<u8>, toks: Seq<Token>, pos: int, last: CodeSpan) -> Result<
    (SpecStmt, int, CodeSpan),
    ParseError,
>
    decreases rem(toks, pos), 37int,
{
    match sp_skips(toks, pos, last) {
        Ok((ft, p0, l0)) => {
            if ft.kind != TokenKind::For {
                Err(ParseError::UnexpectedToken(ft))
            } else {
                match sp_skips(toks, p0, ft.span) {
                    Ok((id, p1, l1)) => {
                        if id.kind != TokenKind::Ident {
                            Err(ParseError::ForIdentError(id.span))
                        } else {
                            match sp_skips(toks, p1, id.span) {
                                Ok((int_t, p2, l2)) => {
                                    if int_t.kind != TokenKind::In {
                                        Err(ParseError::ForInError(int_t.span))
                                    } else {
                                        match sp_expr(
                                            src,
                                            toks,
                                            step(toks, pos, p2),
                                            int_t.span,
                                        ) {
                                            Ok((iter, p3, l3)) => {
                                                match sp_expr(
                                                    src,
                                                    toks,
                                                    step(toks, pos, p3),
                                                    l3,
                                                ) {
                                                    Ok((body, p4, l4)) => {
                                                        let (p5, l5) = sp_semi(toks, p4, l4);
                                                        Ok(
                                                            (
                                                                SpecStmt {
                                                                    kind: SpecStmtKind::For {
                                                                        loop_var: Box::new(
                                                                            SpecExpr {
                                                                                kind: SpecExprKind::Ident,
                                                                                span: id.span,
                                                                            },
                                                                        ),
                                                                        loop_iter: Box::new(iter),
                                                                        head_span: ft.span.spec_merge(
                                                                            l3,
                                                                        ),
                                                                        loop_body: Box::new(body),
                                                                    },
                                                                    span: ft.span.spec_merge(
                                                                        body.span,
                                                                    ),
                                                                },
                                                                p5,
                                                                l5,
                                                            ),
                                                        )
                                                    },
                                                    Err(e) => Err(
                                                        ParseError::ForBodyError(Box::new(e)),
                                                    ),
                                                }
                                            },
                                            Err(e) => Err(ParseError::ForIterError(Box::new(e))),
                                        }
                                    }
                                },
                                Err(e) => Err(e),
                            }
                        }
                    },
                    Err(e) => Err(e),
                }
            }
        },
        Err(e) => Err(e),
    }
}

/// `def name(params) body ;?` statement.  The body must be evalable.
#[verifier::opaque]
pub open spec fn sp_def(src: Seq<u8>, toks: Seq<Token>, pos: int, last: CodeSpan) -> Result<
    (SpecStmt, int, CodeSpan),
    ParseError,
>
    decreases rem(toks, pos), 37int,
{
    match sp_skips(toks, pos, last) {
        Ok((dt, p0, l0)) => {
            if dt.kind != TokenKind::Def {
                Err(ParseError::UnexpectedToken(dt))
            } else {
                match sp_skips(toks, p0, dt.span) {
                    Ok((id, p1, l1)) => {
                        if id.kind != TokenKind::Ident {
                            Err(ParseError::DefNameError(id.span))
                        } else {
                            match sp_args(src, toks, step(toks, pos, p1), id.span) {
                                Ok(((args, args_span), p2, l2)) => {
                                    match sp_expr(src, toks, step(toks, pos, p2), l2) {
                                        Ok((body, p3, l3)) => {
                                            if !body.evalable() {
                                                Err(
                                                    ParseError::DefBodyError(
                                                        Box::new(
                                                            ParseError::NotEvalable(body.span),
                                                        ),
                                                    ),
                                                )
                                            } else {
                                                let (p4, l4) = sp_semi(toks, p3, l3);
                                                Ok(
                                                    (
                                                        SpecStmt {
                                                            kind: SpecStmtKind::Def {
                                                                ident: Box::new(
                                                                    SpecExpr {
                                                                        kind: SpecExprKind::Ident,
                                                                        span: id.span,
                                                                    },
                                                                ),
                                                                args,
                                                                args_span,
                                                                body: Box::new(body),
                                                                body_span: body.span,
                                                            },
                                                            span: dt.span.spec_merge(body.span),
                                                        },
                                                        p4,
                                                        l4,
                                                    ),
                                                )
                                            }
                                        },
                                        Err(e) => Err(ParseError::DefBodyError(Box::new(e))),
                                    }
                                },
                                Err(e) => Err(ParseError::DefArgsError(Box::new(e))),
                            }
                        }
                    },
                    Err(e) => Err(e),
                }
            }
        },
        Err(e) => Err(e),
    }
}

/// `extern name(params) ;` declaration: a fixed-arity contract without a
/// body; the semicolon is required.
#[verifier::opaque]
pub open spec fn sp_extern(src: Seq<u8>, toks: Seq<Token>, pos: int, last: CodeSpan) -> Result<
    (SpecStmt, int, CodeSpan),
    ParseError,
>
    decreases rem(toks, pos), 37int,
{
    match sp_skips(toks, pos, last) {
        Ok((et, p0, l0)) => {
            if et.kind != TokenKind::Extern {
                Err(ParseError::UnexpectedToken(et))
            } else {
                match sp_skips(toks, p0, et.span) {
                    Ok((id, p1, l1)) => {
                        if id.kind != TokenKind::Ident {
                            Err(ParseError::ExternNameError(id.span))
                        } else {
                            match sp_args(src, toks, step(toks, pos, p1), id.span) {
                                Ok(((args, args_span), p2, l2)) => {
                                    match sp_skips(toks, p2, l2) {
                                        Ok((st, p3, l3)) => {
                                            if st.kind != TokenKind::Semicolon {
                                                Err(ParseError::ExternEndError(st.span))
                                            } else {
                                                Ok(
                                                    (
                                                        SpecStmt {
                                                            kind: SpecStmtKind::Extern {
                                                                ident: Box::new(
                                                                    SpecExpr {
                                                                        kind: SpecExprKind::Ident,
                                                                        span: id.span,
                                                                    },
                                                                ),
                                                                args,
                                                                args_span,
                                                            },
                                                            span: et.span.spec_merge(st.span),
                                                        },
                                                        p3,
                                                        st.span,
                                                    ),
                                                )
                                            }
                                        },
                                        Err(e) => Err(e),
                                    }
                                },
                                Err(e) => Err(ParseError::ExternArgsError(Box::new(e))),
                            }
                        }
                    },
                    Err(e) => Err(e),
                }
            }
        },
        Err(e) => Err(e),
    }
}

/// Statement dispatch, first match wins: empty, assignment, return,
/// break/continue, for, def, extern, and finally an expression statement.
/// Only uncommitted failures fall through to the next alternative.
#[verifier::opaque]
pub open spec fn sp_stmt(src: Seq<u8>, toks: Seq<Token>, pos: int, last: CodeSpan) -> Result<
    (SpecStmt, int, CodeSpan),
    ParseError,
>
    decreases rem(toks, pos), 38int,
{
    let r1 = sp_empty(toks, pos, last);
    if !falls_through(r1) {
        r1
    } else {
        let r2 = sp_assign(src, toks, pos, last);
        if !falls_through(r2) {
            r2
        } else {
            let r3 = sp_return(src, toks, pos, last);
            if !falls_through(r3) {
                r3
            } else {
                let r4 = sp_break_continue(toks, pos, last);
                if !falls_through(r4) {
                    r4
                } else {
                    let r5 = sp_for(src, toks, pos, last);
                    if !falls_through(r5) {
                        r5
                    } else {
                        let r6 = sp_def(src, toks, pos, last);
                        if !falls_through(r6) {
                            r6
                        } else {
                            let r7 = sp_extern(src, toks, pos, last);
                            if !falls_through(r7) {
                                r7
                            } else {
                                match sp_expr(src, toks, pos, last) {
                                    Ok((ex, p1, l1)) => {
                                        let (p2, l2) = sp_semi(toks, p1, l1);
                                        Ok(
                                            (
                                                SpecStmt {
                                                    kind: SpecStmtKind::Expr(Box::new(ex)),
                                                    span: ex.span,
                                                },
                                                p2,
                                                l2,
                                            ),
                                        )
                                    },
                                    Err(e) => Err(e),
                                }
                            }
                        }
                    }
                }
            }
        }
    }
}

/// The whole unit: statements until the significant tokens are exhausted.
#[verifier::opaque]
pub open spec fn sp_ast(src: Seq<u8>, toks: Seq<Token>, pos: int, last: CodeSpan) -> Result<
    Seq<SpecStmt>,
    ParseError,
>
    decreases rem(toks, pos), 40int,
{
    match sp_skips(toks, pos, last) {
        Err(_) => Ok(Seq::empty()),
        Ok(_) => match sp_stmt(src, toks, pos, last) {
            Ok((st, p1, l1)) => match sp_ast(src, toks, step(toks, pos, p1), l1) {
                Ok(rest) => Ok(seq![st] + rest),
                Err(e) => Err(e),
            },
            Err(e) => Err(e),
        },
    }
}

/// What `parse_ast` returns: the statement sequence parsed from position 0
/// with the zero span as the initial context.
pub open spec fn sp_parse_ast(src: Seq<u8>, toks: Seq<Token>) -> Result<Seq<SpecStmt>, ParseError> {
    sp_ast(src, toks, 0, CodeSpan::spec_zero())
}


// ===================================================================
// Span discipline of what the grammar yields
// ===================================================================
/// What holds of one successful parse step at `pos` yielding a node with
/// span `span`, continuation `p2` and last span `l2`: the position
/// advanced within bounds, the node is well formed, it starts at or after
/// the end of every token before `pos`, it ends within the consumed
/// tokens, and `l2` is the span of the last token consumed.
pub open spec fn node_props(
    toks: Seq<Token>,
    pos: int,
    span: CodeSpan,
    wf: bool,
    p2: int,
    l2: CodeSpan,
) -> bool {
    &&& 0 <= pos < p2 <= toks.len()
    &&& wf
    &&& span.wf()
    &&& forall|j: int|
        0 <= j < pos && j < toks.len() ==> (#[trigger] toks[j]).span.end <= span.start
    &&& span.end <= toks[p2 - 1].span.end
    &&& span.src_id == toks[p2 - 1].span.src_id
    &&& l2 == toks[p2 - 1].span
}

/// The significant token that skipping yields is a token of the sequence,
/// at or after the skip position.
#[verifier::spinoff_prover]
pub proof fn lemma_skips(toks: Seq<Token>, pos: int, last: CodeSpan)
    ensures
        sp_skips(toks, pos, last) matches Ok(a) ==> 0 <= pos <= a.1 - 1 < toks.len() && a.0
            == toks[a.1 - 1] && a.2 == a.0.span,
    decreases toks.len() - pos,
{
    if 0 <= pos < toks.len() && toks[pos].kind.is_skippable() {
        lemma_skips(toks, pos + 1, toks[pos].span);
    }
}

/// Consuming an optional semicolon keeps the position in range and the
/// last span on the last consumed token.
#[verifier::spinoff_prover]
pub proof fn lemma_semi(toks: Seq<Token>, pos: int, last: CodeSpan)
    requires
        1 <= pos <= toks.len(),
        last == toks[pos - 1].span,
    ensures
        ({
            let r = sp_semi(toks, pos, last);
            pos <= r.0 <= toks.len() && r.1 == toks[r.0 - 1].span
        }),
{
    lemma_skips(toks, pos, last);
}

/// A literal is one token.
#[verifier::spinoff_prover]
pub proof fn lemma_wf_lit(src: Seq<u8>, toks: Seq<Token>, pos: int, last: CodeSpan)
    requires
        tokens_wf(toks, src.len() as int),
    ensures
        sp_lit(src, toks, pos, last) matches Ok(a) ==> node_props(
            toks,
            pos,
            a.0.span,
            a.0.wf(),
            a.1,
            a.2,
        ),
{
    reveal(tokens_wf);
    reveal(sp_lit);
    lemma_skips(toks, pos, last);
}

/// An identifier reference is one token.
#[verifier::spinoff_prover]
pub proof fn lemma_wf_ident_expr(src: Seq<u8>, toks: Seq<Token>, pos: int, last: CodeSpan)
    requires
        tokens_wf(toks, src.len() as int),
    ensures
        sp_ident_expr(toks, pos, last) matches Ok(a) ==> node_props(
            toks,
            pos,
            a.0.span,
            a.0.wf(),
            a.1,
            a.2,
        ),
{
    reveal(tokens_wf);
    reveal(sp_ident_expr);
    lemma_skips(toks, pos, last);
}

/// A parenthesized sub-expression observes the span discipline.
#[verifier::rlimit(100)]
#[verifier::spinoff_prover]
pub proof fn lemma_wf_parented(src: Seq<u8>, toks: Seq<Token>, pos: int, last: CodeSpan)
    requires
        tokens_wf(toks, src.len() as int),
    ensures
        sp_parented(src, toks, pos, last) matches Ok(a) ==> node_props(
            toks,
            pos,
            a.0.span,
            a.0.wf(),
            a.1,
            a.2,
        ),
    decreases rem(toks, pos), 9int,
{
    reveal(tokens_wf);
    reveal_with_fuel(sp_parented, 1);
    lemma_skips(toks, pos, last);
    match sp_skips(toks, pos, last) {
        Ok((t, p, l)) => {
            if t.kind == TokenKind::OpenParen {
                lemma_wf_expr(src, toks, step(toks, pos, p), t.span);
                match sp_expr(src, toks, step(toks, pos, p), t.span) {
                    Ok((inner, p1, l1)) => {
                        lemma_skips(toks, p1, l1);
                    },
                    Err(_) => {},
                }
            }
        },
        Err(_) => {},
    }
}

/// A unary operation observes the span discipline.
#[verifier::rlimit(100)]
#[verifier::spinoff_prover]
pub proof fn lemma_wf_unary(src: Seq<u8>, toks: Seq<Token>, pos: int, last: CodeSpan)
    requires
        tokens_wf(toks, src.len() as int),
    ensures
        sp_unary(src, toks, pos, last) matches Ok(a) ==> node_props(
            toks,
            pos,
            a.0.span,
            a.0.wf(),
            a.1,
            a.2,
        ),
    decreases rem(toks, pos), 12int,
{
    reveal(tokens_wf);
    reveal_with_fuel(sp_unary, 1);
    lemma_skips(toks, pos, last);
    match sp_skips(toks, pos, last) {
        Ok((t, p, l)) => {
            if t.kind == TokenKind::Not || t.kind == TokenKind::Sub {
                lemma_wf_call(src, toks, step(toks, pos, p), t.span);
            } else {
                lemma_wf_call(src, toks, pos, last);
            }
        },
        Err(_) => {},
    }
}

/// A call observes the span discipline, and so does the identifier
/// fallback.
#[verifier::rlimit(100)]
#[verifier::spinoff_prover]
pub proof fn lemma_wf_call(src: Seq<u8>, toks: Seq<Token>, pos: int, last: CodeSpan)
    requires
        tokens_wf(toks, src.len() as int),
    ensures
        sp_call(src, toks, pos, last) matches Ok(a) ==> node_props(
            toks,
            pos,
            a.0.span,
            a.0.wf(),
            a.1,
            a.2,
        ),
    decreases rem(toks, pos), 11int,
{
    reveal(tokens_wf);
    reveal_with_fuel(sp_call, 1);
    lemma_skips(toks, pos, last);
    match sp_skips(toks, pos, last) {
        Ok((t, p, l)) => {
            if t.kind != TokenKind::Ident {
                lemma_wf_primary(src, toks, pos, last);
            } else if sp_skips(toks, p, t.span) is Err {
                lemma_wf_primary(src, toks, pos, last);
            } else {
                lemma_wf_args(src, toks, step(toks, pos, p), t.span);
                match sp_args(src, toks, step(toks, pos, p), t.span) {
                    Ok(_) => {
                        assert(SpecExpr { kind: SpecExprKind::Ident, span: t.span }.wf());
                    },
                    Err(ParseError::ArgsNonBegin(_)) => {
                        lemma_wf_primary(src, toks, pos, last);
                    },
                    Err(_) => {},
                }
            }
        },
        Err(_) => {},
    }
}

/// The argument list yields well-formed arguments contained between the
/// bound `lo` and the last consumed token.
#[verifier::rlimit(100)]
#[verifier::spinoff_prover]
pub proof fn lemma_wf_args_rest(
    src: Seq<u8>,
    toks: Seq<Token>,
    args: Seq<SpecExpr>,
    cur: int,
    last: CodeSpan,
    lo: int,
)
    requires
        tokens_wf(toks, src.len() as int),
        1 <= cur <= toks.len() + 1,
        cur - 1 < toks.len(),
        last == toks[cur - 1].span,
        lo <= toks[cur - 1].span.end,
        forall|k: int|
            0 <= k < args.len() ==> (#[trigger] args[k]).wf() && lo <= args[k].span.start
                && args[k].span.end <= toks[cur - 1].span.end && args[k].span.src_id == toks[cur
                - 1].span.src_id,
    ensures
        sp_args_rest(src, toks, args, cur, last) matches Ok(b) ==> ({
            &&& cur <= b.1 <= toks.len()
            &&& 1 <= b.1
            &&& b.1 - 1 < toks.len()
            &&& b.2 == toks[b.1 - 1].span
            &&& lo <= toks[b.1 - 1].span.end
            &&& forall|k: int|
                0 <= k < b.0.len() ==> (#[trigger] b.0[k]).wf() && lo <= b.0[k].span.start
                    && b.0[k].span.end <= toks[b.1 - 1].span.end && b.0[k].span.src_id == toks[b.1
                    - 1].span.src_id
        }),
    decreases rem(toks, cur), 31int,
{
    reveal(tokens_wf);
    reveal_with_fuel(sp_args_rest, 1);
    if 0 <= cur < toks.len() {
        lemma_wf_expr(src, toks, cur, last);
        match sp_expr(src, toks, cur, last) {
            Ok((arg, p1, l1)) => {
                lemma_skips(toks, p1, l1);
                match sp_skips(toks, p1, l1) {
                    Ok((c, p2, l2)) => {
                        if c.kind == TokenKind::Comma {
                            lemma_wf_args_rest(
                                src,
                                toks,
                                args.push(arg),
                                step(toks, cur, p2),
                                l2,
                                lo,
                            );
                        }
                    },
                    Err(_) => {},
                }
            },
            Err(_) => {},
        }
    }
}

/// A parenthesized argument list observes the span discipline: the list
/// span covers every argument.
#[verifier::rlimit(100)]
#[verifier::spinoff_prover]
pub proof fn lemma_wf_args(src: Seq<u8>, toks: Seq<Token>, pos: int, last: CodeSpan)
    requires
        tokens_wf(toks, src.len() as int),
    ensures
        sp_args(src, toks, pos, last) matches Ok(a) ==> ({
            &&& node_props(toks, pos, a.0.1, true, a.1, a.2)
            &&& forall|k: int|
                0 <= k < a.0.0.len() ==> (#[trigger] a.0.0[k]).wf() && a.0.1.contains(
                    a.0.0[k].span,
                )
        }),
    decreases rem(toks, pos), 7int,
{
    reveal(tokens_wf);
    reveal_with_fuel(sp_args, 1);
    lemma_skips(toks, pos, last);
    match sp_skips(toks, pos, last) {
        Ok((t, p, l)) => {
            if t.kind == TokenKind::OpenParen {
                lemma_wf_args_rest(
                    src,
                    toks,
                    Seq::empty(),
                    step(toks, pos, p),
                    t.span,
                    t.span.end as int,
                );
                match sp_args_rest(src, toks, Seq::empty(), step(toks, pos, p), t.span) {
                    Ok((ars, p1, l1, flag)) => {
                        lemma_skips(toks, p1, l1);
                    },
                    Err(_) => {},
                }
            }
        },
        Err(_) => {},
    }
}

/// A block's statement list yields well-formed statements bounded below
/// by `lo` and above by the last consumed token.
#[verifier::rlimit(100)]
#[verifier::spinoff_prover]
pub proof fn lemma_wf_block_rest(
    src: Seq<u8>,
    toks: Seq<Token>,
    stmts: Seq<SpecStmt>,
    cur: int,
    last: CodeSpan,
    lo: int,
)
    requires
        tokens_wf(toks, src.len() as int),
        1 <= cur,
        cur - 1 < toks.len(),
        last == toks[cur - 1].span,
        lo <= toks[cur - 1].span.end,
        forall|k: int|
            0 <= k < stmts.len() ==> (#[trigger] stmts[k]).wf() && lo <= stmts[k].span.start
                && stmts[k].span.end <= toks[cur - 1].span.end && stmts[k].span.src_id == toks[cur
                - 1].span.src_id,
    ensures
        sp_block_rest(src, toks, stmts, cur, last) matches Ok(b) ==> ({
            &&& cur <= b.1 <= toks.len()
            &&& 1 <= b.1
            &&& b.1 - 1 < toks.len()
            &&& b.2 == toks[b.1 - 1].span
            &&& lo <= toks[b.1 - 1].span.end
            &&& forall|k: int|
                0 <= k < b.0.len() ==> (#[trigger] b.0[k]).wf() && lo <= b.0[k].span.start
                    && b.0[k].span.end <= toks[b.1 - 1].span.end && b.0[k].span.src_id == toks[b.1
                    - 1].span.src_id
        }),
    decreases rem(toks, cur), 39int,
{
    reveal(tokens_wf);
    reveal_with_fuel(sp_block_rest, 1);
    if 0 <= cur < toks.len() {
        lemma_wf_stmt(src, toks, cur, last);
        match sp_stmt(src, toks, cur, last) {
            Ok((st, p1, l1)) => {
                lemma_wf_block_rest(src, toks, stmts.push(st), step(toks, cur, p1), l1, lo);
            },
            Err(_) => {},
        }
    }
}

/// A block observes the span discipline: the braces cover every statement.
#[verifier::rlimit(100)]
#[verifier::spinoff_prover]
pub proof fn lemma_wf_block(src: Seq<u8>, toks: Seq<Token>, pos: int, last: CodeSpan)
    requires
        tokens_wf(toks, src.len() as int),
    ensures
        sp_block(src, toks, pos, last) matches Ok(a) ==> node_props(
            toks,
            pos,
            a.0.span,
            a.0.wf(),
            a.1,
            a.2,
        ),
    decreases rem(toks, pos), 9int,
{
    reveal(tokens_wf);
    reveal_with_fuel(sp_block, 1);
    lemma_skips(toks, pos, last);
    match sp_skips(toks, pos, last) {
        Ok((t, p, l)) => {
            if t.kind == TokenKind::OpenBrace {
                lemma_wf_block_rest(
                    src,
                    toks,
                    Seq::empty(),
                    step(toks, pos, p),
                    t.span,
                    t.span.start as int,
                );
                match sp_block_rest(src, toks, Seq::empty(), step(toks, pos, p), t.span) {
                    Ok((sts, p1, l1)) => {
                        lemma_skips(toks, p1, l1);
                    },
                    Err(_) => {},
                }
            }
        },
        Err(_) => {},
    }
}

/// The left-associative continuation preserves the span discipline of its
/// accumulated left operand.
#[verifier::rlimit(100)]
#[verifier::spinoff_prover]
pub proof fn lemma_wf_binop_rest(
    src: Seq<u8>,
    toks: Seq<Token>,
    level: int,
    left: SpecExpr,
    cur: int,
    last: CodeSpan,
    pos0: int,
)
    requires
        tokens_wf(toks, src.len() as int),
        node_props(toks, pos0, left.span, left.wf(), cur, last),
    ensures
        sp_binop_rest(src, toks, level, left, cur, last) matches Ok(a) ==> node_props(
            toks,
            pos0,
            a.0.span,
            a.0.wf(),
            a.1,
            a.2,
        ),
    decreases rem(toks, cur), rank_rest(level),
{
    reveal(tokens_wf);
    reveal_with_fuel(sp_binop_rest, 1);
    lemma_skips(toks, cur, last);
    match sp_skips(toks, cur, last) {
        Ok((opt, p_op, l_op)) => match level_op(level, opt.kind) {
            Some(op) => {
                lemma_wf_below(src, toks, level, step(toks, cur, p_op), opt.span);
                match sp_below(src, toks, level, step(toks, cur, p_op), opt.span) {
                    Ok((right, p_r, l_r)) => {
                        let combined = SpecExpr {
                            kind: SpecExprKind::BinOp {
                                op,
                                op_span: opt.span,
                                left: Box::new(left),
                                right: Box::new(right),
                            },
                            span: left.span.spec_merge(right.span),
                        };
                        assert(node_props(
                            toks,
                            pos0,
                            combined.span,
                            combined.wf(),
                            step(toks, cur, p_r),
                            l_r,
                        ));
                        lemma_wf_binop_rest(
                            src,
                            toks,
                            level,
                            combined,
                            step(toks, cur, p_r),
                            l_r,
                            pos0,
                        );
                    },
                    Err(_) => {},
                }
            },
            None => {},
        },
        Err(_) => {},
    }
}

/// One binary-precedence level observes the span discipline.
#[verifier::rlimit(100)]
#[verifier::spinoff_prover]
pub proof fn lemma_wf_binop(src: Seq<u8>, toks: Seq<Token>, level: int, pos: int, last: CodeSpan)
    requires
        tokens_wf(toks, src.len() as int),
    ensures
        sp_binop(src, toks, level, pos, last) matches Ok(a) ==> node_props(
            toks,
            pos,
            a.0.span,
            a.0.wf(),
            a.1,
            a.2,
        ),
    decreases rem(toks, pos), rank_binop(level),
{
    reveal_with_fuel(sp_binop, 1);
    lemma_wf_below(src, toks, level, pos, last);
    match sp_below(src, toks, level, pos, last) {
        Ok((left, p, l)) => {
            lemma_wf_binop_rest(src, toks, level, left, step(toks, pos, p), l, pos);
        },
        Err(_) => {},
    }
}

/// The parser below one binary-precedence level observes the span
/// discipline.
#[verifier::rlimit(100)]
#[verifier::spinoff_prover]
pub proof fn lemma_wf_below(src: Seq<u8>, toks: Seq<Token>, level: int, pos: int, last: CodeSpan)
    requires
        tokens_wf(toks, src.len() as int),
    ensures
        sp_below(src, toks, level, pos, last) matches Ok(a) ==> node_props(
            toks,
            pos,
            a.0.span,
            a.0.wf(),
            a.1,
            a.2,
        ),
    decreases rem(toks, pos), rank_below(level),
{
    reveal_with_fuel(sp_below, 1);
    if level == 7 {
        lemma_wf_binop(src, toks, 6, pos, last);
    } else if level == 6 {
        lemma_wf_binop(src, toks, 5, pos, last);
    } else if level == 5 {
        lemma_wf_binop(src, toks, 4, pos, last);
    } else {
        lemma_wf_unary(src, toks, pos, last);
    }
}

/// An expression observes the span discipline.
#[verifier::spinoff_prover]
pub proof fn lemma_wf_expr(src: Seq<u8>, toks: Seq<Token>, pos: int, last: CodeSpan)
    requires
        tokens_wf(toks, src.len() as int),
    ensures
        sp_expr(src, toks, pos, last) matches Ok(a) ==> node_props(
            toks,
            pos,
            a.0.span,
            a.0.wf(),
            a.1,
            a.2,
        ),
    decreases rem(toks, pos), 30int,
{
    reveal_with_fuel(sp_expr, 1);
    lemma_wf_binop(src, toks, 7, pos, last);
}

/// One conditional clause observes the span discipline: its span runs from
/// its `if` token through its then branch.
#[verifier::rlimit(100)]
#[verifier::spinoff_prover]
pub proof fn lemma_wf_if_then(
    src: Seq<u8>,
    toks: Seq<Token>,
    if_token: Token,
    pos: int,
    last: CodeSpan,
    it_idx: int,
)
    requires
        tokens_wf(toks, src.len() as int),
        0 <= it_idx < pos,
        it_idx < toks.len(),
        toks[it_idx] == if_token,
    ensures
        sp_if_then(src, toks, if_token, pos, last) matches Ok(a) ==> ({
            &&& pos < a.1 <= toks.len()
            &&& a.0.wf()
            &&& a.0.span.start == if_token.span.start
            &&& a.0.span.src_id == if_token.span.src_id
            &&& a.0.span.end <= toks[a.1 - 1].span.end
            &&& a.2 == toks[a.1 - 1].span
        }),
    decreases rem(toks, pos), 32int,
{
    reveal(tokens_wf);
    reveal_with_fuel(sp_if_then, 1);
    lemma_wf_expr(src, toks, pos, last);
    match sp_expr(src, toks, pos, last) {
        Ok((cond, p1, l1)) => {
            lemma_skips(toks, p1, l1);
            match sp_skips(toks, p1, l1) {
                Ok((tt, p2, l2)) => {
                    if tt.kind == TokenKind::Then {
                        lemma_wf_expr(src, toks, step(toks, pos, p2), tt.span);
                    }
                },
                Err(_) => {},
            }
        },
        Err(_) => {},
    }
}

/// The conditional chain's continuation preserves the span discipline:
/// every clause and the optional else branch stay between `lo` and the
/// last consumed token.
#[verifier::rlimit(100)]
#[verifier::spinoff_prover]
pub proof fn lemma_wf_if_rest(
    src: Seq<u8>,
    toks: Seq<Token>,
    chain: Seq<SpecIfThen>,
    cur: int,
    last: CodeSpan,
    lo: int,
)
    requires
        tokens_wf(toks, src.len() as int),
        1 <= cur,
        cur - 1 < toks.len(),
        last == toks[cur - 1].span,
        lo <= toks[cur - 1].span.end,
        forall|k: int|
            0 <= k < chain.len() ==> (#[trigger] chain[k]).wf() && lo <= chain[k].span.start
                && chain[k].span.end <= toks[cur - 1].span.end && chain[k].span.src_id == toks[cur
                - 1].span.src_id,
    ensures
        sp_if_rest(src, toks, chain, cur, last) matches Ok(b) ==> ({
            &&& cur <= b.2 <= toks.len()
            &&& 1 <= b.2
            &&& b.2 - 1 < toks.len()
            &&& b.3 == toks[b.2 - 1].span
            &&& lo <= toks[b.2 - 1].span.end
            &&& b.0.len() >= chain.len()
            &&& forall|k: int| 0 <= k < chain.len() ==> #[trigger] b.0[k] == chain[k]
            &&& forall|k: int|
                0 <= k < b.0.len() ==> (#[trigger] b.0[k]).wf() && lo <= b.0[k].span.start
                    && b.0[k].span.end <= toks[b.2 - 1].span.end && b.0[k].span.src_id == toks[b.2
                    - 1].span.src_id
            &&& match b.1 {
                Some(eb) => eb.expr.wf() && eb.span.wf() && eb.span.contains(eb.expr.span) && lo
                    <= eb.span.start && eb.span.end <= toks[b.2 - 1].span.end && eb.span.src_id
                    == toks[b.2 - 1].span.src_id,
                None => true,
            }
        }),
    decreases rem(toks, cur), 8int,
{
    reveal(tokens_wf);
    reveal_with_fuel(sp_if_rest, 1);
    lemma_skips(toks, cur, last);
    match sp_skips(toks, cur, last) {
        Ok((et, pe, le)) => {
            if et.kind == TokenKind::Else {
                lemma_skips(toks, pe, le);
                match sp_skips(toks, pe, le) {
                    Ok((eit, pei, lei)) => {
                        if eit.kind != TokenKind::If {
                            lemma_wf_expr(src, toks, step(toks, cur, pe), le);
                        } else {
                            lemma_wf_if_then(
                                src,
                                toks,
                                eit,
                                step(toks, cur, pei),
                                eit.span,
                                pei - 1,
                            );
                            match sp_if_then(src, toks, eit, step(toks, cur, pei), eit.span) {
                                Ok((it, p2, l2)) => {
                                    lemma_wf_if_rest(
                                        src,
                                        toks,
                                        chain.push(it),
                                        step(toks, cur, p2),
                                        l2,
                                        lo,
                                    );
                                },
                                Err(_) => {},
                            }
                        }
                    },
                    Err(_) => {},
                }
            }
        },
        Err(_) => {},
    }
}

/// A conditional chain observes the span discipline.
#[verifier::rlimit(100)]
#[verifier::spinoff_prover]
pub proof fn lemma_wf_if_expr(src: Seq<u8>, toks: Seq<Token>, pos: int, last: CodeSpan)
    requires
        tokens_wf(toks, src.len() as int),
    ensures
        sp_if_expr(src, toks, pos, last) matches Ok(a) ==> node_props(
            toks,
            pos,
            a.0.span,
            a.0.wf(),
            a.1,
            a.2,
        ),
    decreases rem(toks, pos), 9int,
{
    reveal(tokens_wf);
    reveal_with_fuel(sp_if_expr, 1);
    lemma_skips(toks, pos, last);
    match sp_skips(toks, pos, last) {
        Ok((ift, p, l)) => {
            if ift.kind == TokenKind::If {
                lemma_wf_if_then(src, toks, ift, step(toks, pos, p), ift.span, p - 1);
                match sp_if_then(src, toks, ift, step(toks, pos, p), ift.span) {
                    Ok((it1, p1, l1)) => {
                        lemma_wf_if_rest(
                            src,
                            toks,
                            seq![it1],
                            step(toks, pos, p1),
                            l1,
                            ift.span.start as int,
                        );
                    },
                    Err(_) => {},
                }
            }
        },
        Err(_) => {},
    }
}

/// A primary expression observes the span discipline.
#[verifier::rlimit(100)]
#[verifier::spinoff_prover]
pub proof fn lemma_wf_primary(src: Seq<u8>, toks: Seq<Token>, pos: int, last: CodeSpan)
    requires
        tokens_wf(toks, src.len() as int),
    ensures
        sp_primary(src, toks, pos, last) matches Ok(a) ==> node_props(
            toks,
            pos,
            a.0.span,
            a.0.wf(),
            a.1,
            a.2,
        ),
    decreases rem(toks, pos), 10int,
{
    reveal_with_fuel(sp_primary, 1);
    lemma_wf_block(src, toks, pos, last);
    lemma_wf_parented(src, toks, pos, last);
    lemma_wf_if_expr(src, toks, pos, last);
    lemma_wf_lit(src, toks, pos, last);
    lemma_wf_ident_expr(src, toks, pos, last);
}

/// An empty statement observes the span discipline.
#[verifier::spinoff_prover]
pub proof fn lemma_wf_empty(src: Seq<u8>, toks: Seq<Token>, pos: int, last: CodeSpan)
    requires
        tokens_wf(toks, src.len() as int),
    ensures
        sp_empty(toks, pos, last) matches Ok(a) ==> node_props(
            toks,
            pos,
            a.0.span,
            a.0.wf(),
            a.1,
            a.2,
        ),
{
    reveal(tokens_wf);
    reveal(sp_empty);
    lemma_skips(toks, pos, last);
}

/// A break or continue statement observes the span discipline.
#[verifier::spinoff_prover]
pub proof fn lemma_wf_break_continue(src: Seq<u8>, toks: Seq<Token>, pos: int, last: CodeSpan)
    requires
        tokens_wf(toks, src.len() as int),
    ensures
        sp_break_continue(toks, pos, last) matches Ok(a) ==> node_props(
            toks,
            pos,
            a.0.span,
            a.0.wf(),
            a.1,
            a.2,
        ),
{
    reveal(tokens_wf);
    reveal(sp_break_continue);
    lemma_skips(toks, pos, last);
    match sp_skips(toks, pos, last) {
        Ok((t, p, l)) => {
            if t.kind == TokenKind::Break || t.kind == TokenKind::Continue {
                lemma_semi(toks, p, t.span);
            }
        },
        Err(_) => {},
    }
}

/// An assignment statement observes the span discipline.
#[verifier::rlimit(100)]
#[verifier::spinoff_prover]
pub proof fn lemma_wf_assign(src: Seq<u8>, toks: Seq<Token>, pos: int, last: CodeSpan)
    requires
        tokens_wf(toks, src.len() as int),
    ensures
        sp_assign(src, toks, pos, last) matches Ok(a) ==> node_props(
            toks,
            pos,
            a.0.span,
            a.0.wf(),
            a.1,
            a.2,
        ),
    decreases rem(toks, pos), 37int,
{
    reveal(tokens_wf);
    reveal_with_fuel(sp_assign, 1);
    lemma_skips(toks, pos, last);
    match sp_skips(toks, pos, last) {
        Ok((id, p0, l0)) => {
            if id.kind == TokenKind::Ident && p0 < toks.len() {
                lemma_skips(toks, p0, id.span);
                match sp_skips(toks, p0, id.span) {
                    Ok((opt, p1, l1)) => {
                        if opt.kind == TokenKind::Assign {
                            lemma_wf_expr(src, toks, step(toks, pos, p1), opt.span);
                            match sp_expr(src, toks, step(toks, pos, p1), opt.span) {
                                Ok((right, p2, l2)) => {
                                    lemma_skips(toks, p2, l2);
                                    lemma_semi(toks, p2, l2);
                                },
                                Err(_) => {},
                            }
                        }
                    },
                    Err(_) => {},
                }
            }
        },
        Err(_) => {},
    }
}

/// A return statement observes the span discipline.
#[verifier::rlimit(100)]
#[verifier::spinoff_prover]
pub proof fn lemma_wf_return(src: Seq<u8>, toks: Seq<Token>, pos: int, last: CodeSpan)
    requires
        tokens_wf(toks, src.len() as int),
    ensures
        sp_return(src, toks, pos, last) matches Ok(a) ==> node_props(
            toks,
            pos,
            a.0.span,
            a.0.wf(),
            a.1,
            a.2,
        ),
    decreases rem(toks, pos), 37int,
{
    reveal(tokens_wf);
    reveal_with_fuel(sp_return, 1);
    lemma_skips(toks, pos, last);
    match sp_skips(toks, pos, last) {
        Ok((t, p, l)) => {
            if t.kind == TokenKind::Return {
                lemma_wf_expr(src, toks, step(toks, pos, p), t.span);
                match sp_expr(src, toks, step(toks, pos, p), t.span) {
                    Ok((ex, p1, l1)) => {
                        lemma_semi(toks, p1, l1);
                    },
                    Err(_) => {},
                }
            }
        },
        Err(_) => {},
    }
}

/// A for statement observes the span discipline.
#[verifier::rlimit(100)]
#[verifier::spinoff_prover]
pub proof fn lemma_wf_for(src: Seq<u8>, toks: Seq<Token>, pos: int, last: CodeSpan)
    requires
        tokens_wf(toks, src.len() as int),
    ensures
        sp_for(src, toks, pos, last) matches Ok(a) ==> node_props(
            toks,
            pos,
            a.0.span,
            a.0.wf(),
            a.1,
            a.2,
        ),
    decreases rem(toks, pos), 37int,
{
    reveal(tokens_wf);
    reveal_with_fuel(sp_for, 1);
    lemma_skips(toks, pos, last);
    match sp_skips(toks, pos, last) {
        Ok((ft, p0, l0)) => {
            if ft.kind == TokenKind::For {
                lemma_skips(toks, p0, ft.span);
                match sp_skips(toks, p0, ft.span) {
                    Ok((id, p1, l1)) => {
                        if id.kind == TokenKind::Ident {
                            lemma_skips(toks, p1, id.span);
                            match sp_skips(toks, p1, id.span) {
                                Ok((int_t, p2, l2)) => {
                                    if int_t.kind == TokenKind::In {
                                        lemma_wf_expr(
                                            src,
                                            toks,
                                            step(toks, pos, p2),
                                            int_t.span,
                                        );
                                        match sp_expr(src, toks, step(toks, pos, p2), int_t.span) {
                                            Ok((iter, p3, l3)) => {
                                                lemma_wf_expr(src, toks, step(toks, pos, p3), l3);
                                                match sp_expr(src, toks, step(toks, pos, p3), l3) {
                                                    Ok((bod, p4, l4)) => {
                                                        lemma_semi(toks, p4, l4);
                                                    },
                                                    Err(_) => {},
                                                }
                                            },
                                            Err(_) => {},
                                        }
                                    }
                                },
                                Err(_) => {},
                            }
                        }
                    },
                    Err(_) => {},
                }
            }
        },
        Err(_) => {},
    }
}

/// A function definition observes the span discipline.
#[verifier::rlimit(100)]
#[verifier::spinoff_prover]
pub proof fn lemma_wf_def(src: Seq<u8>, toks: Seq<Token>, pos: int, last: CodeSpan)
    requires
        tokens_wf(toks, src.len() as int),
    ensures
        sp_def(src, toks, pos, last) matches Ok(a) ==> node_props(
            toks,
            pos,
            a.0.span,
            a.0.wf(),
            a.1,
            a.2,
        ),
    decreases rem(toks, pos), 37int,
{
    reveal(tokens_wf);
    reveal_with_fuel(sp_def, 1);
    lemma_skips(toks, pos, last);
    match sp_skips(toks, pos, last) {
        Ok((dt, p0, l0)) => {
            if dt.kind == TokenKind::Def {
                lemma_skips(toks, p0, dt.span);
                match sp_skips(toks, p0, dt.span) {
                    Ok((id, p1, l1)) => {
                        if id.kind == TokenKind::Ident {
                            lemma_wf_args(src, toks, step(toks, pos, p1), id.span);
                            match sp_args(src, toks, step(toks, pos, p1), id.span) {
                                Ok(((ars, args_span), p2, l2)) => {
                                    lemma_wf_expr(src, toks, step(toks, pos, p2), l2);
                                    match sp_expr(src, toks, step(toks, pos, p2), l2) {
                                        Ok((bod, p3, l3)) => {
                                            lemma_semi(toks, p3, l3);
                                        },
                                        Err(_) => {},
                                    }
                                },
                                Err(_) => {},
                            }
                        }
                    },
                    Err(_) => {},
                }
            }
        },
        Err(_) => {},
    }
}

/// An extern declaration observes the span discipline.
#[verifier::rlimit(100)]
#[verifier::spinoff_prover]
pub proof fn lemma_wf_extern(src: Seq<u8>, toks: Seq<Token>, pos: int, last: CodeSpan)
    requires
        tokens_wf(toks, src.len() as int),
    ensures
        sp_extern(src, toks, pos, last) matches Ok(a) ==> node_props(
            toks,
            pos,
            a.0.span,
            a.0.wf(),
            a.1,
            a.2,
        ),
    decreases rem(toks, pos), 37int,
{
    reveal(tokens_wf);
    reveal_with_fuel(sp_extern, 1);
    lemma_skips(toks, pos, last);
    match sp_skips(toks, pos, last) {
        Ok((et, p0, l0)) => {
            if et.kind == TokenKind::Extern {
                lemma_skips(toks, p0, et.span);
                match sp_skips(toks, p0, et.span) {
                    Ok((id, p1, l1)) => {
                        if id.kind == TokenKind::Ident {
                            lemma_wf_args(src, toks, step(toks, pos, p1), id.span);
                            match sp_args(src, toks, step(toks, pos, p1), id.span) {
                                Ok(((ars, args_span), p2, l2)) => {
                                    lemma_skips(toks, p2, l2);
                                },
                                Err(_) => {},
                            }
                        }
                    },
                    Err(_) => {},
                }
            }
        },
        Err(_) => {},
    }
}

/// A statement observes the span discipline.
#[verifier::rlimit(100)]
#[verifier::spinoff_prover]
pub proof fn lemma_wf_stmt(src: Seq<u8>, toks: Seq<Token>, pos: int, last: CodeSpan)
    requires
        tokens_wf(toks, src.len() as int),
    ensures
        sp_stmt(src, toks, pos, last) matches Ok(a) ==> node_props(
            toks,
            pos,
            a.0.span,
            a.0.wf(),
            a.1,
            a.2,
        ),
    decreases rem(toks, pos), 38int,
{
    reveal_with_fuel(sp_stmt, 1);
    lemma_wf_empty(src, toks, pos, last);
    lemma_wf_assign(src, toks, pos, last);
    lemma_wf_return(src, toks, pos, last);
    lemma_wf_break_continue(src, toks, pos, last);
    lemma_wf_for(src, toks, pos, last);
    lemma_wf_def(src, toks, pos, last);
    lemma_wf_extern(src, toks, pos, last);
    lemma_wf_expr(src, toks, pos, last);
    reveal(tokens_wf);
    match sp_expr(src, toks, pos, last) {
        Ok((ex, p1, l1)) => {
            lemma_semi(toks, p1, l1);
        },
        Err(_) => {},
    }
}

/// Every statement of the unit observes the span discipline.
#[verifier::rlimit(100)]
#[verifier::spinoff_prover]
pub proof fn lemma_wf_ast(src: Seq<u8>, toks: Seq<Token>, pos: int, last: CodeSpan)
    requires
        tokens_wf(toks, src.len() as int),
    ensures
        sp_ast(src, toks, pos, last) matches Ok(b) ==> forall|k: int|
            0 <= k < b.len() ==> (#[trigger] b[k]).wf(),
    decreases rem(toks, pos), 40int,
{
    reveal_with_fuel(sp_ast, 1);
    match sp_skips(toks, pos, last) {
        Err(_) => {},
        Ok(_) => {
            lemma_wf_stmt(src, toks, pos, last);
            match sp_stmt(src, toks, pos, last) {
                Ok((st, p1, l1)) => {
                    lemma_wf_ast(src, toks, step(toks, pos, p1), l1);
                    match sp_ast(src, toks, step(toks, pos, p1), l1) {
                        Ok(rest) => {
                            assert forall|k: int|
                                0 <= k < (seq![st] + rest).len() implies (#[trigger] (seq![st]
                                + rest)[k]).wf() by {
                                if k >= 1 {
                                    assert((seq![st] + rest)[k] == rest[k - 1]);
                                }
                            }
                        },
                        Err(_) => {},
                    }
                },
                Err(_) => {},
            }
        },
    }
}

/// Span containment: every statement in a successfully parsed unit is well
/// formed — its span is ordered and contains the span of every child node,
/// recursively.
#[verifier::spinoff_prover]
pub proof fn lemma_parse_ast_wf(src: Seq<u8>, toks: Seq<Token>)
    requires
        tokens_wf(toks, src.len() as int),
    ensures
        sp_parse_ast(src, toks) matches Ok(b) ==> forall|k: int|
            0 <= k < b.len() ==> (#[trigger] b[k]).wf(),
{
    lemma_wf_ast(src, toks, 0, CodeSpan::spec_zero());
}

} // verus!
