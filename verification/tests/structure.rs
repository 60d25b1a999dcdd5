use kslang::analyzer::{Analyzer, Scope, arity_ok};
use kslang::ast::{ElseExpr, Expr, ExprKind, IfThenExpr, Stmt, StmtKind, is_evalable};
use kslang::span::CodeSpan;
use kslang::tokenizer::{Keyword, LexUnit, Operator, Punctuation, TokenizeError};

fn sp(start: usize, end: usize) -> CodeSpan {
    CodeSpan { line: 0, src_id: 0, start, end }
}

fn lit(start: usize, end: usize) -> Expr {
    Expr { kind: ExprKind::Lit, span: sp(start, end) }
}

#[test]
fn literals_idents_and_operations_are_evalable() {
    assert!(is_evalable(&lit(0, 1)));
    assert!(is_evalable(&Expr { kind: ExprKind::Ident, span: sp(0, 1) }));
    let bin = Expr {
        kind: ExprKind::BinOp {
            op: kslang::token::Operator::Add,
            op_span: sp(2, 3),
            left: Box::new(lit(0, 1)),
            right: Box::new(lit(4, 5)),
        },
        span: sp(0, 5),
    };
    assert!(is_evalable(&bin));
}

#[test]
fn if_chain_needs_an_evalable_else_branch() {
    // `if a then 1 else 2` is evalable; `if a then 1` is not.
    let clause = IfThenExpr {
        cond: Expr { kind: ExprKind::Ident, span: sp(3, 4) },
        then_expr: lit(10, 11),
        span: sp(0, 11),
    };
    let with_else = Expr {
        kind: ExprKind::If {
            if_then_exprs: vec![clause],
            if_then_span: sp(0, 11),
            else_branch: Some(Box::new(ElseExpr { expr: lit(17, 18), span: sp(12, 18) })),
        },
        span: sp(0, 18),
    };
    assert!(is_evalable(&with_else));

    let clause2 = IfThenExpr {
        cond: Expr { kind: ExprKind::Ident, span: sp(3, 4) },
        then_expr: lit(10, 11),
        span: sp(0, 11),
    };
    let without_else = Expr {
        kind: ExprKind::If {
            if_then_exprs: vec![clause2],
            if_then_span: sp(0, 11),
            else_branch: None,
        },
        span: sp(0, 11),
    };
    assert!(!is_evalable(&without_else));
}

#[test]
fn blocks_take_their_value_from_the_last_statement() {
    let empty_block = Expr { kind: ExprKind::Block(vec![]), span: sp(0, 2) };
    assert!(!is_evalable(&empty_block));

    let value_block = Expr {
        kind: ExprKind::Block(vec![Stmt { kind: StmtKind::Expr(lit(1, 2)), span: sp(1, 2) }]),
        span: sp(0, 3),
    };
    assert!(is_evalable(&value_block));

    let break_block = Expr {
        kind: ExprKind::Block(vec![Stmt { kind: StmtKind::Break, span: sp(1, 6) }]),
        span: sp(0, 7),
    };
    assert!(!is_evalable(&break_block));
}

#[test]
fn parenthesized_evalability_follows_the_inner_expression() {
    let inner_bad = Expr { kind: ExprKind::Block(vec![]), span: sp(1, 3) };
    let parented = Expr { kind: ExprKind::Parented(Box::new(inner_bad)), span: sp(0, 4) };
    assert!(!is_evalable(&parented));

    let parented_ok = Expr { kind: ExprKind::Parented(Box::new(lit(1, 2))), span: sp(0, 3) };
    assert!(is_evalable(&parented_ok));
}

#[test]
fn arity_check_accepts_exact_or_vararg_only() {
    // fixed arity: only the declared parameter count passes
    assert!(arity_ok(2, false, 2));
    assert!(!arity_ok(2, false, 1));
    assert!(!arity_ok(2, false, 3));
    // an extern vararg declaration accepts any count
    assert!(arity_ok(2, true, 0));
    assert!(arity_ok(2, true, 7));
}

#[test]
fn analyzer_scopes_form_a_rooted_tree() {
    let mut a = Analyzer::new();
    assert_eq!(a.scopes.len(), 1);
    assert!(a.scopes[0].parent.is_none());
    let child = a.open_scope(0);
    assert_eq!(child, 1);
    assert_eq!(a.scopes[child].parent, Some(0));
    let grandchild = a.open_scope(child);
    assert_eq!(a.scopes[grandchild].parent, Some(child));
}

#[test]
fn fresh_scopes_hold_no_bindings() {
    let s = Scope::new(Some(3));
    assert_eq!(s.parent, Some(3));
    assert!(s.locals.is_empty());
    assert!(s.cells.is_empty());
    assert!(s.outers.is_empty());
}

#[test]
fn lex_units_classify_into_disjoint_groups() {
    assert!(LexUnit::Def.is_keyword());
    assert!(!LexUnit::Def.is_operator());
    assert!(!LexUnit::Def.is_punctuation());
    assert!(LexUnit::Mod.is_operator());
    assert!(LexUnit::Semicolon.is_punctuation());
    assert!(!LexUnit::Ident.is_keyword());
    assert!(!LexUnit::NewLine.is_operator());
}

#[test]
fn unit_texts_match_their_sources() {
    assert_eq!(Keyword::Extern.as_str(), "extern");
    assert_eq!(Operator::Ge.as_str(), ">=");
    assert_eq!(Operator::Mod.as_str(), "%");
    assert_eq!(Punctuation::CloseParen.as_str(), ")");
}

#[test]
fn tokenize_errors_carry_their_location() {
    let e = TokenizeError::UnmatchedUnit(3, 5);
    assert_eq!(e.location(), (3, 5));
    let e2 = TokenizeError::NumberParseError(7, 9);
    assert_eq!(e2.location(), (7, 9));
}
