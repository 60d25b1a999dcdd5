use kslang::ast::{Expr, ExprKind, Stmt, StmtKind};
use kslang::grammar::ParseError;
use kslang::lexer::Lexer;
use kslang::parser::parse_ast;
use kslang::source::{Source, SourceSequence};
use kslang::parser::parse_source;
use kslang::token::{Operator, Token};

fn parse_str(text: &str) -> Result<Vec<Stmt>, ParseError> {
    let mut srcs = SourceSequence::new();
    let id = srcs.add(Source::Literal(text.to_string()));
    let mut lexer = Lexer::new(id, &srcs);
    let tokens: Vec<Token> = lexer
        .lex_all()
        .into_iter()
        .map(|r| r.expect("unexpected lexical error"))
        .collect();
    let src_bytes = text.as_bytes().to_vec();
    parse_ast(&src_bytes, &tokens)
}

/// The operator structure of an expression, with spans erased.
fn shape(e: &Expr) -> String {
    match &e.kind {
        ExprKind::Ident => "id".to_string(),
        ExprKind::Ellipsis => "ellipsis".to_string(),
        ExprKind::Lit => "lit".to_string(),
        ExprKind::Parented(inner) => format!("({})", shape(inner)),
        ExprKind::Block(stmts) => format!("block[{}]", stmts.len()),
        ExprKind::Call { args, .. } => format!("call/{}", args.len()),
        ExprKind::UnOp { op, arg, .. } => format!("{:?}({})", op, shape(arg)),
        ExprKind::BinOp { op, left, right, .. } => {
            format!("{:?}({},{})", op, shape(left), shape(right))
        }
        ExprKind::If { if_then_exprs, else_branch, .. } => format!(
            "if/{}{}",
            if_then_exprs.len(),
            if else_branch.is_some() { "+else" } else { "" }
        ),
        ExprKind::For { .. } => "for".to_string(),
    }
}

fn expr_of(stmt: &Stmt) -> &Expr {
    match &stmt.kind {
        StmtKind::Expr(e) => e,
        other => panic!("expected an expression statement, got {:?}", other),
    }
}

#[test]
fn multiplication_binds_tighter_on_the_right() {
    let ast = parse_str("1 + 2 * 3").unwrap();
    assert_eq!(ast.len(), 1);
    assert_eq!(shape(expr_of(&ast[0])), "Add(lit,Mul(lit,lit))");
}

#[test]
fn multiplication_binds_tighter_on_the_left() {
    let ast = parse_str("1 * 2 + 3").unwrap();
    assert_eq!(shape(expr_of(&ast[0])), "Add(Mul(lit,lit),lit)");
}

#[test]
fn negation_binds_tighter_than_addition() {
    let ast = parse_str("-1 + 2").unwrap();
    assert_eq!(shape(expr_of(&ast[0])), "Add(Sub(lit),lit)");
}

#[test]
fn bare_identifier_parses_as_a_reference() {
    let ast = parse_str("foo").unwrap();
    assert_eq!(shape(expr_of(&ast[0])), "id");
}

#[test]
fn empty_and_two_argument_calls() {
    let ast = parse_str("foo(); foo(1, 2)").unwrap();
    assert_eq!(ast.len(), 2);
    assert_eq!(shape(expr_of(&ast[0])), "call/0");
    assert_eq!(shape(expr_of(&ast[1])), "call/2");
}

#[test]
fn unterminated_argument_list_is_a_committed_error() {
    // never a fallback to a bare identifier reference
    let err = parse_str("foo(1,2").unwrap_err();
    assert!(matches!(err, ParseError::UnexpectedEnd(_)), "{:?}", err);
}

#[test]
fn if_with_else_is_accepted_as_def_body() {
    let ast = parse_str("def f() if a then 1 else 2;").unwrap();
    assert!(matches!(ast[0].kind, StmtKind::Def { .. }));
}

#[test]
fn if_without_else_is_rejected_as_def_body() {
    let err = parse_str("def f() if a then 1;").unwrap_err();
    match err {
        ParseError::DefBodyError(inner) => {
            assert!(matches!(*inner, ParseError::NotEvalable(_)), "{:?}", inner)
        }
        other => panic!("expected DefBodyError, got {:?}", other),
    }
}

#[test]
fn assignment_right_side_must_be_evalable() {
    let err = parse_str("x = {}").unwrap_err();
    match err {
        ParseError::AssignRightExprError(inner) => {
            assert!(matches!(*inner, ParseError::NotEvalable(_)), "{:?}", inner)
        }
        other => panic!("expected AssignRightExprError, got {:?}", other),
    }
}

#[test]
fn consecutive_assignment_is_rejected() {
    let err = parse_str("x = 1 = 2").unwrap_err();
    assert!(matches!(err, ParseError::ConsecutiveAssignError(_)), "{:?}", err);
}

#[test]
fn underscored_literal_lexes_but_fails_numeric_conversion() {
    let err = parse_str("1_0").unwrap_err();
    assert!(matches!(err, ParseError::FloatError(_)), "{:?}", err);
}

#[test]
fn committed_errors_propagate_out_of_blocks() {
    let err = parse_str("{ def f( }").unwrap_err();
    assert!(matches!(err, ParseError::DefArgsError(_)), "{:?}", err);
}

#[test]
fn blocks_and_statement_forms_parse() {
    let ast = parse_str("extern g(a, b); def f(x) { g(x, 1); x }; for i in xs f(i); return 0;")
        .unwrap();
    assert_eq!(ast.len(), 4);
    assert!(matches!(ast[0].kind, StmtKind::Extern { .. }));
    assert!(matches!(ast[1].kind, StmtKind::Def { .. }));
    assert!(matches!(ast[2].kind, StmtKind::For { .. }));
    assert!(matches!(ast[3].kind, StmtKind::Return(_)));
}

#[test]
fn else_if_chains_collect_clauses() {
    let ast = parse_str("if a then 1 else if b then 2 else 3").unwrap();
    assert_eq!(shape(expr_of(&ast[0])), "if/2+else");
}

#[test]
fn extra_whitespace_and_comments_do_not_change_the_shape() {
    let plain = parse_str("1+2*3").unwrap();
    let spaced = parse_str("  1 + # note\n 2   *\t3 ").unwrap();
    assert_eq!(shape(expr_of(&plain[0])), shape(expr_of(&spaced[0])));
}

#[test]
fn spans_of_nodes_contain_their_children() {
    let ast = parse_str("x = 1 + 2;").unwrap();
    let (left, right) = match &ast[0].kind {
        StmtKind::Assign { left, right, .. } => (left, right),
        other => panic!("expected an assignment, got {:?}", other),
    };
    let span = ast[0].span;
    assert!(span.start <= left.span.start && left.span.end <= span.end);
    assert!(span.start <= right.span.start && right.span.end <= span.end);
    match &right.kind {
        ExprKind::BinOp { op, left: l, right: r, .. } => {
            assert_eq!(*op, Operator::Add);
            assert!(right.span.start <= l.span.start && l.span.end <= right.span.end);
            assert!(right.span.start <= r.span.start && r.span.end <= right.span.end);
        }
        other => panic!("expected an addition, got {:?}", other),
    }
}

#[test]
fn parse_source_reports_lexical_errors_and_parses_the_rest() {
    let mut srcs = SourceSequence::new();
    let id = srcs.add(Source::Literal("x = 1 $$ ;".to_string()));
    let (errors, parsed) = parse_source(&srcs, id);
    assert_eq!(errors.len(), 1);
    assert_eq!(errors[0].start, 6);
    assert_eq!(errors[0].end, 8);
    assert_eq!(srcs.get_text(errors[0]), "$$");
    // the recognised tokens still parse: `x = 1 ;`
    let ast = parsed.unwrap();
    assert_eq!(ast.len(), 1);
    assert!(matches!(ast[0].kind, StmtKind::Assign { .. }));
}

#[test]
fn parse_source_parses_a_clean_program() {
    let mut srcs = SourceSequence::new();
    let id = srcs.add(Source::Literal("def f(a) a + 1;".to_string()));
    let (errors, parsed) = parse_source(&srcs, id);
    assert!(errors.is_empty());
    let ast = parsed.unwrap();
    assert_eq!(ast.len(), 1);
    assert!(matches!(ast[0].kind, StmtKind::Def { .. }));
}

#[test]
fn empty_and_nested_blocks_still_parse() {
    // the block's statement list ends at the closing brace without a
    // committed error
    let ast = parse_str("{}").unwrap();
    assert_eq!(shape(expr_of(&ast[0])), "block[0]");
    let ast2 = parse_str("{ 1; { 2; x } }").unwrap();
    assert_eq!(shape(expr_of(&ast2[0])), "block[2]");
}

#[test]
fn unterminated_block_reports_the_end_of_input() {
    let err = parse_str("{ x").unwrap_err();
    assert!(matches!(err, ParseError::UnexpectedEnd(_)), "{:?}", err);
}
