use vstd::prelude::*;
use crate::span::CodeSpan;
use crate::token::Operator;

verus! {

/// One `if cond then expr` clause of a conditional chain.
#[derive(Debug, PartialEq)]
pub struct IfThenExpr {
    pub cond: Expr,
    pub then_expr: Expr,
    /// `... if cond then then_expr ...`
    /// `    ^^^^^^^^^^^^^^^^^^^^^^^^`
    pub span: CodeSpan,
}

/// The unconditional terminal branch of a conditional chain.
#[derive(Debug, PartialEq)]
pub struct ElseExpr {
    pub expr: Expr,
    /// `... else else_branch`
    /// `    ^^^^^^^^^^^^^^^^`
    pub span: CodeSpan,
}

/// Expression forms.  An identifier or literal carries no payload: its text
/// is the slice of the source addressed by the node's span.
#[derive(Debug, PartialEq)]
pub enum ExprKind {
    Ident,
    Ellipsis,
    /// A numeric literal whose text was successfully validated as a number.
    Lit,
    Parented(Box<Expr>),
    Block(Vec<Stmt>),
    /// `foo(x, y, z)`
    Call {
        callee: Box<Expr>,
        args: Vec<Expr>,
        /// `foo(x, y, z)`
        /// `   ^^^^^^^^^`
        args_span: CodeSpan,
    },
    /// `-x` | `!y`
    UnOp {
        op: Operator,
        /// `-x`
        /// `^`
        op_span: CodeSpan,
        arg: Box<Expr>,
    },
    /// `x + y`
    BinOp {
        op: Operator,
        /// `x + y`
        /// `  ^`
        op_span: CodeSpan,
        left: Box<Expr>,
        right: Box<Expr>,
    },
    If {
        if_then_exprs: Vec<IfThenExpr>,
        /// span of the chained `if .. then ..` clauses, without the
        /// terminal else branch
        if_then_span: CodeSpan,
        else_branch: Option<Box<ElseExpr>>,
    },
    /// A loop in expression position; it executes for effect only.
    For {
        loop_var: Box<Expr>,
        loop_iter: Box<Expr>,
        head_span: CodeSpan,
        loop_body: Box<Expr>,
    },
}

/// An expression together with its full-extent span.
#[derive(Debug, PartialEq)]
pub struct Expr {
    pub kind: ExprKind,
    pub span: CodeSpan,
}

/// Statement forms.
#[derive(Debug, PartialEq)]
pub enum StmtKind {
    Assign {
        left: Expr,
        right: Expr,
        /// `x = y`
        /// `  ^`
        assign_span: CodeSpan,
    },
    Break,
    Continue,
    Def {
        ident: Expr,
        args: Vec<Expr>,
        /// `def add(a, b) a + b`
        /// `       ^^^^^^`
        args_span: CodeSpan,
        body: Expr,
        /// `def add(a, b) a + b`
        /// `              ^^^^^`
        body_span: CodeSpan,
    },
    Empty,
    Expr(Expr),
    /// `extern add(a, b);`
    Extern {
        ident: Expr,
        args: Vec<Expr>,
        /// `extern add(a, b);`
        /// `          ^^^^^^`
        args_span: CodeSpan,
    },
    For {
        loop_var: Box<Expr>,
        loop_iter: Box<Expr>,
        head_span: CodeSpan,
        loop_body: Box<Expr>,
    },
    Return(Expr),
}

/// A statement together with its full-extent span.
#[derive(Debug, PartialEq)]
pub struct Stmt {
    pub kind: StmtKind,
    pub span: CodeSpan,
}

// ===================================================================
// The mathematical model of the tree
// ===================================================================
/// Model of one `if cond then expr` clause.
pub struct SpecIfThen {
    pub cond: Box<SpecExpr>,
    pub then_expr: Box<SpecExpr>,
    pub span: CodeSpan,
}

/// Model of a terminal else branch.
pub struct SpecElse {
    pub expr: Box<SpecExpr>,
    pub span: CodeSpan,
}

/// Model of an expression form.
pub enum SpecExprKind {
    Ident,
    Ellipsis,
    Lit,
    Parented(Box<SpecExpr>),
    Block(Seq<SpecStmt>),
    Call { callee: Box<SpecExpr>, args: Seq<SpecExpr>, args_span: CodeSpan },
    UnOp { op: Operator, op_span: CodeSpan, arg: Box<SpecExpr> },
    BinOp { op: Operator, op_span: CodeSpan, left: Box<SpecExpr>, right: Box<SpecExpr> },
    If {
        if_then_exprs: Seq<SpecIfThen>,
        if_then_span: CodeSpan,
        else_branch: Option<Box<SpecElse>>,
    },
    For {
        loop_var: Box<SpecExpr>,
        loop_iter: Box<SpecExpr>,
        head_span: CodeSpan,
        loop_body: Box<SpecExpr>,
    },
}

/// Model of an expression.
pub struct SpecExpr {
    pub kind: SpecExprKind,
    pub span: CodeSpan,
}

/// Model of a statement form.
pub enum SpecStmtKind {
    Assign { left: Box<SpecExpr>, right: Box<SpecExpr>, assign_span: CodeSpan },
    Break,
    Continue,
    Def {
        ident: Box<SpecExpr>,
        args: Seq<SpecExpr>,
        args_span: CodeSpan,
        body: Box<SpecExpr>,
        body_span: CodeSpan,
    },
    Empty,
    Expr(Box<SpecExpr>),
    Extern { ident: Box<SpecExpr>, args: Seq<SpecExpr>, args_span: CodeSpan },
    For {
        loop_var: Box<SpecExpr>,
        loop_iter: Box<SpecExpr>,
        head_span: CodeSpan,
        loop_body: Box<SpecExpr>,
    },
    Return(Box<SpecExpr>),
}

/// Model of a statement.
pub struct SpecStmt {
    pub kind: SpecStmtKind,
    pub span: CodeSpan,
}

// ===================================================================
// From tree to model
// ===================================================================
/// Model of an expression value.
pub open spec fn view_expr(e: Expr) -> SpecExpr
    decreases e,
{
    SpecExpr {
        span: e.span,
        kind: match e.kind {
            ExprKind::Ident => SpecExprKind::Ident,
            ExprKind::Ellipsis => SpecExprKind::Ellipsis,
            ExprKind::Lit => SpecExprKind::Lit,
            ExprKind::Parented(inner) => SpecExprKind::Parented(Box::new(view_expr(*inner))),
            ExprKind::Block(stmts) => SpecExprKind::Block(view_stmts(stmts@)),
            ExprKind::Call { callee, args, args_span } => SpecExprKind::Call {
                callee: Box::new(view_expr(*callee)),
                args: view_exprs(args@),
                args_span,
            },
            ExprKind::UnOp { op, op_span, arg } => SpecExprKind::UnOp {
                op,
                op_span,
                arg: Box::new(view_expr(*arg)),
            },
            ExprKind::BinOp { op, op_span, left, right } => SpecExprKind::BinOp {
                op,
                op_span,
                left: Box::new(view_expr(*left)),
                right: Box::new(view_expr(*right)),
            },
            ExprKind::If { if_then_exprs, if_then_span, else_branch } => SpecExprKind::If {
                if_then_exprs: view_if_thens(if_then_exprs@),
                if_then_span,
                else_branch: match else_branch {
                    Some(e) => Some(
                        Box::new(SpecElse { expr: Box::new(view_expr(e.expr)), span: e.span }),
                    ),
                    None => None,
                },
            },
            ExprKind::For { loop_var, loop_iter, head_span, loop_body } => SpecExprKind::For {
                loop_var: Box::new(view_expr(*loop_var)),
                loop_iter: Box::new(view_expr(*loop_iter)),
                head_span,
                loop_body: Box::new(view_expr(*loop_body)),
            },
        },
    }
}

/// Model of one conditional clause.
pub open spec fn view_if_then(x: IfThenExpr) -> SpecIfThen
    decreases x,
{
    SpecIfThen {
        cond: Box::new(view_expr(x.cond)),
        then_expr: Box::new(view_expr(x.then_expr)),
        span: x.span,
    }
}

/// Model of a statement value.
pub open spec fn view_stmt(s: Stmt) -> SpecStmt
    decreases s,
{
    SpecStmt {
        span: s.span,
        kind: match s.kind {
            StmtKind::Assign { left, right, assign_span } => SpecStmtKind::Assign {
                left: Box::new(view_expr(left)),
                right: Box::new(view_expr(right)),
                assign_span,
            },
            StmtKind::Break => SpecStmtKind::Break,
            StmtKind::Continue => SpecStmtKind::Continue,
            StmtKind::Def { ident, args, args_span, body, body_span } => SpecStmtKind::Def {
                ident: Box::new(view_expr(ident)),
                args: view_exprs(args@),
                args_span,
                body: Box::new(view_expr(body)),
                body_span,
            },
            StmtKind::Empty => SpecStmtKind::Empty,
            StmtKind::Expr(e) => SpecStmtKind::Expr(Box::new(view_expr(e))),
            StmtKind::Extern { ident, args, args_span } => SpecStmtKind::Extern {
                ident: Box::new(view_expr(ident)),
                args: view_exprs(args@),
                args_span,
            },
            StmtKind::For { loop_var, loop_iter, head_span, loop_body } => SpecStmtKind::For {
                loop_var: Box::new(view_expr(*loop_var)),
                loop_iter: Box::new(view_expr(*loop_iter)),
                head_span,
                loop_body: Box::new(view_expr(*loop_body)),
            },
            StmtKind::Return(e) => SpecStmtKind::Return(Box::new(view_expr(e))),
        },
    }
}

/// Model of a statement sequence.
pub open spec fn view_stmts(v: Seq<Stmt>) -> Seq<SpecStmt>
    decreases v,
{
    if v.len() == 0 {
        Seq::empty()
    } else {
        seq![view_stmt(v[0])] + view_stmts(v.drop_first())
    }
}

/// Model of an expression sequence.
pub open spec fn view_exprs(v: Seq<Expr>) -> Seq<SpecExpr>
    decreases v,
{
    if v.len() == 0 {
        Seq::empty()
    } else {
        seq![view_expr(v[0])] + view_exprs(v.drop_first())
    }
}

/// Model of a conditional-clause sequence.
pub open spec fn view_if_thens(v: Seq<IfThenExpr>) -> Seq<SpecIfThen>
    decreases v,
{
    if v.len() == 0 {
        Seq::empty()
    } else {
        seq![view_if_then(v[0])] + view_if_thens(v.drop_first())
    }
}

/// A statement sequence and its model line up element by element.
pub proof fn lemma_view_stmts(v: Seq<Stmt>)
    ensures
        view_stmts(v).len() == v.len(),
        forall|i: int| 0 <= i < v.len() ==> #[trigger] view_stmts(v)[i] == view_stmt(v[i]),
    decreases v.len(),
{
    if v.len() > 0 {
        lemma_view_stmts(v.drop_first());
    }
}

/// An expression sequence and its model line up element by element.
pub proof fn lemma_view_exprs(v: Seq<Expr>)
    ensures
        view_exprs(v).len() == v.len(),
        forall|i: int| 0 <= i < v.len() ==> #[trigger] view_exprs(v)[i] == view_expr(v[i]),
    decreases v.len(),
{
    if v.len() > 0 {
        lemma_view_exprs(v.drop_first());
    }
}

/// A conditional-clause sequence and its model line up element by element.
pub proof fn lemma_view_if_thens(v: Seq<IfThenExpr>)
    ensures
        view_if_thens(v).len() == v.len(),
        forall|i: int| 0 <= i < v.len() ==> #[trigger] view_if_thens(v)[i] == view_if_then(v[i]),
    decreases v.len(),
{
    if v.len() > 0 {
        lemma_view_if_thens(v.drop_first());
    }
}

// ===================================================================
// Well-formedness and the evalable rule, over the model
// ===================================================================
impl SpecExpr {
    /// Span discipline of a parsed expression: the node's span is ordered,
    /// and it contains the span of every child node.
    pub open spec fn wf(self) -> bool
        decreases self,
    {
        self.span.wf() && match self.kind {
            SpecExprKind::Ident => true,
            SpecExprKind::Ellipsis => true,
            SpecExprKind::Lit => true,
            SpecExprKind::Parented(inner) => inner.wf() && self.span.contains(inner.span),
            SpecExprKind::Block(stmts) => forall|i: int|
                0 <= i < stmts.len() ==> (#[trigger] stmts[i]).wf() && self.span.contains(
                    stmts[i].span,
                ),
            SpecExprKind::Call { callee, args, args_span } => {
                &&& callee.wf()
                &&& self.span.contains(callee.span)
                &&& self.span.contains(args_span)
                &&& forall|i: int|
                    0 <= i < args.len() ==> (#[trigger] args[i]).wf() && args_span.contains(
                        args[i].span,
                    )
            },
            SpecExprKind::UnOp { op, op_span, arg } => {
                &&& arg.wf()
                &&& self.span.contains(op_span)
                &&& self.span.contains(arg.span)
            },
            SpecExprKind::BinOp { op, op_span, left, right } => {
                &&& left.wf()
                &&& right.wf()
                &&& self.span.contains(op_span)
                &&& self.span.contains(left.span)
                &&& self.span.contains(right.span)
            },
            SpecExprKind::If { if_then_exprs, if_then_span, else_branch } => {
                &&& forall|i: int|
                    0 <= i < if_then_exprs.len() ==> (#[trigger] if_then_exprs[i]).wf()
                        && self.span.contains(if_then_exprs[i].span)
                &&& self.span.contains(if_then_span)
                &&& match else_branch {
                    Some(e) => e.expr.wf() && self.span.contains(e.span) && e.span.contains(
                        e.expr.span,
                    ),
                    None => true,
                }
            },
            SpecExprKind::For { loop_var, loop_iter, head_span, loop_body } => {
                &&& loop_var.wf()
                &&& loop_iter.wf()
                &&& loop_body.wf()
                &&& self.span.contains(loop_var.span)
                &&& self.span.contains(loop_iter.span)
                &&& self.span.contains(head_span)
                &&& self.span.contains(loop_body.span)
            },
        }
    }

    /// The evalable rule: whether this expression is guaranteed to produce
    /// a value on every control path.  Literals, identifiers, placeholders,
    /// calls and unary/binary operations always do; a parenthesized
    /// expression does iff its inner expression does; a block does iff it
    /// is non-empty and its last statement does; a conditional chain does
    /// iff every `then` branch does and a terminal else branch is present
    /// and does; a loop never does.
    pub open spec fn evalable(self) -> bool
        decreases self,
    {
        match self.kind {
            SpecExprKind::Ident => true,
            SpecExprKind::Ellipsis => true,
            SpecExprKind::Lit => true,
            SpecExprKind::Parented(inner) => inner.evalable(),
            SpecExprKind::Block(stmts) => stmts.len() > 0 && stmts[stmts.len() - 1].evalable(),
            SpecExprKind::Call { .. } => true,
            SpecExprKind::UnOp { .. } => true,
            SpecExprKind::BinOp { .. } => true,
            SpecExprKind::If { if_then_exprs, if_then_span, else_branch } => {
                &&& forall|i: int|
                    0 <= i < if_then_exprs.len() ==> (#[trigger] if_then_exprs[i]).then_expr.evalable()
                &&& match else_branch {
                    Some(e) => e.expr.evalable(),
                    None => false,
                }
            },
            SpecExprKind::For { .. } => false,
        }
    }
}

impl SpecIfThen {
    /// Span discipline of one conditional clause.
    pub open spec fn wf(self) -> bool
        decreases self,
    {
        &&& self.span.wf()
        &&& self.cond.wf()
        &&& self.then_expr.wf()
        &&& self.span.contains(self.cond.span)
        &&& self.span.contains(self.then_expr.span)
    }
}

impl SpecStmt {
    /// Span discipline of a parsed statement.
    pub open spec fn wf(self) -> bool
        decreases self,
    {
        self.span.wf() && match self.kind {
            SpecStmtKind::Assign { left, right, assign_span } => {
                &&& left.wf()
                &&& right.wf()
                &&& self.span.contains(left.span)
                &&& self.span.contains(assign_span)
                &&& self.span.contains(right.span)
            },
            SpecStmtKind::Break => true,
            SpecStmtKind::Continue => true,
            SpecStmtKind::Def { ident, args, args_span, body, body_span } => {
                &&& ident.wf()
                &&& body.wf()
                &&& self.span.contains(ident.span)
                &&& self.span.contains(args_span)
                &&& self.span.contains(body.span)
                &&& body_span == body.span
                &&& forall|i: int|
                    0 <= i < args.len() ==> (#[trigger] args[i]).wf() && args_span.contains(
                        args[i].span,
                    )
            },
            SpecStmtKind::Empty => true,
            SpecStmtKind::Expr(e) => e.wf() && self.span.contains(e.span),
            SpecStmtKind::Extern { ident, args, args_span } => {
                &&& ident.wf()
                &&& self.span.contains(ident.span)
                &&& self.span.contains(args_span)
                &&& forall|i: int|
                    0 <= i < args.len() ==> (#[trigger] args[i]).wf() && args_span.contains(
                        args[i].span,
                    )
            },
            SpecStmtKind::For { loop_var, loop_iter, head_span, loop_body } => {
                &&& loop_var.wf()
                &&& loop_iter.wf()
                &&& loop_body.wf()
                &&& self.span.contains(loop_var.span)
                &&& self.span.contains(loop_iter.span)
                &&& self.span.contains(head_span)
                &&& self.span.contains(loop_body.span)
            },
            SpecStmtKind::Return(e) => e.wf() && self.span.contains(e.span),
        }
    }

    /// A statement is evalable exactly when it is an expression statement
    /// whose expression is evalable.  This is the policy that governs a
    /// block's value: the block's last statement decides.
    pub open spec fn evalable(self) -> bool
        decreases self,
    {
        match self.kind {
            SpecStmtKind::Expr(e) => e.evalable(),
            _ => false,
        }
    }
}

/// Model of an optional terminal else branch.
pub open spec fn view_else_opt(o: Option<Box<ElseExpr>>) -> Option<Box<SpecElse>> {
    match o {
        Some(eb) => Some(Box::new(SpecElse { expr: Box::new(view_expr(eb.expr)), span: eb.span })),
        None => None,
    }
}

/// Pushing onto a statement sequence pushes onto its model.
pub proof fn lemma_view_stmts_push(v: Seq<Stmt>, e: Stmt)
    ensures
        view_stmts(v.push(e)) == view_stmts(v).push(view_stmt(e)),
{
    lemma_view_stmts(v.push(e));
    lemma_view_stmts(v);
    assert(view_stmts(v.push(e)) =~= view_stmts(v).push(view_stmt(e)));
}

/// Pushing onto an expression sequence pushes onto its model.
pub proof fn lemma_view_exprs_push(v: Seq<Expr>, e: Expr)
    ensures
        view_exprs(v.push(e)) == view_exprs(v).push(view_expr(e)),
{
    lemma_view_exprs(v.push(e));
    lemma_view_exprs(v);
    assert(view_exprs(v.push(e)) =~= view_exprs(v).push(view_expr(e)));
}

/// Pushing onto a conditional-clause sequence pushes onto its model.
pub proof fn lemma_view_if_thens_push(v: Seq<IfThenExpr>, e: IfThenExpr)
    ensures
        view_if_thens(v.push(e)) == view_if_thens(v).push(view_if_then(e)),
{
    lemma_view_if_thens(v.push(e));
    lemma_view_if_thens(v);
    assert(view_if_thens(v.push(e)) =~= view_if_thens(v).push(view_if_then(e)));
}

/// Prepending to a statement sequence prepends to its model.
pub proof fn lemma_view_stmts_prepend(v: Seq<Stmt>, e: Stmt)
    ensures
        view_stmts(v.insert(0, e)) == seq![view_stmt(e)] + view_stmts(v),
{
    lemma_view_stmts(v.insert(0, e));
    lemma_view_stmts(v);
    assert(view_stmts(v.insert(0, e)) =~= seq![view_stmt(e)] + view_stmts(v));
}

/// Decide the evalable rule for an expression value.
pub fn is_evalable(e: &Expr) -> (r: bool)
    ensures
        r == view_expr(*e).evalable(),
    decreases *e,
{
    match &e.kind {
        ExprKind::Ident => {
            proof {
                assert(view_expr(*e).evalable());
            }
            true
        },
        ExprKind::Ellipsis => {
            proof {
                assert(view_expr(*e).evalable());
            }
            true
        },
        ExprKind::Lit => {
            proof {
                assert(view_expr(*e).evalable());
            }
            true
        },
        ExprKind::Parented(inner) => {
            let rr = is_evalable(inner);
            proof {
                assert(rr == view_expr(*e).evalable());
            }
            rr
        },
        ExprKind::Block(stmts) => {
            if stmts.len() == 0 {
                false
            } else {
                let last = &stmts[stmts.len() - 1];
                let rr = match &last.kind {
                    StmtKind::Expr(inner) => is_evalable(inner),
                    _ => false,
                };
                proof {
                    lemma_view_stmts(stmts@);
                    assert(rr == view_stmt(*last).evalable());
                    assert(rr == view_expr(*e).evalable());
                }
                rr
            }
        },
        ExprKind::Call { .. } => {
            proof {
                assert(view_expr(*e).evalable());
            }
            true
        },
        ExprKind::UnOp { .. } => {
            proof {
                assert(view_expr(*e).evalable());
            }
            true
        },
        ExprKind::BinOp { .. } => {
            proof {
                assert(view_expr(*e).evalable());
            }
            true
        },
        ExprKind::If { if_then_exprs, if_then_span, else_branch } => {
            match else_branch {
                None => {
                    proof {
                        assert(!view_expr(*e).evalable());
                    }
                    false
                },
                Some(eb) => {
                    if !is_evalable(&eb.expr) {
                        proof {
                            assert(!view_expr(*e).evalable());
                        }
                        false
                    } else {
                        let ghost model = view_expr(*e).kind->if_then_exprs;
                        proof {
                            lemma_view_if_thens(if_then_exprs@);
                            assert(model == view_if_thens(if_then_exprs@));
                            assert(model.len() == if_then_exprs@.len());
                            assert(forall|k: int|
                                0 <= k < if_then_exprs@.len() ==> (#[trigger] model[k])
                                    == view_if_then(if_then_exprs@[k]));
                        }
                        let mut i: usize = 0;
                        let mut all = true;
                        while i < if_then_exprs.len()
                            invariant
                                0 <= i <= if_then_exprs@.len(),
                                e.kind is If,
                                e.kind->if_then_exprs == *if_then_exprs,
                                model == view_expr(*e).kind->if_then_exprs,
                                model.len() == if_then_exprs@.len(),
                                forall|k: int|
                                    0 <= k < if_then_exprs@.len() ==> (#[trigger] model[k])
                                        == view_if_then(if_then_exprs@[k]),
                                all == forall|k: int|
                                    0 <= k < i ==> (#[trigger] model[k]).then_expr.evalable(),
                            decreases if_then_exprs@.len() - i,
                        {
                            proof {
                                assert(decreases_to!(*e => e.kind));
                                assert(decreases_to!(e.kind => e.kind->if_then_exprs));
                                assert(decreases_to!(
                                    e.kind->if_then_exprs => e.kind->if_then_exprs@
                                ));
                                assert(decreases_to!(
                                    e.kind->if_then_exprs@ => e.kind->if_then_exprs@[i as int]
                                ));
                                assert(decreases_to!(
                                    e.kind->if_then_exprs@[i as int]
                                        => e.kind->if_then_exprs@[i as int].then_expr
                                ));
                            }
                            proof {
                                assert(model[i as int] == view_if_then(if_then_exprs@[i as int]));
                            }
                            if !is_evalable(&if_then_exprs[i].then_expr) {
                                all = false;
                            }
                            i = i + 1;
                        }
                        proof {
                            if all {
                                assert(forall|k: int|
                                    0 <= k < model.len() ==> (#[trigger] model[k]).then_expr.evalable());
                            }
                            assert(all == view_expr(*e).evalable());
                        }
                        all
                    }
                },
            }
        },
        ExprKind::For { .. } => {
            proof {
                assert(!view_expr(*e).evalable());
            }
            false
        },
    }
}

} // verus!
