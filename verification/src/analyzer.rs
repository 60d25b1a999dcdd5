use vstd::prelude::*;
use crate::span::CodeSpan;

verus! {

/// A named variable binding: its name, where it was bound, and where it
/// has been used.
pub struct VarInfo {
    pub name: Vec<u8>,
    pub def_span: CodeSpan,
    pub use_spans: Vec<CodeSpan>,
}

/// A named function binding: signature facts beside the spans.  A vararg
/// binding accepts any argument count.
pub struct FnInfo {
    pub name: Vec<u8>,
    pub def_span: CodeSpan,
    pub use_spans: Vec<CodeSpan>,

    pub params: Vec<Vec<u8>>,
    pub args_span: CodeSpan,
    pub is_vararg: bool,

    pub scope: Option<usize>,
}

/// A call seen before its target was bound; reconciled at the end of the
/// analysis.
pub struct UndefFnCall {
    pub name: Vec<u8>,
    pub use_span: CodeSpan,
    pub params_num: usize,
    pub args_span: CodeSpan,
}

/// A binding is either a variable or a function.
pub enum Named {
    Var(VarInfo),
    Fn(FnInfo),
}

impl Named {
    /// The name this binding binds.
    pub open spec fn spec_name(&self) -> Seq<u8> {
        match self {
            Named::Var(v) => v.name@,
            Named::Fn(f) => f.name@,
        }
    }
}

/// One scope of the scope tree.  Scopes live in an arena owned by the
/// analyzer; `parent` is the index of the lexical parent, a lookup link
/// that never owns.  `locals` are this scope's own bindings; `cells` name
/// captured bindings by their arena id; `outers` are non-owning references
/// to ancestor bindings, by ancestor scope index.
pub struct Scope {
    pub parent: Option<usize>,

    pub locals: Vec<Named>,
    pub cells: Vec<(Vec<u8>, usize)>,
    pub outers: Vec<(Vec<u8>, usize)>,
}

impl Scope {
    /// Within one scope, a name denotes at most one binding across the
    /// locals, cells and outer references.
    pub open spec fn names_unique(&self) -> bool {
        &&& forall|i: int, j: int|
            0 <= i < j < self.locals@.len() ==> (#[trigger] self.locals@[i]).spec_name() != (
            #[trigger] self.locals@[j]).spec_name()
        &&& forall|i: int, j: int|
            0 <= i < self.locals@.len() && 0 <= j < self.cells@.len() ==> (
            #[trigger] self.locals@[i]).spec_name() != (#[trigger] self.cells@[j]).0@
        &&& forall|i: int, j: int|
            0 <= i < self.locals@.len() && 0 <= j < self.outers@.len() ==> (
            #[trigger] self.locals@[i]).spec_name() != (#[trigger] self.outers@[j]).0@
        &&& forall|i: int, j: int|
            0 <= i < j < self.cells@.len() ==> (#[trigger] self.cells@[i]).0@ != (
            #[trigger] self.cells@[j]).0@
        &&& forall|i: int, j: int|
            0 <= i < self.cells@.len() && 0 <= j < self.outers@.len() ==> (
            #[trigger] self.cells@[i]).0@ != (#[trigger] self.outers@[j]).0@
        &&& forall|i: int, j: int|
            0 <= i < j < self.outers@.len() ==> (#[trigger] self.outers@[i]).0@ != (
            #[trigger] self.outers@[j]).0@
    }

    /// A fresh scope under the given parent.
    pub fn new(parent: Option<usize>) -> (r: Scope)
        ensures
            r.parent == parent,
            r.locals@.len() == 0,
            r.cells@.len() == 0,
            r.outers@.len() == 0,
            r.names_unique(),
    {
        Scope { parent, locals: Vec::new(), cells: Vec::new(), outers: Vec::new() }
    }
}

/// Whether a call with `args_num` arguments is accepted by a binding with
/// `params_num` declared parameters: exactly matching counts, or any count
/// for a vararg binding.
pub open spec fn spec_arity_ok(params_num: int, is_vararg: bool, args_num: int) -> bool {
    is_vararg || params_num == args_num
}

/// Decide an arity check: a fixed-arity function demands exactly its
/// declared parameter count; a vararg binding accepts any count.
pub fn arity_ok(params_num: usize, is_vararg: bool, args_num: usize) -> (r: bool)
    ensures
        r == spec_arity_ok(params_num as int, is_vararg, args_num as int),
{
    is_vararg || params_num == args_num
}

/// The analyzer: a scope arena whose first element is the root scope, the
/// arena of captured cell bindings, and the calls waiting for a later
/// definition.
pub struct Analyzer {
    pub scopes: Vec<Scope>,
    pub cells: Vec<Named>,
    pub undef_fn_calls: Vec<UndefFnCall>,
}

impl Analyzer {
    /// Scope parents precede their children in the arena, so the parent
    /// links form a tree rooted at scope 0.
    pub open spec fn wf(&self) -> bool {
        &&& self.scopes@.len() >= 1
        &&& self.scopes@[0].parent is None
        &&& forall|i: int|
            1 <= i < self.scopes@.len() ==> ((#[trigger] self.scopes@[i]).parent matches Some(p)
                && p < i)
    }

    /// A fresh analyzer holding only the root scope.
    pub fn new() -> (r: Analyzer)
        ensures
            r.wf(),
            r.scopes@.len() == 1,
            r.cells@.len() == 0,
            r.undef_fn_calls@.len() == 0,
    {
        let mut scopes: Vec<Scope> = Vec::new();
        scopes.push(Scope::new(None));
        Analyzer { scopes, cells: Vec::new(), undef_fn_calls: Vec::new() }
    }

    /// Open a child scope under `parent`; returns its arena index.
    pub fn open_scope(&mut self, parent: usize) -> (r: usize)
        requires
            old(self).wf(),
            parent < old(self).scopes@.len(),
        ensures
            final(self).wf(),
            r == old(self).scopes@.len(),
            final(self).scopes@.len() == old(self).scopes@.len() + 1,
            final(self).scopes@[r as int].parent == Some(parent),
            final(self).cells == old(self).cells,
            final(self).undef_fn_calls == old(self).undef_fn_calls,
    {
        let idx = self.scopes.len();
        self.scopes.push(Scope::new(Some(parent)));
        idx
    }
}

} // verus!
