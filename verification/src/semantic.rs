//! Semantic analysis for Silq.
//!
//! Performs name resolution: identifiers and call targets are linked to
//! the declarations they name in the current scope, `let` bindings,
//! functions and data types are entered into the scope.
//!
//! The effect is stated over the declarations bound in the scope, frame by
//! frame (`SemanticAnalyzer::frames`): `sem_top` says what analysing an
//! expression adds to the innermost frame, and `sem_rel` relates an
//! expression to its analysed form, in which each identifier or call of a
//! bound name refers to a copy of the declaration that the name resolves to.

use vstd::prelude::*;
use crate::ast::{
    clone_decl, clone_expr, decl_eq, decl_size, expr_size, exprs_size, lemma_decl_eq_refl,
    lemma_decl_eq_trans, lemma_exprs_size_elem, CaptureAnnotation, Declaration, Expression, Id,
    Interner,
};
use crate::errors::Location;
use crate::scope::{lemma_frames_nonempty, resolve, Scope};

verus! {

/// What the name `k` resolves to, with `top` the innermost frame and
/// `outer` the enclosing ones.
pub open spec fn lookup_in(top: Map<usize, Declaration>, outer: Seq<Map<usize, Declaration>>, k: usize) -> Option<Declaration> {
    resolve(seq![top] + outer, k)
}

/// The declaration that a `let` binding of `name` enters into the scope.
pub open spec fn let_binding(name: Id, type_ann: Option<Box<Expression>>) -> Declaration {
    Declaration::VarDecl {
        loc: Location::spec_default(),
        name,
        dtype: type_ann,
        vtype: None,
        initializer: None,
        is_parameter: false,
        capture: CaptureAnnotation::NoCapture,
    }
}

/// The frame that holds a function's parameters, entered in order.
pub open spec fn param_frame(params: Seq<Declaration>) -> Map<usize, Declaration>
    decreases params.len(),
{
    if params.len() == 0 {
        Map::empty()
    } else {
        let m = param_frame(params.drop_last());
        match params.last() {
            Declaration::VarDecl { name, .. } => m.insert(name.0, params.last()),
            _ => m,
        }
    }
}

/// Two scopes hold the same names frame by frame, each bound to equal
/// declarations (equal as trees).
pub open spec fn frames_agree(a: Seq<Map<usize, Declaration>>, b: Seq<Map<usize, Declaration>>) -> bool {
    &&& a.len() == b.len()
    &&& forall|i: int| 0 <= i < a.len() ==> #[trigger] a[i].dom() == b[i].dom()
    &&& forall|i: int, k: usize|
        0 <= i < a.len() && #[trigger] a[i].contains_key(k) ==> decl_eq(a[i][k], b[i][k])
}

/// The names in the innermost frame after analysing `e` with `top` bound there.
pub open spec fn sem_top(e: Expression, top: Map<usize, Declaration>) -> Map<usize, Declaration>
    decreases e,
{
    match e {
        Expression::TypeDecl(d) => match *d {
            Declaration::FunctionDef { name, .. } => top.insert(name.0, *d),
            Declaration::DatDecl { name, .. } => top.insert(name.0, *d),
            _ => top,
        },
        Expression::Binary { left, right, .. } => sem_top(*right, sem_top(*left, top)),
        Expression::Call { function, arguments, .. } => sem_list_top(
            arguments@,
            sem_top(*function, top),
        ),
        Expression::IfThenElse { condition, then_branch, else_branch, .. } => {
            let t = sem_top(*then_branch, sem_top(*condition, top));
            match else_branch {
                Some(b) => sem_top(*b, t),
                None => t,
            }
        },
        Expression::Let { name, type_ann, value, body, .. } => sem_top(
            *body,
            sem_top(*value, top.insert(name.0, let_binding(name, type_ann))),
        ),
        Expression::Compound { statements, .. } => sem_list_top(statements@, top),
        Expression::Return { expr, .. } => match expr {
            Some(x) => sem_top(*x, top),
            None => top,
        },
        Expression::ForLoop { iterable, body, .. } => sem_top(*body, sem_top(*iterable, top)),
        Expression::WhileLoop { condition, body, .. } => sem_top(*body, sem_top(*condition, top)),
        Expression::Assign { target, value, .. } => sem_top(*value, sem_top(*target, top)),
        Expression::Forget { variable, .. } => sem_top(*variable, top),
        Expression::Assert { condition, .. } => sem_top(*condition, top),
        Expression::Lambda { body, .. } => sem_top(*body, top),
        Expression::TypeAnnotation { expr, ty, .. } => sem_top(*ty, sem_top(*expr, top)),
        Expression::With { controller, body, .. } => sem_top(*body, sem_top(*controller, top)),
        Expression::Index { expr, index, .. } => sem_top(*index, sem_top(*expr, top)),
        Expression::UnaryMinus { expr, .. } => sem_top(*expr, top),
        Expression::UnaryPlus { expr, .. } => sem_top(*expr, top),
        Expression::LogicalNot { expr, .. } => sem_top(*expr, top),
        Expression::BitwiseNot { expr, .. } => sem_top(*expr, top),
        Expression::Typeof { expr, .. } => sem_top(*expr, top),
        Expression::Slice { expr, start, end, .. } => sem_top(*end, sem_top(*start, sem_top(*expr, top))),
        Expression::Comma { left, right, .. } => sem_top(*right, sem_top(*left, top)),
        Expression::Field { expr, .. } => sem_top(*expr, top),
        Expression::Tuple { elements, .. } => sem_list_top(elements@, top),
        Expression::Vector { elements, .. } => sem_list_top(elements@, top),
        Expression::Concat { left, right, .. } => sem_top(*right, sem_top(*left, top)),
        Expression::Repeat { count, body, .. } => sem_top(*body, sem_top(*count, top)),
        _ => top,
    }
}

/// The names in the innermost frame after analysing the expressions `es` in order.
pub open spec fn sem_list_top(es: Seq<Expression>, top: Map<usize, Declaration>) -> Map<usize, Declaration>
    decreases es,
{
    if es.len() == 0 {
        top
    } else {
        sem_top(es.last(), sem_list_top(es.drop_last(), top))
    }
}

/// `r` is the result of analysing `e` with `top` the innermost frame and
/// `outer` the enclosing ones: the same tree, where each identifier whose
/// name is bound then means (a copy of) the declaration that the name
/// resolves to, each call of a bound name has it as its callee, and the
/// body of each function declaration is analysed in a frame of its
/// parameters inside the frame that binds the function.
pub open spec fn sem_rel(
    e: Expression,
    r: Expression,
    top: Map<usize, Declaration>,
    outer: Seq<Map<usize, Declaration>>,
) -> bool
    decreases e,
{
    match e {
        Expression::Identifier { loc, name, meaning, classical } => r matches Expression::Identifier {
            loc: l,
            name: n,
            meaning: m,
            classical: c,
        } && l == loc && n == name && c == classical && match lookup_in(top, outer, name.0) {
            Some(d) => m matches Some(b) && decl_eq(*b, d),
            None => m == meaning,
        },
        Expression::Binary { loc, op, left, right } => r matches Expression::Binary {
            loc: l,
            op: o,
            left: a,
            right: b,
        } && l == loc && o == op && sem_rel(*left, *a, top, outer) && sem_rel(
            *right,
            *b,
            sem_top(*left, top),
            outer,
        ),
        Expression::Call { loc, function, arguments, callee } => r matches Expression::Call {
            loc: l,
            function: f,
            arguments: args,
            callee: c,
        } && l == loc && sem_rel(*function, *f, top, outer) && sem_list_rel(
            arguments@,
            args@,
            sem_top(*function, top),
            outer,
        ) && match *function {
            Expression::Identifier { name, .. } => match lookup_in(top, outer, name.0) {
                Some(d) => c matches Some(b) && decl_eq(*b, d),
                None => c == callee,
            },
            _ => c == callee,
        },
        Expression::IfThenElse { loc, condition, then_branch, else_branch } => r matches Expression::IfThenElse {
            loc: l,
            condition: c,
            then_branch: t,
            else_branch: eb,
        } && l == loc && sem_rel(*condition, *c, top, outer) && sem_rel(
            *then_branch,
            *t,
            sem_top(*condition, top),
            outer,
        ) && match (else_branch, eb) {
            (Some(x), Some(y)) => sem_rel(
                *x,
                *y,
                sem_top(*then_branch, sem_top(*condition, top)),
                outer,
            ),
            (None, None) => true,
            _ => false,
        },
        Expression::Let { loc, name, type_ann, value, body } => r matches Expression::Let {
            loc: l,
            name: n,
            type_ann: ta,
            value: v,
            body: b,
        } && l == loc && n == name && ta == type_ann && sem_rel(
            *value,
            *v,
            top.insert(name.0, let_binding(name, type_ann)),
            outer,
        ) && sem_rel(*body, *b, sem_top(*value, top.insert(name.0, let_binding(name, type_ann))), outer),
        Expression::Compound { loc, statements } => r matches Expression::Compound {
            loc: l,
            statements: s,
        } && l == loc && sem_list_rel(statements@, s@, top, outer),
        Expression::Return { loc, expr } => r matches Expression::Return { loc: l, expr: x } && l == loc
            && match (expr, x) {
            (Some(a), Some(b)) => sem_rel(*a, *b, top, outer),
            (None, None) => true,
            _ => false,
        },
        Expression::ForLoop { loc, variable, iterable, body } => r matches Expression::ForLoop {
            loc: l,
            variable: v,
            iterable: i,
            body: b,
        } && l == loc && v == variable && sem_rel(*iterable, *i, top, outer) && sem_rel(
            *body,
            *b,
            sem_top(*iterable, top),
            outer,
        ),
        Expression::WhileLoop { loc, condition, body } => r matches Expression::WhileLoop {
            loc: l,
            condition: c,
            body: b,
        } && l == loc && sem_rel(*condition, *c, top, outer) && sem_rel(
            *body,
            *b,
            sem_top(*condition, top),
            outer,
        ),
        Expression::Assign { loc, target, value } => r matches Expression::Assign {
            loc: l,
            target: t,
            value: v,
        } && l == loc && sem_rel(*target, *t, top, outer) && sem_rel(
            *value,
            *v,
            sem_top(*target, top),
            outer,
        ),
        Expression::Forget { loc, variable } => r matches Expression::Forget { loc: l, variable: v }
            && l == loc && sem_rel(*variable, *v, top, outer),
        Expression::Assert { loc, condition, message } => r matches Expression::Assert {
            loc: l,
            condition: c,
            message: m,
        } && l == loc && m == message && sem_rel(*condition, *c, top, outer),
        Expression::Lambda { loc, params, body, annotation } => r matches Expression::Lambda {
            loc: l,
            params: p,
            body: b,
            annotation: a,
        } && l == loc && p == params && a == annotation && sem_rel(*body, *b, top, outer),
        Expression::TypeAnnotation { loc, expr, ty, kind } => r matches Expression::TypeAnnotation {
            loc: l,
            expr: x,
            ty: t,
            kind: k,
        } && l == loc && k == kind && sem_rel(*expr, *x, top, outer) && sem_rel(
            *ty,
            *t,
            sem_top(*expr, top),
            outer,
        ),
        Expression::With { loc, controller, body } => r matches Expression::With {
            loc: l,
            controller: c,
            body: b,
        } && l == loc && sem_rel(*controller, *c, top, outer) && sem_rel(
            *body,
            *b,
            sem_top(*controller, top),
            outer,
        ),
        Expression::Index { loc, expr, index } => r matches Expression::Index {
            loc: l,
            expr: x,
            index: i,
        } && l == loc && sem_rel(*expr, *x, top, outer) && sem_rel(
            *index,
            *i,
            sem_top(*expr, top),
            outer,
        ),
        Expression::UnaryMinus { loc, expr } => r matches Expression::UnaryMinus { loc: l, expr: x }
            && l == loc && sem_rel(*expr, *x, top, outer),
        Expression::UnaryPlus { loc, expr } => r matches Expression::UnaryPlus { loc: l, expr: x }
            && l == loc && sem_rel(*expr, *x, top, outer),
        Expression::LogicalNot { loc, expr } => r matches Expression::LogicalNot { loc: l, expr: x }
            && l == loc && sem_rel(*expr, *x, top, outer),
        Expression::BitwiseNot { loc, expr } => r matches Expression::BitwiseNot { loc: l, expr: x }
            && l == loc && sem_rel(*expr, *x, top, outer),
        Expression::Typeof { loc, expr } => r matches Expression::Typeof { loc: l, expr: x } && l
            == loc && sem_rel(*expr, *x, top, outer),
        Expression::Slice { loc, expr, start, end } => r matches Expression::Slice {
            loc: l,
            expr: x,
            start: s,
            end: t,
        } && l == loc && sem_rel(*expr, *x, top, outer) && sem_rel(
            *start,
            *s,
            sem_top(*expr, top),
            outer,
        ) && sem_rel(*end, *t, sem_top(*start, sem_top(*expr, top)), outer),
        Expression::Comma { loc, left, right } => r matches Expression::Comma {
            loc: l,
            left: a,
            right: b,
        } && l == loc && sem_rel(*left, *a, top, outer) && sem_rel(
            *right,
            *b,
            sem_top(*left, top),
            outer,
        ),
        Expression::Field { loc, expr, field } => r matches Expression::Field {
            loc: l,
            expr: x,
            field: f,
        } && l == loc && f == field && sem_rel(*expr, *x, top, outer),
        Expression::Tuple { loc, elements } => r matches Expression::Tuple { loc: l, elements: s } && l
            == loc && sem_list_rel(elements@, s@, top, outer),
        Expression::Vector { loc, elements } => r matches Expression::Vector { loc: l, elements: s }
            && l == loc && sem_list_rel(elements@, s@, top, outer),
        Expression::Concat { loc, left, right } => r matches Expression::Concat {
            loc: l,
            left: a,
            right: b,
        } && l == loc && sem_rel(*left, *a, top, outer) && sem_rel(
            *right,
            *b,
            sem_top(*left, top),
            outer,
        ),
        Expression::Repeat { loc, count, body } => r matches Expression::Repeat {
            loc: l,
            count: c,
            body: b,
        } && l == loc && sem_rel(*count, *c, top, outer) && sem_rel(
            *body,
            *b,
            sem_top(*count, top),
            outer,
        ),
        Expression::TypeDecl(d) => match *d {
            Declaration::FunctionDef {
                loc,
                name,
                params,
                return_type,
                body,
                annotation,
                ftype,
                captures,
                is_main,
                extern_name,
            } => r matches Expression::TypeDecl(rd) && match *rd {
                Declaration::FunctionDef {
                    loc: l,
                    name: n,
                    params: p,
                    return_type: rt,
                    body: b,
                    annotation: a,
                    ftype: f,
                    captures: c,
                    is_main: m,
                    extern_name: x,
                } => l == loc && n == name && p == params && rt == return_type && a == annotation && f
                    == ftype && c == captures && m == is_main && x == extern_name && sem_rel(
                    *body,
                    *b,
                    param_frame(params@),
                    seq![top.insert(name.0, *d)] + outer,
                ),
                _ => false,
            },
            _ => r == e,
        },
        _ => r == e,
    }
}

/// `rs` is the result of analysing the expressions `es` in order.
pub open spec fn sem_list_rel(
    es: Seq<Expression>,
    rs: Seq<Expression>,
    top: Map<usize, Declaration>,
    outer: Seq<Map<usize, Declaration>>,
) -> bool
    decreases es,
{
    &&& es.len() == rs.len()
    &&& es.len() > 0 ==> {
        &&& sem_list_rel(es.drop_last(), rs.drop_last(), top, outer)
        &&& sem_rel(es.last(), rs.last(), sem_list_top(es.drop_last(), top), outer)
    }
}

/// Analysis only adds names to the innermost frame: every name bound there
/// before is bound there afterwards.
pub proof fn lemma_sem_top_grows(e: Expression, top: Map<usize, Declaration>)
    ensures
        top.dom().subset_of(sem_top(e, top).dom()),
    decreases e,
{
    match e {
        Expression::Binary { left, right, .. } => {
            lemma_sem_top_grows(*left, top);
            lemma_sem_top_grows(*right, sem_top(*left, top));
        },
        Expression::Compound { statements, .. } => {
            lemma_list_sem_top_grows(statements@, top);
        },
        Expression::ForLoop { iterable, body, .. } => {
            lemma_sem_top_grows(*iterable, top);
            lemma_sem_top_grows(*body, sem_top(*iterable, top));
        },
        Expression::WhileLoop { condition, body, .. } => {
            lemma_sem_top_grows(*condition, top);
            lemma_sem_top_grows(*body, sem_top(*condition, top));
        },
        Expression::Assign { target, value, .. } => {
            lemma_sem_top_grows(*target, top);
            lemma_sem_top_grows(*value, sem_top(*target, top));
        },
        Expression::Forget { variable, .. } => {
            lemma_sem_top_grows(*variable, top);
        },
        Expression::Assert { condition, .. } => {
            lemma_sem_top_grows(*condition, top);
        },
        Expression::Lambda { body, .. } => {
            lemma_sem_top_grows(*body, top);
        },
        Expression::TypeAnnotation { expr, ty, .. } => {
            lemma_sem_top_grows(*expr, top);
            lemma_sem_top_grows(*ty, sem_top(*expr, top));
        },
        Expression::With { controller, body, .. } => {
            lemma_sem_top_grows(*controller, top);
            lemma_sem_top_grows(*body, sem_top(*controller, top));
        },
        Expression::Index { expr, index, .. } => {
            lemma_sem_top_grows(*expr, top);
            lemma_sem_top_grows(*index, sem_top(*expr, top));
        },
        Expression::UnaryMinus { expr, .. } => {
            lemma_sem_top_grows(*expr, top);
        },
        Expression::UnaryPlus { expr, .. } => {
            lemma_sem_top_grows(*expr, top);
        },
        Expression::LogicalNot { expr, .. } => {
            lemma_sem_top_grows(*expr, top);
        },
        Expression::BitwiseNot { expr, .. } => {
            lemma_sem_top_grows(*expr, top);
        },
        Expression::Typeof { expr, .. } => {
            lemma_sem_top_grows(*expr, top);
        },
        Expression::Slice { expr, start, end, .. } => {
            lemma_sem_top_grows(*expr, top);
            lemma_sem_top_grows(*start, sem_top(*expr, top));
            lemma_sem_top_grows(*end, sem_top(*start, sem_top(*expr, top)));
        },
        Expression::Comma { left, right, .. } => {
            lemma_sem_top_grows(*left, top);
            lemma_sem_top_grows(*right, sem_top(*left, top));
        },
        Expression::Field { expr, .. } => {
            lemma_sem_top_grows(*expr, top);
        },
        Expression::Tuple { elements, .. } => {
            lemma_list_sem_top_grows(elements@, top);
        },
        Expression::Vector { elements, .. } => {
            lemma_list_sem_top_grows(elements@, top);
        },
        Expression::Concat { left, right, .. } => {
            lemma_sem_top_grows(*left, top);
            lemma_sem_top_grows(*right, sem_top(*left, top));
        },
        Expression::Repeat { count, body, .. } => {
            lemma_sem_top_grows(*count, top);
            lemma_sem_top_grows(*body, sem_top(*count, top));
        },
        Expression::Call { function, arguments, .. } => {
            lemma_sem_top_grows(*function, top);
            lemma_list_sem_top_grows(arguments@, sem_top(*function, top));
        },
        Expression::IfThenElse { condition, then_branch, else_branch, .. } => {
            lemma_sem_top_grows(*condition, top);
            let t1 = sem_top(*condition, top);
            lemma_sem_top_grows(*then_branch, t1);
            if let Some(b) = else_branch {
                lemma_sem_top_grows(*b, sem_top(*then_branch, t1));
            }
        },
        Expression::Let { name, type_ann, value, body, .. } => {
            let t = top.insert(name.0, let_binding(name, type_ann));
            lemma_sem_top_grows(*value, t);
            lemma_sem_top_grows(*body, sem_top(*value, t));
        },
        Expression::Return { expr, .. } => {
            if let Some(x) = expr {
                lemma_sem_top_grows(*x, top);
            }
        },
        _ => {},
    }
}

/// Analysing a list only adds names to the innermost frame.
pub proof fn lemma_list_sem_top_grows(es: Seq<Expression>, top: Map<usize, Declaration>)
    ensures
        top.dom().subset_of(sem_list_top(es, top).dom()),
    decreases es,
{
    if es.len() > 0 {
        lemma_list_sem_top_grows(es.drop_last(), top);
        lemma_sem_top_grows(es.last(), sem_list_top(es.drop_last(), top));
    }
}

/// The name a top-level declaration enters into the scope, if any.
pub open spec fn declared_name(e: Expression) -> Option<usize> {
    match e {
        Expression::TypeDecl(d) => match *d {
            Declaration::FunctionDef { name, .. } => Some(name.0),
            Declaration::DatDecl { name, .. } => Some(name.0),
            _ => None,
        },
        _ => None,
    }
}

/// After analysing a list of expressions, every function and data type that
/// one of them declares is bound in the innermost frame.
pub proof fn lemma_declared_names_bound(es: Seq<Expression>, top: Map<usize, Declaration>, i: int)
    requires
        0 <= i < es.len(),
        declared_name(es[i]) is Some,
    ensures
        sem_list_top(es, top).contains_key(declared_name(es[i])->0),
    decreases es.len(),
{
    let k = declared_name(es[i])->0;
    let before = sem_list_top(es.drop_last(), top);
    assert(sem_list_top(es, top) == sem_top(es.last(), before));
    if i == es.len() - 1 {
        assert(es.last() == es[i]);
        assert(sem_top(es[i], before).contains_key(k));
    } else {
        assert(es.drop_last()[i] == es[i]);
        lemma_declared_names_bound(es.drop_last(), top, i);
        lemma_sem_top_grows(es.last(), before);
        assert(before.dom().contains(k));
    }
}

/// Scopes that agree resolve each name alike: to declarations equal as trees.
proof fn lemma_agree_resolve(a: Seq<Map<usize, Declaration>>, b: Seq<Map<usize, Declaration>>, k: usize)
    requires
        frames_agree(a, b),
    ensures
        (resolve(a, k) is Some) == (resolve(b, k) is Some),
        resolve(a, k) is Some ==> decl_eq(resolve(a, k)->0, resolve(b, k)->0),
    decreases a.len(),
{
    if a.len() > 0 {
        assert(a[0].dom() == b[0].dom());
        if !a[0].contains_key(k) {
            assert(!b[0].contains_key(k));
            assert forall|i: int| 0 <= i < a.drop_first().len() implies #[trigger] a.drop_first()[i].dom()
                == b.drop_first()[i].dom() by {
                assert(a[i + 1].dom() == b[i + 1].dom());
            }
            assert forall|i: int, j: usize|
                0 <= i < a.drop_first().len() && #[trigger] a.drop_first()[i].contains_key(j) implies decl_eq(
                a.drop_first()[i][j],
                b.drop_first()[i][j],
            ) by {
                assert(a[i + 1].contains_key(j));
            }
            lemma_agree_resolve(a.drop_first(), b.drop_first(), k);
        }
    }
}

/// A scope agrees with itself.
proof fn lemma_agree_refl(a: Seq<Map<usize, Declaration>>)
    ensures
        frames_agree(a, a),
{
    assert forall|i: int, k: usize| 0 <= i < a.len() && #[trigger] a[i].contains_key(k) implies decl_eq(
        a[i][k],
        a[i][k],
    ) by {
        lemma_decl_eq_refl(a[i][k]);
    }
}

/// Semantic analyzer state.
pub struct SemanticAnalyzer {
    /// The interner (for string lookups).
    pub interner: Interner,
    /// The current scope chain.
    pub scope: Scope,
    /// Type variable counter for fresh type variables.
    next_tvar: usize,
    /// Error count.
    errors: usize,
    /// The errors reported, in order.
    messages: Vec<String>,
    /// The frames of the scope as the analysis states them; the scope holds
    /// copies of these declarations.
    model: Ghost<Seq<Map<usize, Declaration>>>,
}

impl SemanticAnalyzer {
    /// The declarations bound in each frame of the scope, innermost first.
    pub closed spec fn frames(&self) -> Seq<Map<usize, Declaration>> {
        self.scope.frames()
    }

    /// The frames as the analysis states them.
    closed spec fn model(&self) -> Seq<Map<usize, Declaration>> {
        self.model@
    }

    /// The scope holds copies of the stated frames.
    closed spec fn inv(&self) -> bool {
        frames_agree(self.scope.frames(), self.model@)
    }

    /// The number of errors reported.
    pub closed spec fn error_total(&self) -> nat {
        self.errors as nat
    }

    /// The number of type variables handed out.
    pub closed spec fn tvars(&self) -> nat {
        self.next_tvar as nat
    }

    pub closed spec fn interned(&self) -> Seq<Seq<char>> {
        self.interner.names()
    }

    /// The error messages reported so far, in order.
    pub closed spec fn reported(&self) -> Seq<Seq<char>> {
        self.messages@.map_values(|m: String| m@)
    }

    /// Create a new semantic analyzer with a given scope.
    pub fn new(interner: Interner, scope: Scope) -> (r: Self)
        ensures
            r.frames() == scope.frames(),
            r.interned() == interner.names(),
            r.error_total() == 0,
            r.tvars() == 0,
            r.reported() == Seq::<Seq<char>>::empty(),
    {
        let ghost frames = scope.frames();
        let r = SemanticAnalyzer {
            interner,
            scope,
            next_tvar: 0,
            errors: 0,
            messages: Vec::new(),
            model: Ghost(frames),
        };
        assert(r.reported() =~= Seq::<Seq<char>>::empty());
        r
    }

    /// Generate a fresh type variable.
    fn fresh_tvar(&mut self) -> (r: Expression)
        requires
            old(self).tvars() < usize::MAX,
        ensures
            r == (Expression::TypeVar { loc: Location::spec_default(), index: old(self).tvars() as usize }),
            final(self).tvars() == old(self).tvars() + 1,
            final(self).frames() == old(self).frames(),
            final(self).error_total() == old(self).error_total(),
    {
        let idx = self.next_tvar;
        self.next_tvar += 1;
        Expression::TypeVar { loc: Location::default(), index: idx }
    }

    /// Register an error.
    fn error(&mut self, msg: &str)
        requires
            old(self).error_total() < usize::MAX,
        ensures
            final(self).error_total() == old(self).error_total() + 1,
            final(self).frames() == old(self).frames(),
            final(self).tvars() == old(self).tvars(),
            final(self).reported() == old(self).reported().push("[semantic error] "@ + msg@),
    {
        self.errors += 1;
        let mut text = "[semantic error] ".to_owned();
        text.append(msg);
        self.messages.push(text);
        proof {
            assert(self.reported() =~= old(self).reported().push("[semantic error] "@ + msg@));
        }
    }

    /// The errors reported, in order.
    pub fn messages(&self) -> (r: &Vec<String>)
        ensures
            r@.map_values(|m: String| m@) == self.reported(),
    {
        &self.messages
    }

    /// Perform semantic analysis on a list of top-level expressions, in order.
    pub fn semantic_program(&mut self, exprs: &mut Vec<Expression>)
        ensures
            sem_list_rel(old(exprs)@, final(exprs)@, old(self).frames()[0], old(self).frames().drop_first()),
            frames_agree(
                final(self).frames(),
                old(self).frames().update(0, sem_list_top(old(exprs)@, old(self).frames()[0])),
            ),
            final(self).interned() == old(self).interned(),
            final(self).error_total() == old(self).error_total(),
    {
        proof {
            lemma_frames_nonempty(self.scope);
            lemma_agree_refl(self.scope.frames());
        }
        self.model = Ghost(self.scope.frames());
        let mut taken: Vec<Expression> = Vec::new();
        std::mem::swap(exprs, &mut taken);
        let ghost f0 = self.model();
        let done = self.semantic_list(taken);
        *exprs = done;
        proof {
            let m = self.model();
            assert(m.drop_first().len() == f0.drop_first().len());
            assert forall|i: int| 0 < i < f0.len() implies m[i] == f0[i] by {
                assert(m.drop_first()[i - 1] == f0.drop_first()[i - 1]);
            }
            assert(m =~= f0.update(0, sem_list_top(old(exprs)@, f0[0])));
        }
    }

    /// Analyse a list of expressions in order.
    #[verifier::loop_isolation(false)]
    fn semantic_list(&mut self, es: Vec<Expression>) -> (r: Vec<Expression>)
        requires
            old(self).inv(),
            old(self).model().len() >= 1,
        ensures
            sem_list_rel(es@, r@, old(self).model()[0], old(self).model().drop_first()),
            final(self).inv(),
            final(self).model().len() >= 1,
            final(self).model()[0] == sem_list_top(es@, old(self).model()[0]),
            final(self).model().drop_first() == old(self).model().drop_first(),
            final(self).interned() == old(self).interned(),
            final(self).error_total() == old(self).error_total(),
            final(self).tvars() == old(self).tvars(),
        decreases exprs_size(es@), 1nat,
    {
        let ghost m0 = self.model();
        let ghost top = m0[0];
        let ghost outer = m0.drop_first();
        // Reverse the list so that its elements come off the end in order.
        let mut es = es;
        let ghost all = es@;
        let mut rev: Vec<Expression> = Vec::new();
        while es.len() > 0
            invariant
                es@.len() + rev@.len() == all.len(),
                es@ == all.subrange(0, es@.len() as int),
                forall|j: int| 0 <= j < rev@.len() ==> #[trigger] rev@[j] == all[all.len() - 1 - j],
            decreases es@.len(),
        {
            let e = es.pop().unwrap();
            rev.push(e);
        }
        let mut out: Vec<Expression> = Vec::new();
        while rev.len() > 0
            invariant
                rev@.len() + out@.len() == all.len(),
                forall|j: int| 0 <= j < rev@.len() ==> #[trigger] rev@[j] == all[all.len() - 1 - j],
                sem_list_rel(all.subrange(0, out@.len() as int), out@, top, outer),
                self.inv(),
                self.model().len() >= 1,
                self.model()[0] == sem_list_top(all.subrange(0, out@.len() as int), top),
                self.model().drop_first() == outer,
                self.interned() == old(self).interned(),
                self.error_total() == old(self).error_total(),
                self.tvars() == old(self).tvars(),
            decreases rev@.len(),
        {
            let ghost i = out@.len() as int;
            let e = rev.pop().unwrap();
            proof {
                assert(e == all[i]);
                lemma_exprs_size_elem(all, i);
            }
            let r = self.semantic_expr(e);
            let ghost before = out@;
            out.push(r);
            proof {
                assert(all.subrange(0, i + 1).drop_last() =~= all.subrange(0, i));
                assert(out@.drop_last() =~= before);
            }
        }
        proof {
            assert(all.subrange(0, all.len() as int) =~= all);
        }
        out
    }

    /// Resolve a name in the current scope: a copy of the declaration it names.
    fn resolve_name(&self, name: Id) -> (r: Option<Box<Declaration>>)
        requires
            self.inv(),
            self.model().len() >= 1,
        ensures
            match lookup_in(self.model()[0], self.model().drop_first(), name.0) {
                Some(d) => r matches Some(b) && decl_eq(*b, d),
                None => r is None,
            },
    {
        proof {
            assert(seq![self.model()[0]] + self.model().drop_first() =~= self.model());
            lemma_agree_resolve(self.scope.frames(), self.model(), name.0);
        }
        match self.scope.lookup(name) {
            Some(decl) => {
                let b = clone_decl(decl);
                proof {
                    lemma_decl_eq_trans(b, *decl, resolve(self.model(), name.0)->0);
                }
                Some(Box::new(b))
            },
            None => None,
        }
    }

    /// Enter a declaration into the innermost frame of the scope; `stated`
    /// is the declaration as the analysis states it.
    fn bind(&mut self, name: Id, decl: Declaration, Ghost(stated): Ghost<Declaration>)
        requires
            old(self).inv(),
            old(self).model().len() >= 1,
            decl_eq(decl, stated),
        ensures
            final(self).inv(),
            final(self).model().len() >= 1,
            final(self).model()[0] == old(self).model()[0].insert(name.0, stated),
            final(self).model().drop_first() == old(self).model().drop_first(),
            final(self).interned() == old(self).interned(),
            final(self).error_total() == old(self).error_total(),
            final(self).tvars() == old(self).tvars(),
    {
        proof {
            lemma_frames_nonempty(self.scope);
        }
        let ghost a0 = self.scope.frames();
        let ghost b0 = self.model();
        self.scope.insert(name, decl);
        self.model = Ghost(b0.update(0, b0[0].insert(name.0, stated)));
        proof {
            let a = self.scope.frames();
            let b = self.model();
            assert(a.len() == b.len());
            assert forall|i: int| 0 <= i < a.len() implies #[trigger] a[i].dom() == b[i].dom() by {
                assert(a0[i].dom() == b0[i].dom());
                if i == 0 {
                    assert(a[0].dom() =~= b[0].dom());
                }
            }
            assert forall|i: int, k: usize| 0 <= i < a.len() && #[trigger] a[i].contains_key(k) implies decl_eq(
                a[i][k],
                b[i][k],
            ) by {
                if i != 0 || k != name.0 {
                    assert(a0[i].contains_key(k));
                }
            }
            assert(b.drop_first() =~= b0.drop_first());
        }
    }

    /// Perform semantic analysis on a single expression.
    fn semantic_expr(&mut self, expr: Expression) -> (r: Expression)
        requires
            old(self).inv(),
            old(self).model().len() >= 1,
        ensures
            sem_rel(expr, r, old(self).model()[0], old(self).model().drop_first()),
            final(self).inv(),
            final(self).model().len() >= 1,
            final(self).model()[0] == sem_top(expr, old(self).model()[0]),
            final(self).model().drop_first() == old(self).model().drop_first(),
            final(self).interned() == old(self).interned(),
            final(self).error_total() == old(self).error_total(),
            final(self).tvars() == old(self).tvars(),
        decreases expr_size(expr), 0nat,
    {
        let r = match expr {
            Expression::TypeDecl(decl) => {
                let d = self.semantic_declaration(*decl);
                Expression::TypeDecl(Box::new(d))
            },
            Expression::Identifier { loc, name, meaning, classical } => {
                // Try to resolve the identifier in the current scope
                let meaning = match self.resolve_name(name) {
                    Some(decl) => Some(decl),
                    None => meaning,
                };
                Expression::Identifier { loc, name, meaning, classical }
            },
            Expression::Binary { loc, op, left, right } => {
                let left = self.semantic_expr(*left);
                let right = self.semantic_expr(*right);
                Expression::Binary { loc, op, left: Box::new(left), right: Box::new(right) }
            },
            Expression::Call { loc, function, arguments, callee } => {
                let function = self.semantic_expr(*function);
                // Try to resolve the function
                let callee = match &function {
                    Expression::Identifier { name, .. } => match self.resolve_name(*name) {
                        Some(decl) => Some(decl),
                        None => callee,
                    },
                    _ => callee,
                };
                let arguments = self.semantic_list(arguments);
                Expression::Call { loc, function: Box::new(function), arguments, callee }
            },
            Expression::IfThenElse { loc, condition, then_branch, else_branch } => {
                let condition = self.semantic_expr(*condition);
                let then_branch = self.semantic_expr(*then_branch);
                proof {
                    if else_branch is Some {
                        assert(crate::ast::opt_expr_size(else_branch) == expr_size(*else_branch->0));
                    }
                }
                let else_branch = match else_branch {
                    Some(else_br) => Some(Box::new(self.semantic_expr(*else_br))),
                    None => None,
                };
                Expression::IfThenElse {
                    loc,
                    condition: Box::new(condition),
                    then_branch: Box::new(then_branch),
                    else_branch,
                }
            },
            Expression::Let { loc, name, type_ann, value, body } => {
                // Create a variable declaration for the new binding
                let dtype = match &type_ann {
                    Some(t) => Some(clone_expr(t)),
                    None => None,
                };
                let decl = Declaration::new_var(
                    Location::default(),
                    name,
                    dtype,
                    None,
                    false,
                    CaptureAnnotation::NoCapture,
                );
                self.bind(name, decl, Ghost(let_binding(name, type_ann)));
                let value = self.semantic_expr(*value);
                let body = self.semantic_expr(*body);
                Expression::Let { loc, name, type_ann, value: Box::new(value), body: Box::new(body) }
            },
            Expression::Compound { loc, statements } => {
                let statements = self.semantic_list(statements);
                Expression::Compound { loc, statements }
            },
            Expression::Return { loc, expr } => {
                proof {
                    if expr is Some {
                        assert(crate::ast::opt_expr_size(expr) == expr_size(*expr->0));
                    }
                }
                let expr = match expr {
                    Some(e) => Some(Box::new(self.semantic_expr(*e))),
                    None => None,
                };
                Expression::Return { loc, expr }
            },
            Expression::ForLoop { loc, variable, iterable, body } => {
                let iterable = self.semantic_expr(*iterable);
                let body = self.semantic_expr(*body);
                Expression::ForLoop { loc, variable, iterable: Box::new(iterable), body: Box::new(body) }
            },
            Expression::WhileLoop { loc, condition, body } => {
                let condition = self.semantic_expr(*condition);
                let body = self.semantic_expr(*body);
                Expression::WhileLoop { loc, condition: Box::new(condition), body: Box::new(body) }
            },
            Expression::Assign { loc, target, value } => {
                let target = self.semantic_expr(*target);
                let value = self.semantic_expr(*value);
                Expression::Assign { loc, target: Box::new(target), value: Box::new(value) }
            },
            Expression::Forget { loc, variable } => {
                let variable = self.semantic_expr(*variable);
                Expression::Forget { loc, variable: Box::new(variable) }
            },
            Expression::Assert { loc, condition, message } => {
                let condition = self.semantic_expr(*condition);
                Expression::Assert { loc, condition: Box::new(condition), message }
            },
            Expression::Lambda { loc, params, body, annotation } => {
                let body = self.semantic_expr(*body);
                Expression::Lambda { loc, params, body: Box::new(body), annotation }
            },
            Expression::TypeAnnotation { loc, expr, ty, kind } => {
                let expr = self.semantic_expr(*expr);
                let ty = self.semantic_expr(*ty);
                Expression::TypeAnnotation { loc, expr: Box::new(expr), ty: Box::new(ty), kind }
            },
            Expression::With { loc, controller, body } => {
                let controller = self.semantic_expr(*controller);
                let body = self.semantic_expr(*body);
                Expression::With { loc, controller: Box::new(controller), body: Box::new(body) }
            },
            Expression::Index { loc, expr, index } => {
                let expr = self.semantic_expr(*expr);
                let index = self.semantic_expr(*index);
                Expression::Index { loc, expr: Box::new(expr), index: Box::new(index) }
            },
            Expression::UnaryMinus { loc, expr } => {
                let expr = self.semantic_expr(*expr);
                Expression::UnaryMinus { loc, expr: Box::new(expr) }
            },
            Expression::UnaryPlus { loc, expr } => {
                let expr = self.semantic_expr(*expr);
                Expression::UnaryPlus { loc, expr: Box::new(expr) }
            },
            Expression::LogicalNot { loc, expr } => {
                let expr = self.semantic_expr(*expr);
                Expression::LogicalNot { loc, expr: Box::new(expr) }
            },
            Expression::BitwiseNot { loc, expr } => {
                let expr = self.semantic_expr(*expr);
                Expression::BitwiseNot { loc, expr: Box::new(expr) }
            },
            Expression::Typeof { loc, expr } => {
                let expr = self.semantic_expr(*expr);
                Expression::Typeof { loc, expr: Box::new(expr) }
            },
            Expression::Slice { loc, expr, start, end } => {
                let expr = self.semantic_expr(*expr);
                let start = self.semantic_expr(*start);
                let end = self.semantic_expr(*end);
                Expression::Slice { loc, expr: Box::new(expr), start: Box::new(start), end: Box::new(end) }
            },
            Expression::Comma { loc, left, right } => {
                let left = self.semantic_expr(*left);
                let right = self.semantic_expr(*right);
                Expression::Comma { loc, left: Box::new(left), right: Box::new(right) }
            },
            Expression::Field { loc, expr, field } => {
                let expr = self.semantic_expr(*expr);
                Expression::Field { loc, expr: Box::new(expr), field }
            },
            Expression::Tuple { loc, elements } => {
                let elements = self.semantic_list(elements);
                Expression::Tuple { loc, elements }
            },
            Expression::Vector { loc, elements } => {
                let elements = self.semantic_list(elements);
                Expression::Vector { loc, elements }
            },
            Expression::Concat { loc, left, right } => {
                let left = self.semantic_expr(*left);
                let right = self.semantic_expr(*right);
                Expression::Concat { loc, left: Box::new(left), right: Box::new(right) }
            },
            Expression::Repeat { loc, count, body } => {
                let count = self.semantic_expr(*count);
                let body = self.semantic_expr(*body);
                Expression::Repeat { loc, count: Box::new(count), body: Box::new(body) }
            },
            // Leaf expressions - nothing to analyze
            other => other,
        };
        r
    }

    /// Perform semantic analysis on a declaration: functions and data types
    /// are entered into the scope, and a function's body is analysed in a
    /// child scope that holds its parameters (the scope is restored afterwards).
    fn semantic_declaration(&mut self, decl: Declaration) -> (r: Declaration)
        requires
            old(self).inv(),
            old(self).model().len() >= 1,
        ensures
            sem_rel(
                Expression::TypeDecl(Box::new(decl)),
                Expression::TypeDecl(Box::new(r)),
                old(self).model()[0],
                old(self).model().drop_first(),
            ),
            final(self).inv(),
            final(self).model().len() >= 1,
            final(self).model()[0] == sem_top(Expression::TypeDecl(Box::new(decl)), old(self).model()[0]),
            final(self).model().drop_first() == old(self).model().drop_first(),
            final(self).interned() == old(self).interned(),
            final(self).error_total() == old(self).error_total(),
            final(self).tvars() == old(self).tvars(),
        decreases decl_size(decl), 0nat,
    {
        let ghost d0 = decl;
        // The copy that the scope holds
        let copy = clone_decl(&decl);
        match decl {
            Declaration::FunctionDef {
                loc,
                name,
                params,
                return_type,
                body,
                annotation,
                ftype,
                captures,
                is_main,
                extern_name,
            } => {
                self.bind(name, copy, Ghost(d0));
                // Create a new scope for the function body
                let old_scope = self.scope.clone();
                let ghost saved = self.model();
                self.scope = self.scope.child();
                self.model = Ghost(seq![Map::<usize, Declaration>::empty()] + saved);
                proof {
                    let a = self.scope.frames();
                    let b = self.model();
                    assert forall|i: int| 0 <= i < a.len() implies #[trigger] a[i].dom() == b[i].dom() by {
                        if i > 0 {
                            assert(old_scope.frames()[i - 1].dom() == saved[i - 1].dom());
                        } else {
                            assert(a[0].dom() =~= b[0].dom());
                        }
                    }
                    assert forall|i: int, k: usize|
                        0 <= i < a.len() && #[trigger] a[i].contains_key(k) implies decl_eq(a[i][k], b[i][k]) by {
                        assert(i > 0);
                        assert(old_scope.frames()[i - 1].contains_key(k));
                    }
                    assert(b.drop_first() =~= saved);
                    assert(params@.subrange(0, 0) =~= Seq::<Declaration>::empty());
                }
                // Add parameters to the scope
                let mut i: usize = 0;
                while i < params.len()
                    invariant
                        i <= params@.len(),
                        self.inv(),
                        self.model().len() >= 1,
                        self.model()[0] == param_frame(params@.subrange(0, i as int)),
                        self.model().drop_first() == saved,
                        self.interned() == old(self).interned(),
                        self.error_total() == old(self).error_total(),
                        self.tvars() == old(self).tvars(),
                    decreases params@.len() - i,
                {
                    proof {
                        assert(params@.subrange(0, i + 1).drop_last() =~= params@.subrange(0, i as int));
                        assert(params@.subrange(0, i + 1).last() == params@[i as int]);
                    }
                    if let Declaration::VarDecl { name: pname, .. } = &params[i] {
                        let p = clone_decl(&params[i]);
                        self.bind(*pname, p, Ghost(params@[i as int]));
                    }
                    i += 1;
                }
                proof {
                    assert(params@.subrange(0, params@.len() as int) =~= params@);
                    assert(saved =~= seq![saved[0]] + saved.drop_first());
                }
                // Analyze the body in that scope
                let body = self.semantic_expr(*body);
                // Restore the old scope
                self.scope = old_scope;
                self.model = Ghost(saved);
                Declaration::FunctionDef {
                    loc,
                    name,
                    params,
                    return_type,
                    body: Box::new(body),
                    annotation,
                    ftype,
                    captures,
                    is_main,
                    extern_name,
                }
            },
            Declaration::DatDecl { loc, name, type_params, fields, is_quantum } => {
                self.bind(name, copy, Ghost(d0));
                Declaration::DatDecl { loc, name, type_params, fields, is_quantum }
            },
            // Variable declarations are handled when they appear in context;
            // imports by the module system
            other => other,
        }
    }

    /// Get the number of errors encountered.
    pub fn error_count(&self) -> (r: usize)
        ensures
            r == self.error_total(),
    {
        self.errors
    }
}

} // verus!
