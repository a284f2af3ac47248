//! The syntax tree as a mathematical value.
//!
//! `expr_tree` maps an `Expression` to an `ExprTree`: the same tree, with
//! strings taken by their characters, numbers by their values and vectors by
//! their elements.  Contracts that fix a whole tree (the grammar in
//! `grammar`) state it over this value.

use vstd::prelude::*;
use crate::ast::{
    Annotation, CaptureAnnotation, Declaration, Expression, FixedIntTy, Id, LitVal, LiteralValue, NumericType,
    TypeAnnotationKind, TypeKind, TypeMetaKind, ZModTy,
};
use crate::errors::Location;
use crate::token::TokenType;

verus! {

/// An expression as a value: strings by their characters, numbers by their values,
/// vectors by their elements.
pub ghost enum ExprTree {
    Error { loc: Location, message: Seq<char> },
    Literal { loc: Location, value: LitVal, ty: Option<Box<ExprTree>> },
    Identifier { loc: Location, name: Id, meaning: Option<Box<DeclTree>>, classical: bool },
    Placeholder { loc: Location },
    Wildcard { loc: Location },
    Typeof { loc: Location, expr: Box<ExprTree> },
    UnaryPlus { loc: Location, expr: Box<ExprTree> },
    UnaryMinus { loc: Location, expr: Box<ExprTree> },
    LogicalNot { loc: Location, expr: Box<ExprTree> },
    BitwiseNot { loc: Location, expr: Box<ExprTree> },
    Binary { loc: Location, op: TokenType, left: Box<ExprTree>, right: Box<ExprTree> },
    Call { loc: Location, function: Box<ExprTree>, arguments: Seq<ExprTree>, callee: Option<Box<DeclTree>> },
    Index { loc: Location, expr: Box<ExprTree>, index: Box<ExprTree> },
    Slice { loc: Location, expr: Box<ExprTree>, start: Box<ExprTree>, end: Box<ExprTree> },
    Field { loc: Location, expr: Box<ExprTree>, field: Id },
    Tuple { loc: Location, elements: Seq<ExprTree> },
    Vector { loc: Location, elements: Seq<ExprTree> },
    Concat { loc: Location, left: Box<ExprTree>, right: Box<ExprTree> },
    Let { loc: Location, name: Id, type_ann: Option<Box<ExprTree>>, value: Box<ExprTree>, body: Box<ExprTree> },
    Assign { loc: Location, target: Box<ExprTree>, value: Box<ExprTree> },
    Lambda { loc: Location, params: Seq<ExprTree>, body: Box<ExprTree>, annotation: Annotation },
    IfThenElse { loc: Location, condition: Box<ExprTree>, then_branch: Box<ExprTree>, else_branch: Option<Box<ExprTree>> },
    With { loc: Location, controller: Box<ExprTree>, body: Box<ExprTree> },
    ForLoop { loc: Location, variable: Id, iterable: Box<ExprTree>, body: Box<ExprTree> },
    WhileLoop { loc: Location, condition: Box<ExprTree>, body: Box<ExprTree> },
    Repeat { loc: Location, count: Box<ExprTree>, body: Box<ExprTree> },
    Return { loc: Location, expr: Option<Box<ExprTree>> },
    Comma { loc: Location, left: Box<ExprTree>, right: Box<ExprTree> },
    Compound { loc: Location, statements: Seq<ExprTree> },
    TypeAnnotation { loc: Location, expr: Box<ExprTree>, ty: Box<ExprTree>, kind: TypeAnnotationKind },
    Forget { loc: Location, variable: Box<ExprTree> },
    Assert { loc: Location, condition: Box<ExprTree>, message: Option<Seq<char>> },
    Type { loc: Location, kind: KindTree },
    TypeDecl(Box<DeclTree>),
    TypeVar { loc: Location, index: usize },
}

/// The value of an expression.
pub open spec fn expr_tree(e: Expression) -> ExprTree
    decreases e,
{
    match e {
        Expression::Error { loc, message } => ExprTree::Error { loc, message: message@ },
        Expression::Literal { loc, value, ty } => ExprTree::Literal { loc, value: value@, ty: opt_expr_tree(ty) },
        Expression::Identifier { loc, name, meaning, classical } => ExprTree::Identifier { loc, name, meaning: opt_decl_tree(meaning), classical },
        Expression::Placeholder { loc } => ExprTree::Placeholder { loc },
        Expression::Wildcard { loc } => ExprTree::Wildcard { loc },
        Expression::Typeof { loc, expr } => ExprTree::Typeof { loc, expr: Box::new(expr_tree(*expr)) },
        Expression::UnaryPlus { loc, expr } => ExprTree::UnaryPlus { loc, expr: Box::new(expr_tree(*expr)) },
        Expression::UnaryMinus { loc, expr } => ExprTree::UnaryMinus { loc, expr: Box::new(expr_tree(*expr)) },
        Expression::LogicalNot { loc, expr } => ExprTree::LogicalNot { loc, expr: Box::new(expr_tree(*expr)) },
        Expression::BitwiseNot { loc, expr } => ExprTree::BitwiseNot { loc, expr: Box::new(expr_tree(*expr)) },
        Expression::Binary { loc, op, left, right } => ExprTree::Binary { loc, op, left: Box::new(expr_tree(*left)), right: Box::new(expr_tree(*right)) },
        Expression::Call { loc, function, arguments, callee } => ExprTree::Call { loc, function: Box::new(expr_tree(*function)), arguments: exprs_tree(arguments@), callee: opt_decl_tree(callee) },
        Expression::Index { loc, expr, index } => ExprTree::Index { loc, expr: Box::new(expr_tree(*expr)), index: Box::new(expr_tree(*index)) },
        Expression::Slice { loc, expr, start, end } => ExprTree::Slice { loc, expr: Box::new(expr_tree(*expr)), start: Box::new(expr_tree(*start)), end: Box::new(expr_tree(*end)) },
        Expression::Field { loc, expr, field } => ExprTree::Field { loc, expr: Box::new(expr_tree(*expr)), field },
        Expression::Tuple { loc, elements } => ExprTree::Tuple { loc, elements: exprs_tree(elements@) },
        Expression::Vector { loc, elements } => ExprTree::Vector { loc, elements: exprs_tree(elements@) },
        Expression::Concat { loc, left, right } => ExprTree::Concat { loc, left: Box::new(expr_tree(*left)), right: Box::new(expr_tree(*right)) },
        Expression::Let { loc, name, type_ann, value, body } => ExprTree::Let { loc, name, type_ann: opt_expr_tree(type_ann), value: Box::new(expr_tree(*value)), body: Box::new(expr_tree(*body)) },
        Expression::Assign { loc, target, value } => ExprTree::Assign { loc, target: Box::new(expr_tree(*target)), value: Box::new(expr_tree(*value)) },
        Expression::Lambda { loc, params, body, annotation } => ExprTree::Lambda { loc, params: exprs_tree(params@), body: Box::new(expr_tree(*body)), annotation },
        Expression::IfThenElse { loc, condition, then_branch, else_branch } => ExprTree::IfThenElse { loc, condition: Box::new(expr_tree(*condition)), then_branch: Box::new(expr_tree(*then_branch)), else_branch: opt_expr_tree(else_branch) },
        Expression::With { loc, controller, body } => ExprTree::With { loc, controller: Box::new(expr_tree(*controller)), body: Box::new(expr_tree(*body)) },
        Expression::ForLoop { loc, variable, iterable, body } => ExprTree::ForLoop { loc, variable, iterable: Box::new(expr_tree(*iterable)), body: Box::new(expr_tree(*body)) },
        Expression::WhileLoop { loc, condition, body } => ExprTree::WhileLoop { loc, condition: Box::new(expr_tree(*condition)), body: Box::new(expr_tree(*body)) },
        Expression::Repeat { loc, count, body } => ExprTree::Repeat { loc, count: Box::new(expr_tree(*count)), body: Box::new(expr_tree(*body)) },
        Expression::Return { loc, expr } => ExprTree::Return { loc, expr: opt_expr_tree(expr) },
        Expression::Comma { loc, left, right } => ExprTree::Comma { loc, left: Box::new(expr_tree(*left)), right: Box::new(expr_tree(*right)) },
        Expression::Compound { loc, statements } => ExprTree::Compound { loc, statements: exprs_tree(statements@) },
        Expression::TypeAnnotation { loc, expr, ty, kind } => ExprTree::TypeAnnotation { loc, expr: Box::new(expr_tree(*expr)), ty: Box::new(expr_tree(*ty)), kind },
        Expression::Forget { loc, variable } => ExprTree::Forget { loc, variable: Box::new(expr_tree(*variable)) },
        Expression::Assert { loc, condition, message } => ExprTree::Assert { loc, condition: Box::new(expr_tree(*condition)), message: opt_text(message) },
        Expression::Type { loc, kind } => ExprTree::Type { loc, kind: kind_tree(kind) },
        Expression::TypeDecl(f0) => ExprTree::TypeDecl(Box::new(decl_tree(*f0))),
        Expression::TypeVar { loc, index } => ExprTree::TypeVar { loc, index },
    }
}

/// A declaration as a value: strings by their characters, numbers by their values,
/// vectors by their elements.
pub ghost enum DeclTree {
    VarDecl { loc: Location, name: Id, dtype: Option<Box<ExprTree>>, vtype: Option<Box<ExprTree>>, initializer: Option<Box<ExprTree>>, is_parameter: bool, capture: CaptureAnnotation },
    FunctionDef { loc: Location, name: Id, params: Seq<DeclTree>, return_type: Option<Box<ExprTree>>, body: Box<ExprTree>, annotation: Annotation, ftype: Option<Box<ExprTree>>, captures: Seq<Id>, is_main: bool, extern_name: Option<Seq<char>> },
    DatDecl { loc: Location, name: Id, type_params: Seq<DeclTree>, fields: Seq<DeclTree>, is_quantum: bool },
    Import { loc: Location, path: Seq<char> },
}

/// The value of a declaration.
pub open spec fn decl_tree(e: Declaration) -> DeclTree
    decreases e,
{
    match e {
        Declaration::VarDecl { loc, name, dtype, vtype, initializer, is_parameter, capture } => DeclTree::VarDecl { loc, name, dtype: opt_expr_tree(dtype), vtype: opt_expr_tree(vtype), initializer: opt_expr_tree(initializer), is_parameter, capture },
        Declaration::FunctionDef { loc, name, params, return_type, body, annotation, ftype, captures, is_main, extern_name } => DeclTree::FunctionDef { loc, name, params: decls_tree(params@), return_type: opt_expr_tree(return_type), body: Box::new(expr_tree(*body)), annotation, ftype: opt_expr_tree(ftype), captures: captures@, is_main, extern_name: opt_text(extern_name) },
        Declaration::DatDecl { loc, name, type_params, fields, is_quantum } => DeclTree::DatDecl { loc, name, type_params: decls_tree(type_params@), fields: decls_tree(fields@), is_quantum },
        Declaration::Import { loc, path } => DeclTree::Import { loc, path: path@ },
    }
}

/// A type as a value: strings by their characters, numbers by their values,
/// vectors by their elements.
pub ghost enum KindTree {
    Numeric(NumericType),
    FixedInt(FixedIntTy),
    ZMod(ZModTy),
    Aggregate { name: Id, type_args: Seq<ExprTree> },
    Unit,
    Bottom,
    Tuple(Seq<ExprTree>),
    Array(Box<ExprTree>),
    Vector { element: Box<ExprTree>, length: Box<ExprTree> },
    String,
    Product { params: Seq<ExprTree>, domain: Box<ExprTree>, codomain: Box<ExprTree>, annotation: Annotation },
    Classical(Box<ExprTree>),
    QNumeric,
    TypeVar(usize),
    TypeMeta { variant: TypeMetaKind },
    Context(Seq<(Id, ExprTree)>),
}

/// The value of a type.
pub open spec fn kind_tree(e: TypeKind) -> KindTree
    decreases e,
{
    match e {
        TypeKind::Numeric(f0) => KindTree::Numeric(f0),
        TypeKind::FixedInt(f0) => KindTree::FixedInt(f0),
        TypeKind::ZMod(f0) => KindTree::ZMod(f0),
        TypeKind::Aggregate { name, type_args } => KindTree::Aggregate { name, type_args: exprs_tree(type_args@) },
        TypeKind::Unit => KindTree::Unit,
        TypeKind::Bottom => KindTree::Bottom,
        TypeKind::Tuple(f0) => KindTree::Tuple(exprs_tree(f0@)),
        TypeKind::Array(f0) => KindTree::Array(Box::new(expr_tree(*f0))),
        TypeKind::Vector { element, length } => KindTree::Vector { element: Box::new(expr_tree(*element)), length: Box::new(expr_tree(*length)) },
        TypeKind::String => KindTree::String,
        TypeKind::Product { params, domain, codomain, annotation } => KindTree::Product { params: exprs_tree(params@), domain: Box::new(expr_tree(*domain)), codomain: Box::new(expr_tree(*codomain)), annotation },
        TypeKind::Classical(f0) => KindTree::Classical(Box::new(expr_tree(*f0))),
        TypeKind::QNumeric => KindTree::QNumeric,
        TypeKind::TypeVar(f0) => KindTree::TypeVar(f0),
        TypeKind::TypeMeta { variant } => KindTree::TypeMeta { variant },
        TypeKind::Context(f0) => KindTree::Context(ctx_tree(f0@)),
    }
}

pub open spec fn opt_expr_tree(o: Option<Box<Expression>>) -> Option<Box<ExprTree>>
    decreases o,
{
    match o {
        Some(e) => Some(Box::new(expr_tree(*e))),
        None => None,
    }
}

pub open spec fn opt_decl_tree(o: Option<Box<Declaration>>) -> Option<Box<DeclTree>>
    decreases o,
{
    match o {
        Some(d) => Some(Box::new(decl_tree(*d))),
        None => None,
    }
}

pub open spec fn opt_text(o: Option<String>) -> Option<Seq<char>> {
    match o {
        Some(s) => Some(s@),
        None => None,
    }
}

/// The values of a sequence of expressions.
pub open spec fn exprs_tree(s: Seq<Expression>) -> Seq<ExprTree>
    decreases s,
{
    if s.len() == 0 {
        Seq::empty()
    } else {
        exprs_tree(s.drop_last()).push(expr_tree(s.last()))
    }
}

/// The values of a sequence of declarations.
pub open spec fn decls_tree(s: Seq<Declaration>) -> Seq<DeclTree>
    decreases s,
{
    if s.len() == 0 {
        Seq::empty()
    } else {
        decls_tree(s.drop_last()).push(decl_tree(s.last()))
    }
}

pub open spec fn ctx_tree(s: Seq<(Id, Expression)>) -> Seq<(Id, ExprTree)>
    decreases s,
{
    if s.len() == 0 {
        Seq::empty()
    } else {
        ctx_tree(s.drop_last()).push((s.last().0, expr_tree(s.last().1)))
    }
}

/// Pushing an expression adds its value at the end.
pub proof fn lemma_exprs_tree_push(s: Seq<Expression>, e: Expression)
    ensures
        exprs_tree(s.push(e)) == exprs_tree(s).push(expr_tree(e)),
{
    assert(s.push(e).drop_last() =~= s);
}

/// Pushing a declaration adds its value at the end.
pub proof fn lemma_decls_tree_push(s: Seq<Declaration>, d: Declaration)
    ensures
        decls_tree(s.push(d)) == decls_tree(s).push(decl_tree(d)),
{
    assert(s.push(d).drop_last() =~= s);
}

/// A one-element sequence has a one-element value.
pub proof fn lemma_exprs_tree_single(e: Expression)
    ensures
        exprs_tree(seq![e]) == seq![expr_tree(e)],
{
    assert(seq![e].drop_last() =~= Seq::<Expression>::empty());
    assert(exprs_tree(Seq::<Expression>::empty()) == Seq::<ExprTree>::empty());
    assert(exprs_tree(seq![e]) == exprs_tree(seq![e].drop_last()).push(expr_tree(e)));
    assert(exprs_tree(seq![e]) =~= seq![expr_tree(e)]);
}

/// A one-element sequence has a one-element value.
pub proof fn lemma_decls_tree_single(d: Declaration)
    ensures
        decls_tree(seq![d]) == seq![decl_tree(d)],
{
    assert(seq![d].drop_last() =~= Seq::<Declaration>::empty());
    assert(decls_tree(Seq::<Declaration>::empty()) == Seq::<DeclTree>::empty());
    assert(decls_tree(seq![d]) == decls_tree(seq![d].drop_last()).push(decl_tree(d)));
    assert(decls_tree(seq![d]) =~= seq![decl_tree(d)]);
}

/// The empty sequence has the empty value.
pub proof fn lemma_trees_empty()
    ensures
        exprs_tree(Seq::<Expression>::empty()) == Seq::<ExprTree>::empty(),
        decls_tree(Seq::<Declaration>::empty()) == Seq::<DeclTree>::empty(),
        expr_tree(Expression::Literal { loc: Location::spec_default(), value: LiteralValue::Unit, ty: None })
            == (ExprTree::Literal { loc: Location::spec_default(), value: LitVal::Unit, ty: None }),
        expr_tree(Expression::Type { loc: Location::spec_default(), kind: TypeKind::Unit })
            == (ExprTree::Type { loc: Location::spec_default(), kind: KindTree::Unit }),
        forall|loc: Location, name: Id| #[trigger]
            expr_tree(Expression::Identifier { loc, name, meaning: None, classical: false })
                == (ExprTree::Identifier { loc, name, meaning: None, classical: false }),
{
    assert(kind_tree(TypeKind::Unit) == KindTree::Unit);
    assert(opt_expr_tree(None) == None::<Box<ExprTree>>);
    assert forall|loc: Location, name: Id| #[trigger]
        expr_tree(Expression::Identifier { loc, name, meaning: None, classical: false })
            == (ExprTree::Identifier { loc, name, meaning: None, classical: false }) by {
        assert(opt_decl_tree(None) == None::<Box<DeclTree>>);
    }
}

/// The values of the leaves that the parser builds without looking at a
/// subexpression: the unit type, the empty optional, and an optional that
/// holds one expression.
pub proof fn lemma_tree_basics()
    ensures
        kind_tree(TypeKind::Unit) == KindTree::Unit,
        opt_expr_tree(None) == None::<Box<ExprTree>>,
        opt_decl_tree(None) == None::<Box<DeclTree>>,
        exprs_tree(Seq::<Expression>::empty()) == Seq::<ExprTree>::empty(),
        decls_tree(Seq::<Declaration>::empty()) == Seq::<DeclTree>::empty(),
        forall|e: Expression| #[trigger] opt_expr_tree(Some(Box::new(e))) == Some(Box::new(expr_tree(e))),
{
    assert forall|e: Expression| #[trigger] opt_expr_tree(Some(Box::new(e))) == Some(Box::new(expr_tree(e))) by {
    }
}

/// The value of two sequences one after the other is their values one after
/// the other.
pub proof fn lemma_exprs_tree_append(a: Seq<Expression>, b: Seq<Expression>)
    ensures
        exprs_tree(a + b) == exprs_tree(a) + exprs_tree(b),
    decreases b.len(),
{
    if b.len() == 0 {
        assert(a + b =~= a);
        assert(exprs_tree(a) + exprs_tree(b) =~= exprs_tree(a));
    } else {
        lemma_exprs_tree_append(a, b.drop_last());
        assert((a + b).drop_last() =~= a + b.drop_last());
        assert((a + b).last() == b.last());
        assert(exprs_tree(a) + exprs_tree(b) =~= (exprs_tree(a) + exprs_tree(b.drop_last())).push(expr_tree(b.last())));
    }
}

} // verus!
