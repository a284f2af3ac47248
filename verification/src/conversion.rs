//! Type conversion system for Silq.
//!
//! Handles implicit and explicit type conversions between numeric types,
//! type coercions, and type punning (reinterpretation).
//!
//! Two type expressions are the same when they are equal as trees
//! (`expr_eq`): the same variants, locations and names, with literal values
//! compared by value.

use vstd::prelude::*;
use crate::ast::{
    ctx_eq, decl_eq, decls_eq, expr_eq, exprs_eq, lemma_expr_eq_refl, kind_eq, opt_decl_eq, opt_expr_eq, opt_text_eq,
    spec_is_subtype, Declaration, Expression, Id, LiteralValue, NumericType, TypeKind,
};
use crate::text::str_eq;

verus! {

// ---- Equality of syntax trees ----

/// Are two literal values equal (integers compared by value)?
fn same_lit(a: &LiteralValue, b: &LiteralValue) -> (r: bool)
    ensures
        r == (a@ == b@),
{
    match (a, b) {
        (LiteralValue::Bool(x), LiteralValue::Bool(y)) => *x == *y,
        (LiteralValue::Int(x), LiteralValue::Int(y)) => x.eq_value(y),
        (LiteralValue::Float(x), LiteralValue::Float(y)) => str_eq(x.as_str(), y.as_str()),
        (LiteralValue::Rational(n1, d1), LiteralValue::Rational(n2, d2)) => n1.eq_value(n2) && d1.eq_value(d2),
        (LiteralValue::String(x), LiteralValue::String(y)) => str_eq(x.as_str(), y.as_str()),
        (LiteralValue::Char(x), LiteralValue::Char(y)) => *x == *y,
        (LiteralValue::Unit, LiteralValue::Unit) => true,
        _ => false,
    }
}

fn same_opt_text(a: &Option<String>, b: &Option<String>) -> (r: bool)
    ensures
        r == opt_text_eq(*a, *b),
{
    match (a, b) {
        (Some(x), Some(y)) => str_eq(x.as_str(), y.as_str()),
        (None, None) => true,
        _ => false,
    }
}

fn same_ids(a: &Vec<Id>, b: &Vec<Id>) -> (r: bool)
    ensures
        r == (a@ == b@),
{
    if a.len() != b.len() {
        return false;
    }
    let mut i: usize = 0;
    while i < a.len()
        invariant
            a@.len() == b@.len(),
            i <= a@.len(),
            forall|j: int| 0 <= j < i ==> a@[j] == b@[j],
        decreases a@.len() - i,
    {
        if a[i] != b[i] {
            return false;
        }
        i += 1;
    }
    assert(a@ =~= b@);
    true
}

/// Are two expressions equal as trees?
pub fn same_expr(a: &Expression, b: &Expression) -> (r: bool)
    ensures
        r == expr_eq(*a, *b),
    decreases a,
{
    match (a, b) {
        (Expression::Error { loc: loc1, message: message1 }, Expression::Error { loc: loc2, message: message2 }) => *loc1 == *loc2 && str_eq(message1.as_str(), message2.as_str()),
        (Expression::Literal { loc: loc1, value: value1, ty: ty1 }, Expression::Literal { loc: loc2, value: value2, ty: ty2 }) => *loc1 == *loc2 && same_lit(value1, value2) && same_opt_expr(ty1, ty2),
        (Expression::Identifier { loc: loc1, name: name1, meaning: meaning1, classical: classical1 }, Expression::Identifier { loc: loc2, name: name2, meaning: meaning2, classical: classical2 }) => *loc1 == *loc2 && *name1 == *name2 && same_opt_decl(meaning1, meaning2) && *classical1 == *classical2,
        (Expression::Placeholder { loc: loc1 }, Expression::Placeholder { loc: loc2 }) => *loc1 == *loc2,
        (Expression::Wildcard { loc: loc1 }, Expression::Wildcard { loc: loc2 }) => *loc1 == *loc2,
        (Expression::Typeof { loc: loc1, expr: expr1 }, Expression::Typeof { loc: loc2, expr: expr2 }) => *loc1 == *loc2 && same_expr(&**expr1, &**expr2),
        (Expression::UnaryPlus { loc: loc1, expr: expr1 }, Expression::UnaryPlus { loc: loc2, expr: expr2 }) => *loc1 == *loc2 && same_expr(&**expr1, &**expr2),
        (Expression::UnaryMinus { loc: loc1, expr: expr1 }, Expression::UnaryMinus { loc: loc2, expr: expr2 }) => *loc1 == *loc2 && same_expr(&**expr1, &**expr2),
        (Expression::LogicalNot { loc: loc1, expr: expr1 }, Expression::LogicalNot { loc: loc2, expr: expr2 }) => *loc1 == *loc2 && same_expr(&**expr1, &**expr2),
        (Expression::BitwiseNot { loc: loc1, expr: expr1 }, Expression::BitwiseNot { loc: loc2, expr: expr2 }) => *loc1 == *loc2 && same_expr(&**expr1, &**expr2),
        (Expression::Binary { loc: loc1, op: op1, left: left1, right: right1 }, Expression::Binary { loc: loc2, op: op2, left: left2, right: right2 }) => *loc1 == *loc2 && *op1 == *op2 && same_expr(&**left1, &**left2) && same_expr(&**right1, &**right2),
        (Expression::Call { loc: loc1, function: function1, arguments: arguments1, callee: callee1 }, Expression::Call { loc: loc2, function: function2, arguments: arguments2, callee: callee2 }) => *loc1 == *loc2 && same_expr(&**function1, &**function2) && same_exprs(arguments1, arguments2) && same_opt_decl(callee1, callee2),
        (Expression::Index { loc: loc1, expr: expr1, index: index1 }, Expression::Index { loc: loc2, expr: expr2, index: index2 }) => *loc1 == *loc2 && same_expr(&**expr1, &**expr2) && same_expr(&**index1, &**index2),
        (Expression::Slice { loc: loc1, expr: expr1, start: start1, end: end1 }, Expression::Slice { loc: loc2, expr: expr2, start: start2, end: end2 }) => *loc1 == *loc2 && same_expr(&**expr1, &**expr2) && same_expr(&**start1, &**start2) && same_expr(&**end1, &**end2),
        (Expression::Field { loc: loc1, expr: expr1, field: field1 }, Expression::Field { loc: loc2, expr: expr2, field: field2 }) => *loc1 == *loc2 && same_expr(&**expr1, &**expr2) && *field1 == *field2,
        (Expression::Tuple { loc: loc1, elements: elements1 }, Expression::Tuple { loc: loc2, elements: elements2 }) => *loc1 == *loc2 && same_exprs(elements1, elements2),
        (Expression::Vector { loc: loc1, elements: elements1 }, Expression::Vector { loc: loc2, elements: elements2 }) => *loc1 == *loc2 && same_exprs(elements1, elements2),
        (Expression::Concat { loc: loc1, left: left1, right: right1 }, Expression::Concat { loc: loc2, left: left2, right: right2 }) => *loc1 == *loc2 && same_expr(&**left1, &**left2) && same_expr(&**right1, &**right2),
        (Expression::Let { loc: loc1, name: name1, type_ann: type_ann1, value: value1, body: body1 }, Expression::Let { loc: loc2, name: name2, type_ann: type_ann2, value: value2, body: body2 }) => *loc1 == *loc2 && *name1 == *name2 && same_opt_expr(type_ann1, type_ann2) && same_expr(&**value1, &**value2) && same_expr(&**body1, &**body2),
        (Expression::Assign { loc: loc1, target: target1, value: value1 }, Expression::Assign { loc: loc2, target: target2, value: value2 }) => *loc1 == *loc2 && same_expr(&**target1, &**target2) && same_expr(&**value1, &**value2),
        (Expression::Lambda { loc: loc1, params: params1, body: body1, annotation: annotation1 }, Expression::Lambda { loc: loc2, params: params2, body: body2, annotation: annotation2 }) => *loc1 == *loc2 && same_exprs(params1, params2) && same_expr(&**body1, &**body2) && *annotation1 == *annotation2,
        (Expression::IfThenElse { loc: loc1, condition: condition1, then_branch: then_branch1, else_branch: else_branch1 }, Expression::IfThenElse { loc: loc2, condition: condition2, then_branch: then_branch2, else_branch: else_branch2 }) => *loc1 == *loc2 && same_expr(&**condition1, &**condition2) && same_expr(&**then_branch1, &**then_branch2) && same_opt_expr(else_branch1, else_branch2),
        (Expression::With { loc: loc1, controller: controller1, body: body1 }, Expression::With { loc: loc2, controller: controller2, body: body2 }) => *loc1 == *loc2 && same_expr(&**controller1, &**controller2) && same_expr(&**body1, &**body2),
        (Expression::ForLoop { loc: loc1, variable: variable1, iterable: iterable1, body: body1 }, Expression::ForLoop { loc: loc2, variable: variable2, iterable: iterable2, body: body2 }) => *loc1 == *loc2 && *variable1 == *variable2 && same_expr(&**iterable1, &**iterable2) && same_expr(&**body1, &**body2),
        (Expression::WhileLoop { loc: loc1, condition: condition1, body: body1 }, Expression::WhileLoop { loc: loc2, condition: condition2, body: body2 }) => *loc1 == *loc2 && same_expr(&**condition1, &**condition2) && same_expr(&**body1, &**body2),
        (Expression::Repeat { loc: loc1, count: count1, body: body1 }, Expression::Repeat { loc: loc2, count: count2, body: body2 }) => *loc1 == *loc2 && same_expr(&**count1, &**count2) && same_expr(&**body1, &**body2),
        (Expression::Return { loc: loc1, expr: expr1 }, Expression::Return { loc: loc2, expr: expr2 }) => *loc1 == *loc2 && same_opt_expr(expr1, expr2),
        (Expression::Comma { loc: loc1, left: left1, right: right1 }, Expression::Comma { loc: loc2, left: left2, right: right2 }) => *loc1 == *loc2 && same_expr(&**left1, &**left2) && same_expr(&**right1, &**right2),
        (Expression::Compound { loc: loc1, statements: statements1 }, Expression::Compound { loc: loc2, statements: statements2 }) => *loc1 == *loc2 && same_exprs(statements1, statements2),
        (Expression::TypeAnnotation { loc: loc1, expr: expr1, ty: ty1, kind: kind1 }, Expression::TypeAnnotation { loc: loc2, expr: expr2, ty: ty2, kind: kind2 }) => *loc1 == *loc2 && same_expr(&**expr1, &**expr2) && same_expr(&**ty1, &**ty2) && *kind1 == *kind2,
        (Expression::Forget { loc: loc1, variable: variable1 }, Expression::Forget { loc: loc2, variable: variable2 }) => *loc1 == *loc2 && same_expr(&**variable1, &**variable2),
        (Expression::Assert { loc: loc1, condition: condition1, message: message1 }, Expression::Assert { loc: loc2, condition: condition2, message: message2 }) => *loc1 == *loc2 && same_expr(&**condition1, &**condition2) && same_opt_text(message1, message2),
        (Expression::Type { loc: loc1, kind: kind1 }, Expression::Type { loc: loc2, kind: kind2 }) => *loc1 == *loc2 && same_kind(kind1, kind2),
        (Expression::TypeDecl(f01), Expression::TypeDecl(f02)) => same_decl(&**f01, &**f02),
        (Expression::TypeVar { loc: loc1, index: index1 }, Expression::TypeVar { loc: loc2, index: index2 }) => *loc1 == *loc2 && *index1 == *index2,
        _ => false,
    }
}

/// Are two declarations equal as trees?
pub fn same_decl(a: &Declaration, b: &Declaration) -> (r: bool)
    ensures
        r == decl_eq(*a, *b),
    decreases a,
{
    match (a, b) {
        (Declaration::VarDecl { loc: loc1, name: name1, dtype: dtype1, vtype: vtype1, initializer: initializer1, is_parameter: is_parameter1, capture: capture1 }, Declaration::VarDecl { loc: loc2, name: name2, dtype: dtype2, vtype: vtype2, initializer: initializer2, is_parameter: is_parameter2, capture: capture2 }) => *loc1 == *loc2 && *name1 == *name2 && same_opt_expr(dtype1, dtype2) && same_opt_expr(vtype1, vtype2) && same_opt_expr(initializer1, initializer2) && *is_parameter1 == *is_parameter2 && *capture1 == *capture2,
        (Declaration::FunctionDef { loc: loc1, name: name1, params: params1, return_type: return_type1, body: body1, annotation: annotation1, ftype: ftype1, captures: captures1, is_main: is_main1, extern_name: extern_name1 }, Declaration::FunctionDef { loc: loc2, name: name2, params: params2, return_type: return_type2, body: body2, annotation: annotation2, ftype: ftype2, captures: captures2, is_main: is_main2, extern_name: extern_name2 }) => *loc1 == *loc2 && *name1 == *name2 && same_decls(params1, params2) && same_opt_expr(return_type1, return_type2) && same_expr(&**body1, &**body2) && *annotation1 == *annotation2 && same_opt_expr(ftype1, ftype2) && same_ids(captures1, captures2) && *is_main1 == *is_main2 && same_opt_text(extern_name1, extern_name2),
        (Declaration::DatDecl { loc: loc1, name: name1, type_params: type_params1, fields: fields1, is_quantum: is_quantum1 }, Declaration::DatDecl { loc: loc2, name: name2, type_params: type_params2, fields: fields2, is_quantum: is_quantum2 }) => *loc1 == *loc2 && *name1 == *name2 && same_decls(type_params1, type_params2) && same_decls(fields1, fields2) && *is_quantum1 == *is_quantum2,
        (Declaration::Import { loc: loc1, path: path1 }, Declaration::Import { loc: loc2, path: path2 }) => *loc1 == *loc2 && str_eq(path1.as_str(), path2.as_str()),
        _ => false,
    }
}

/// Are two types equal as trees?
pub fn same_kind(a: &TypeKind, b: &TypeKind) -> (r: bool)
    ensures
        r == kind_eq(*a, *b),
    decreases a,
{
    match (a, b) {
        (TypeKind::Numeric(f01), TypeKind::Numeric(f02)) => *f01 == *f02,
        (TypeKind::FixedInt(f01), TypeKind::FixedInt(f02)) => *f01 == *f02,
        (TypeKind::ZMod(f01), TypeKind::ZMod(f02)) => *f01 == *f02,
        (TypeKind::Aggregate { name: name1, type_args: type_args1 }, TypeKind::Aggregate { name: name2, type_args: type_args2 }) => *name1 == *name2 && same_exprs(type_args1, type_args2),
        (TypeKind::Unit, TypeKind::Unit) => true,
        (TypeKind::Bottom, TypeKind::Bottom) => true,
        (TypeKind::Tuple(f01), TypeKind::Tuple(f02)) => same_exprs(f01, f02),
        (TypeKind::Array(f01), TypeKind::Array(f02)) => same_expr(&**f01, &**f02),
        (TypeKind::Vector { element: element1, length: length1 }, TypeKind::Vector { element: element2, length: length2 }) => same_expr(&**element1, &**element2) && same_expr(&**length1, &**length2),
        (TypeKind::String, TypeKind::String) => true,
        (TypeKind::Product { params: params1, domain: domain1, codomain: codomain1, annotation: annotation1 }, TypeKind::Product { params: params2, domain: domain2, codomain: codomain2, annotation: annotation2 }) => same_exprs(params1, params2) && same_expr(&**domain1, &**domain2) && same_expr(&**codomain1, &**codomain2) && *annotation1 == *annotation2,
        (TypeKind::Classical(f01), TypeKind::Classical(f02)) => same_expr(&**f01, &**f02),
        (TypeKind::QNumeric, TypeKind::QNumeric) => true,
        (TypeKind::TypeVar(f01), TypeKind::TypeVar(f02)) => *f01 == *f02,
        (TypeKind::TypeMeta { variant: variant1 }, TypeKind::TypeMeta { variant: variant2 }) => *variant1 == *variant2,
        (TypeKind::Context(f01), TypeKind::Context(f02)) => same_ctx(f01, f02),
        _ => false,
    }
}

fn same_opt_expr(a: &Option<Box<Expression>>, b: &Option<Box<Expression>>) -> (r: bool)
    ensures
        r == opt_expr_eq(*a, *b),
    decreases a,
{
    match (a, b) {
        (Some(x), Some(y)) => same_expr(&**x, &**y),
        (None, None) => true,
        _ => false,
    }
}

fn same_opt_decl(a: &Option<Box<Declaration>>, b: &Option<Box<Declaration>>) -> (r: bool)
    ensures
        r == opt_decl_eq(*a, *b),
    decreases a,
{
    match (a, b) {
        (Some(x), Some(y)) => same_decl(&**x, &**y),
        (None, None) => true,
        _ => false,
    }
}

#[verifier::loop_isolation(false)]
fn same_exprs(a: &Vec<Expression>, b: &Vec<Expression>) -> (r: bool)
    ensures
        r == exprs_eq(a@, b@),
    decreases a,
{
    if a.len() != b.len() {
        return false;
    }
    let mut i: usize = 0;
    while i < a.len()
        invariant
            a@.len() == b@.len(),
            i <= a@.len(),
            exprs_eq(a@.subrange(0, i as int), b@.subrange(0, i as int)),
        decreases a@.len() - i,
    {
        proof {
            assert(a@.subrange(0, i + 1).drop_last() =~= a@.subrange(0, i as int));
            assert(b@.subrange(0, i + 1).drop_last() =~= b@.subrange(0, i as int));
        }
        if !same_expr(&a[i], &b[i]) {
            proof {
                if exprs_eq(a@, b@) {
                    lemma_exprs_eq_prefix(a@, b@, i as int + 1);
                }
            }
            return false;
        }
        i += 1;
    }
    proof {
        assert(a@.subrange(0, a@.len() as int) =~= a@);
        assert(b@.subrange(0, b@.len() as int) =~= b@);
    }
    true
}

#[verifier::loop_isolation(false)]
fn same_decls(a: &Vec<Declaration>, b: &Vec<Declaration>) -> (r: bool)
    ensures
        r == decls_eq(a@, b@),
    decreases a,
{
    if a.len() != b.len() {
        return false;
    }
    let mut i: usize = 0;
    while i < a.len()
        invariant
            a@.len() == b@.len(),
            i <= a@.len(),
            decls_eq(a@.subrange(0, i as int), b@.subrange(0, i as int)),
        decreases a@.len() - i,
    {
        proof {
            assert(a@.subrange(0, i + 1).drop_last() =~= a@.subrange(0, i as int));
            assert(b@.subrange(0, i + 1).drop_last() =~= b@.subrange(0, i as int));
        }
        if !same_decl(&a[i], &b[i]) {
            proof {
                if decls_eq(a@, b@) {
                    lemma_decls_eq_prefix(a@, b@, i as int + 1);
                }
            }
            return false;
        }
        i += 1;
    }
    proof {
        assert(a@.subrange(0, a@.len() as int) =~= a@);
        assert(b@.subrange(0, b@.len() as int) =~= b@);
    }
    true
}

#[verifier::loop_isolation(false)]
fn same_ctx(a: &Vec<(Id, Expression)>, b: &Vec<(Id, Expression)>) -> (r: bool)
    ensures
        r == ctx_eq(a@, b@),
    decreases a,
{
    if a.len() != b.len() {
        return false;
    }
    let mut i: usize = 0;
    while i < a.len()
        invariant
            a@.len() == b@.len(),
            i <= a@.len(),
            ctx_eq(a@.subrange(0, i as int), b@.subrange(0, i as int)),
        decreases a@.len() - i,
    {
        proof {
            assert(a@.subrange(0, i + 1).drop_last() =~= a@.subrange(0, i as int));
            assert(b@.subrange(0, i + 1).drop_last() =~= b@.subrange(0, i as int));
        }
        if a[i].0 != b[i].0 || !same_expr(&a[i].1, &b[i].1) {
            proof {
                if ctx_eq(a@, b@) {
                    lemma_ctx_eq_prefix(a@, b@, i as int + 1);
                }
            }
            return false;
        }
        i += 1;
    }
    proof {
        assert(a@.subrange(0, a@.len() as int) =~= a@);
        assert(b@.subrange(0, b@.len() as int) =~= b@);
    }
    true
}

/// Equal lists have equal prefixes.
proof fn lemma_exprs_eq_prefix(a: Seq<Expression>, b: Seq<Expression>, n: int)
    requires
        0 <= n <= a.len(),
        exprs_eq(a, b),
    ensures
        exprs_eq(a.subrange(0, n), b.subrange(0, n)),
    decreases a.len() - n,
{
    if n == a.len() {
        assert(a.subrange(0, n) =~= a);
        assert(b.subrange(0, n) =~= b);
    } else {
        lemma_exprs_eq_prefix(a, b, n + 1);
        assert(a.subrange(0, n + 1).drop_last() =~= a.subrange(0, n));
        assert(b.subrange(0, n + 1).drop_last() =~= b.subrange(0, n));
    }
}

proof fn lemma_decls_eq_prefix(a: Seq<Declaration>, b: Seq<Declaration>, n: int)
    requires
        0 <= n <= a.len(),
        decls_eq(a, b),
    ensures
        decls_eq(a.subrange(0, n), b.subrange(0, n)),
    decreases a.len() - n,
{
    if n == a.len() {
        assert(a.subrange(0, n) =~= a);
        assert(b.subrange(0, n) =~= b);
    } else {
        lemma_decls_eq_prefix(a, b, n + 1);
        assert(a.subrange(0, n + 1).drop_last() =~= a.subrange(0, n));
        assert(b.subrange(0, n + 1).drop_last() =~= b.subrange(0, n));
    }
}

proof fn lemma_ctx_eq_prefix(a: Seq<(Id, Expression)>, b: Seq<(Id, Expression)>, n: int)
    requires
        0 <= n <= a.len(),
        ctx_eq(a, b),
    ensures
        ctx_eq(a.subrange(0, n), b.subrange(0, n)),
    decreases a.len() - n,
{
    if n == a.len() {
        assert(a.subrange(0, n) =~= a);
        assert(b.subrange(0, n) =~= b);
    } else {
        lemma_ctx_eq_prefix(a, b, n + 1);
        assert(a.subrange(0, n + 1).drop_last() =~= a.subrange(0, n));
        assert(b.subrange(0, n + 1).drop_last() =~= b.subrange(0, n));
    }
}

// ---- Conversions ----

/// The numeric type a type expression denotes, looking through `!` (classical).
pub open spec fn numeric_of(e: Expression) -> Option<NumericType>
    decreases e,
{
    match e {
        Expression::Type { kind: TypeKind::Numeric(nt), .. } => Some(nt),
        Expression::Type { kind: TypeKind::Classical(inner), .. } => numeric_of(*inner),
        _ => None,
    }
}

/// A value of type `from` converts implicitly to type `to`: the types are
/// the same, or both are numeric and `from` is a subtype of `to`.
pub open spec fn implicitly_converts(from: Expression, to: Expression) -> bool {
    expr_eq(from, to) || match (numeric_of(from), numeric_of(to)) {
        (Some(ft), Some(tt)) => spec_is_subtype(ft, tt),
        _ => false,
    }
}

/// Every type converts implicitly to itself.
pub proof fn lemma_implicit_convert_refl(t: Expression)
    ensures
        implicitly_converts(t, t),
{
    lemma_expr_eq_refl(t);
}

/// Check if a value of type `from` can be implicitly converted to type `to`.
pub fn can_implicit_convert(from: &Expression, to: &Expression) -> (r: bool)
    ensures
        r == implicitly_converts(*from, *to),
{
    // If they're the same type, no conversion needed
    if same_expr(from, to) {
        return true;
    }
    match (get_numeric_type(from), get_numeric_type(to)) {
        (Some(ft), Some(tt)) => ft.is_subtype_of(tt),
        _ => false,
    }
}

/// Get the numeric type from an expression (if it's a numeric type expression).
fn get_numeric_type(expr: &Expression) -> (r: Option<NumericType>)
    ensures
        r == numeric_of(*expr),
    decreases expr,
{
    match expr {
        Expression::Type { kind: TypeKind::Numeric(nt), .. } => Some(*nt),
        Expression::Type { kind: TypeKind::Classical(inner), .. } => get_numeric_type(&**inner),
        _ => None,
    }
}

/// Is the type expression a classical type?  `!T`, the classical numeric
/// types, classical fixed-width and modular integers, and unit are.
pub open spec fn classical_type(e: Expression) -> bool {
    match e {
        Expression::Type { kind: TypeKind::Classical(_), .. } => true,
        Expression::Type { kind: TypeKind::Numeric(nt), .. } => !(nt == NumericType::Bool || nt
            == NumericType::Complex),
        Expression::Type { kind: TypeKind::FixedInt(fit), .. } => fit.is_classical,
        Expression::Type { kind: TypeKind::ZMod(zm), .. } => zm.is_classical,
        Expression::Type { kind: TypeKind::Unit, .. } => true,
        _ => false,
    }
}

/// Check if an expression is a classical type.
pub fn is_classical_type(expr: &Expression) -> (r: bool)
    ensures
        r == classical_type(*expr),
{
    match expr {
        Expression::Type { kind: TypeKind::Classical(_), .. } => true,
        // ℕ,ℤ,ℚ,ℝ are inherently classical; 𝔹,ℂ are quantum unless wrapped in Classical
        Expression::Type { kind: TypeKind::Numeric(nt), .. } => match nt {
            NumericType::Bool | NumericType::Complex => false,
            NumericType::Nat | NumericType::Int | NumericType::Rat | NumericType::Real => true,
        },
        Expression::Type { kind: TypeKind::FixedInt(fit), .. } => fit.is_classical,
        Expression::Type { kind: TypeKind::ZMod(zm), .. } => zm.is_classical,
        Expression::Type { kind: TypeKind::Unit, .. } => true,
        _ => false,
    }
}

/// Check if an expression is a quantum type.
pub fn is_quantum_type(expr: &Expression) -> (r: bool)
    ensures
        r == !classical_type(*expr),
{
    !is_classical_type(expr)
}

} // verus!
