//! Reverse computation transformation for Silq.
//!
//! Automatic generation of adjoint (reverse) functions for quantum
//! uncomputation: statement sequences are run backwards, additions become
//! their inverse, and everything else is copied.

use vstd::prelude::*;
use crate::ast::{
    clone_decls, clone_expr, clone_exprs, decls_eq, expr_eq, expr_loc, exprs_eq,
    lemma_exprs_size_elem, interned, Annotation, Declaration, Expression, Id, Interner,
};
use crate::token::TokenType;
use vstd::string::StringExecFns;

verus! {

/// The operator of the reversed binary operation.
pub open spec fn reversed_op(op: TokenType) -> TokenType {
    if op == TokenType::Plus {
        TokenType::Tilde
    } else {
        op
    }
}

/// `r` is the reverse of `e`: a compound runs the reverses of its
/// statements in the opposite order, a binary operation reverses both
/// operands (an addition becomes `~`), a call is copied without its resolved
/// callee, a return reverses its value, and anything else is an equal copy.
pub open spec fn reversed(e: Expression, r: Expression) -> bool
    decreases e,
{
    match e {
        Expression::Compound { loc, statements } => r matches Expression::Compound {
            loc: l,
            statements: rs,
        } && l == loc && rs@.len() == statements@.len() && forall|i: int|
            0 <= i < rs@.len() ==> reversed(
                statements@[statements@.len() - 1 - i],
                #[trigger] rs@[i],
            ),
        Expression::Binary { loc, op, left, right } => r matches Expression::Binary {
            loc: l,
            op: o,
            left: a,
            right: b,
        } && l == loc && o == reversed_op(op) && reversed(*left, *a) && reversed(*right, *b),
        Expression::Call { loc, function, arguments, .. } => r matches Expression::Call {
            loc: l,
            function: f,
            arguments: args,
            callee: None,
        } && l == loc && expr_eq(*f, *function) && exprs_eq(args@, arguments@),
        Expression::Return { loc, expr } => r matches Expression::Return { loc: l, expr: x } && l
            == loc && match (expr, x) {
            (Some(a), Some(b)) => reversed(*a, *b),
            (None, None) => true,
            _ => false,
        },
        Expression::Forget { loc, variable } => r matches Expression::Forget { loc: l, variable: v }
            && l == loc && expr_eq(*v, *variable),
        _ => expr_eq(r, e),
    }
}

/// `e` is built from literals and variables by binary operations, blocks
/// and returns.
pub open spec fn arithmetic(e: Expression) -> bool
    decreases e,
{
    match e {
        Expression::Literal { .. } => true,
        Expression::Identifier { .. } => true,
        Expression::Binary { left, right, .. } => arithmetic(*left) && arithmetic(*right),
        Expression::Compound { statements, .. } => forall|i: int|
            0 <= i < statements@.len() ==> arithmetic(#[trigger] statements@[i]),
        Expression::Return { expr, .. } => match expr {
            Some(x) => arithmetic(*x),
            None => true,
        },
        _ => false,
    }
}

/// No binary operation anywhere in `e` is an addition.
pub open spec fn addition_free(e: Expression) -> bool
    decreases e,
{
    match e {
        Expression::Binary { op, left, right, .. } => op != TokenType::Plus && addition_free(*left)
            && addition_free(*right),
        Expression::Compound { statements, .. } => forall|i: int|
            0 <= i < statements@.len() ==> addition_free(#[trigger] statements@[i]),
        Expression::Return { expr, .. } => match expr {
            Some(x) => addition_free(*x),
            None => true,
        },
        _ => true,
    }
}

/// The number of binary operations in `e` (of an arithmetic expression).
pub open spec fn operation_count(e: Expression) -> nat
    decreases e,
{
    match e {
        Expression::Binary { left, right, .. } => 1 + operation_count(*left) + operation_count(*right),
        Expression::Return { expr, .. } => match expr {
            Some(x) => operation_count(*x),
            None => 0,
        },
        _ => 0,
    }
}

/// Reversing an arithmetic expression undoes every addition: the reverse is
/// again arithmetic and holds no addition at all, however deep (under a
/// return, inside a block, in either operand).
pub proof fn lemma_reverse_removes_additions(e: Expression, r: Expression)
    requires
        arithmetic(e),
        reversed(e, r),
    ensures
        arithmetic(r),
        addition_free(r),
    decreases e,
{
    match e {
        Expression::Literal { .. } => {},
        Expression::Identifier { .. } => {},
        Expression::Binary { left, right, .. } => {
            let (a, b) = match r {
                Expression::Binary { left: a, right: b, .. } => (*a, *b),
                _ => (r, r),
            };
            lemma_reverse_removes_additions(*left, a);
            lemma_reverse_removes_additions(*right, b);
        },
        Expression::Compound { statements, .. } => {
            let rs = match r {
                Expression::Compound { statements: rs, .. } => rs,
                _ => statements,
            };
            let n = statements@.len();
            assert forall|i: int| 0 <= i < rs@.len() implies arithmetic(#[trigger] rs@[i])
                && addition_free(rs@[i]) by {
                assert(reversed(statements@[n - 1 - i], rs@[i]));
                lemma_reverse_removes_additions(statements@[n - 1 - i], rs@[i]);
            }
        },
        Expression::Return { expr, .. } => {
            match (expr, r) {
                (Some(a), Expression::Return { expr: Some(b), .. }) => {
                    lemma_reverse_removes_additions(*a, *b);
                },
                _ => {},
            }
        },
        _ => {},
    }
}

/// The reverse of a returned value is the returned reverse: reversing
/// `return a` gives `return b` at the same place, with `b` the reverse of `a`.
pub proof fn lemma_reverse_return(loc: crate::errors::Location, a: Expression, r: Expression)
    requires
        reversed(Expression::Return { loc, expr: Some(Box::new(a)) }, r),
    ensures
        r matches Expression::Return { loc: l, expr: Some(b) } && l == loc && reversed(a, *b),
{
}

/// Reversing a binary operation turns an addition into `~`, keeps any other
/// operator and the place, and reverses both operands.
pub proof fn lemma_reverse_binary(
    loc: crate::errors::Location,
    op: TokenType,
    a: Expression,
    b: Expression,
    r: Expression,
)
    requires
        reversed(Expression::Binary { loc, op, left: Box::new(a), right: Box::new(b) }, r),
    ensures
        r matches Expression::Binary { loc: l, op: o, left: ra, right: rb } && l == loc && (op
            == TokenType::Plus ==> o == TokenType::Tilde) && (op != TokenType::Plus ==> o == op)
            && reversed(a, *ra) && reversed(b, *rb),
{
}

/// Reversing a block runs the reverses of its statements in the opposite
/// order: the block keeps its place and its length, and its `i`-th
/// statement is the reverse of the `i`-th statement from the end.
pub proof fn lemma_reverse_block(loc: crate::errors::Location, statements: Vec<Expression>, r: Expression)
    requires
        reversed(Expression::Compound { loc, statements }, r),
    ensures
        r matches Expression::Compound { loc: l, statements: rs } && l == loc && rs@.len()
            == statements@.len() && forall|i: int|
            0 <= i < rs@.len() ==> reversed(statements@[statements@.len() - 1 - i], #[trigger] rs@[i]),
{
}

/// Reversing a call keeps the call as it is (same place, function and
/// arguments) and drops its resolved callee.
pub proof fn lemma_reverse_call(
    loc: crate::errors::Location,
    function: Expression,
    arguments: Vec<Expression>,
    callee: Option<Box<Declaration>>,
    r: Expression,
)
    requires
        reversed(Expression::Call { loc, function: Box::new(function), arguments, callee }, r),
    ensures
        r matches Expression::Call { loc: l, function: f, arguments: args, callee: None } && l == loc
            && expr_eq(*f, function) && exprs_eq(args@, arguments@),
{
}

/// Reversing keeps the number of operations of an arithmetic expression
/// outside blocks: each operation of `e` has exactly one counterpart in the
/// reverse.
pub proof fn lemma_reverse_keeps_operations(e: Expression, r: Expression)
    requires
        arithmetic(e),
        reversed(e, r),
    ensures
        operation_count(r) == operation_count(e),
    decreases e,
{
    match e {
        Expression::Binary { left, right, .. } => {
            match r {
                Expression::Binary { left: a, right: b, .. } => {
                    lemma_reverse_keeps_operations(*left, *a);
                    lemma_reverse_keeps_operations(*right, *b);
                },
                _ => {},
            }
        },
        Expression::Return { expr, .. } => {
            match (expr, r) {
                (Some(a), Expression::Return { expr: Some(b), .. }) => {
                    lemma_reverse_keeps_operations(*a, *b);
                },
                _ => {},
            }
        },
        _ => {},
    }
}

/// The text of a name in the interner (empty for an unknown id).
pub open spec fn name_text(names: Seq<Seq<char>>, id: Id) -> Seq<char> {
    if id.0 < names.len() {
        names[id.0 as int]
    } else {
        Seq::empty()
    }
}

/// Reverse a function definition.
/// Generates the adjoint (reverse) of a quantum function: its name with
/// `_rev` appended (interned), the same parameters and annotation, no
/// declared return type, the reversed body, located at the body.
pub fn reverse_function(func: &Declaration, interner: &mut Interner) -> (r: Option<Declaration>)
    ensures
        match *func {
            Declaration::FunctionDef { name, .. } => r matches Some(
                Declaration::FunctionDef { name: n, .. },
            ) && interned(
                *old(interner),
                *final(interner),
                name_text(old(interner).names(), name) + "_rev"@,
                n,
            ),
            _ => *final(interner) == *old(interner),
        },
        match *func {
            Declaration::FunctionDef { name, params, body, annotation, .. } => r matches Some(
                Declaration::FunctionDef {
                    loc,
                    params: ps,
                    return_type: None,
                    body: b,
                    annotation: a,
                    ..
                },
            ) && loc == expr_loc(*body) && decls_eq(ps@, params@) && a == annotation
                && reversed(*body, *b),
            _ => r is None,
        },
{
    match func {
        Declaration::FunctionDef { name, params, body, annotation, .. } => {
            let rev_name = reverse_function_name(*name, interner);
            let rev_body = reverse_expression(body);
            Some(
                Declaration::new_function(
                    *body.loc(),
                    rev_name,
                    clone_decls(params),
                    None,
                    rev_body,
                    *annotation,
                ),
            )
        },
        _ => None,
    }
}

/// Reverse a function name: the name with `_rev` appended, interned.
fn reverse_function_name(name: Id, interner: &mut Interner) -> (r: Id)
    ensures
        interned(*old(interner), *final(interner), name_text(old(interner).names(), name) + "_rev"@, r),
{
    let mut text = String::new();
    text.append(interner.lookup(name));
    text.append("_rev");
    proof {
        reveal_strlit("_rev");
    }
    interner.intern(text.as_str())
}

/// Reverse an expression.
/// For simple expressions, this is identity. For quantum operations,
/// it generates the inverse.
#[verifier::loop_isolation(false)]
fn reverse_expression(expr: &Expression) -> (r: Expression)
    ensures
        reversed(*expr, r),
    decreases expr,
{
    match expr {
        Expression::Compound { statements, loc } => {
            // Reverse the order of statements and reverse each one
            let n = statements.len();
            let mut reversed_stmts: Vec<Expression> = Vec::new();
            let mut i: usize = 0;
            while i < n
                invariant
                    n == statements@.len(),
                    i <= n,
                    reversed_stmts@.len() == i,
                    forall|j: int|
                        0 <= j < i ==> reversed(statements@[n - 1 - j], #[trigger] reversed_stmts@[j]),
                decreases n - i,
            {
                proof {
                    lemma_exprs_size_elem(statements@, n - 1 - i);
                }
                let s = reverse_expression(&statements[n - 1 - i]);
                reversed_stmts.push(s);
                i += 1;
            }
            Expression::new_compound(*loc, reversed_stmts)
        },
        Expression::Binary { op, left, right, loc } => {
            // For addition, subtraction becomes addition of negated
            Expression::new_binary(
                *loc,
                // Negate the operation for the reverse
                match op {
                    TokenType::Plus => TokenType::Tilde,
                    _ => *op,
                },
                reverse_expression(left),
                reverse_expression(right),
            )
        },
        Expression::Call { function, arguments, loc, .. } => {
            // Generate reverse function call
            Expression::new_call(*loc, clone_expr(function), clone_exprs(arguments))
        },
        Expression::Return { expr, loc } => {
            Expression::Return {
                loc: *loc,
                expr: match expr {
                    Some(e) => Some(Box::new(reverse_expression(e))),
                    None => None,
                },
            }
        },
        Expression::Forget { variable, loc } => {
            // Reverse of forget is to re-initialize to |0⟩
            // This requires special handling in the runtime
            Expression::Forget { loc: *loc, variable: Box::new(clone_expr(variable)) }
        },
        // For most expressions, the reverse is the identity
        _ => clone_expr(expr),
    }
}

/// Is a function annotation one whose functions can be run backwards
/// (`mfree`, `qfree`, or none)?
pub open spec fn reversible_annotation(a: Annotation) -> bool {
    a == Annotation::Mfree || a == Annotation::Qfree || a == Annotation::NoAnnotation
}

/// Check if a function is reversible (has a well-defined inverse).
pub fn is_reversible(func: &Declaration) -> (r: bool)
    ensures
        r == (*func matches Declaration::FunctionDef { annotation, .. } && reversible_annotation(
            annotation,
        )),
{
    match func {
        Declaration::FunctionDef { annotation, .. } => {
            matches!(annotation, Annotation::Mfree | Annotation::Qfree) || matches!(
                annotation,
                Annotation::NoAnnotation
            )
        },
        _ => false,
    }
}

} // verus!
