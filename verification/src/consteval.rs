//! Constant expression evaluation for Silq.
//!
//! Evaluates integer and boolean expressions at compile time, exactly (the
//! integers are arbitrary-precision).  Floating-point literals are not
//! folded here: an operation on them evaluates to nothing.

use vstd::prelude::*;
use crate::ast::{Expression, LitVal, LiteralValue};
use crate::bignum::{trunc_div, BigNum};
use crate::token::TokenType;

verus! {

/// The value of `a op b` on literal values, when it can be computed exactly.
pub open spec fn binary_value(a: LitVal, b: LitVal, op: TokenType) -> Option<LitVal> {
    match (a, b) {
        (LitVal::Int(x), LitVal::Int(y)) => if op == TokenType::Plus {
            Some(LitVal::Int(x + y))
        } else if op == TokenType::Minus {
            Some(LitVal::Int(x - y))
        } else if op == TokenType::Mul {
            Some(LitVal::Int(x * y))
        } else if op == TokenType::Div {
            if y == 0 {
                None
            } else {
                Some(LitVal::Int(trunc_div(x, y)))
            }
        } else if op == TokenType::Eq {
            Some(LitVal::Bool(x == y))
        } else if op == TokenType::Neq {
            Some(LitVal::Bool(x != y))
        } else if op == TokenType::Lt {
            Some(LitVal::Bool(x < y))
        } else if op == TokenType::Gt {
            Some(LitVal::Bool(x > y))
        } else if op == TokenType::Le {
            Some(LitVal::Bool(x <= y))
        } else if op == TokenType::Ge {
            Some(LitVal::Bool(x >= y))
        } else {
            None
        },
        (LitVal::Bool(x), LitVal::Bool(y)) => if op == TokenType::Eq {
            Some(LitVal::Bool(x == y))
        } else if op == TokenType::Neq {
            Some(LitVal::Bool(x != y))
        } else {
            None
        },
        _ => None,
    }
}

/// The constant value of an expression, when it has one that can be computed exactly.
pub open spec fn const_value(e: Expression) -> Option<LitVal>
    decreases e,
{
    match e {
        Expression::Literal { value, .. } => Some(value@),
        Expression::Binary { op, left, right, .. } => match (const_value(*left), const_value(*right)) {
            (Some(a), Some(b)) => binary_value(a, b, op),
            _ => None,
        },
        Expression::UnaryMinus { expr, .. } => match const_value(*expr) {
            Some(LitVal::Int(n)) => Some(LitVal::Int(-n)),
            _ => None,
        },
        Expression::LogicalNot { expr, .. } => match const_value(*expr) {
            Some(LitVal::Bool(b)) => Some(LitVal::Bool(!b)),
            _ => None,
        },
        _ => None,
    }
}

/// Evaluate a literal expression, returning the literal value.
pub fn eval_literal(expr: &Expression) -> (r: Option<&LiteralValue>)
    ensures
        match *expr {
            Expression::Literal { value, .. } => r == Some(&value),
            _ => r is None,
        },
{
    match expr {
        Expression::Literal { value, .. } => Some(value),
        _ => None,
    }
}

/// Evaluate a binary operation on literal values.
pub fn eval_binary_literal(left: &LiteralValue, right: &LiteralValue, op: TokenType) -> (r: Option<
    LiteralValue,
>)
    ensures
        match r {
            Some(v) => binary_value(left@, right@, op) == Some(v@),
            None => binary_value(left@, right@, op) is None,
        },
{
    match op {
        TokenType::Plus => match (left, right) {
            (LiteralValue::Int(a), LiteralValue::Int(b)) => Some(LiteralValue::Int(a.add(b))),
            _ => None,
        },
        TokenType::Minus => match (left, right) {
            (LiteralValue::Int(a), LiteralValue::Int(b)) => Some(LiteralValue::Int(a.sub(b))),
            _ => None,
        },
        TokenType::Mul => match (left, right) {
            (LiteralValue::Int(a), LiteralValue::Int(b)) => Some(LiteralValue::Int(a.mul(b))),
            _ => None,
        },
        TokenType::Div => match (left, right) {
            (LiteralValue::Int(a), LiteralValue::Int(b)) => {
                if b.is_zero() {
                    return None;
                }
                Some(LiteralValue::Int(a.div(b)))
            },
            _ => None,
        },
        TokenType::Eq => match (left, right) {
            (LiteralValue::Int(a), LiteralValue::Int(b)) => Some(LiteralValue::Bool(a.eq_value(b))),
            (LiteralValue::Bool(a), LiteralValue::Bool(b)) => Some(LiteralValue::Bool(*a == *b)),
            _ => None,
        },
        TokenType::Neq => match (left, right) {
            (LiteralValue::Int(a), LiteralValue::Int(b)) => Some(LiteralValue::Bool(!a.eq_value(b))),
            (LiteralValue::Bool(a), LiteralValue::Bool(b)) => Some(LiteralValue::Bool(*a != *b)),
            _ => None,
        },
        TokenType::Lt => match (left, right) {
            (LiteralValue::Int(a), LiteralValue::Int(b)) => Some(LiteralValue::Bool(a.lt_value(b))),
            _ => None,
        },
        TokenType::Gt => match (left, right) {
            (LiteralValue::Int(a), LiteralValue::Int(b)) => Some(LiteralValue::Bool(a.gt_value(b))),
            _ => None,
        },
        TokenType::Le => match (left, right) {
            (LiteralValue::Int(a), LiteralValue::Int(b)) => Some(LiteralValue::Bool(a.le_value(b))),
            _ => None,
        },
        TokenType::Ge => match (left, right) {
            (LiteralValue::Int(a), LiteralValue::Int(b)) => Some(LiteralValue::Bool(a.ge_value(b))),
            _ => None,
        },
        _ => None,
    }
}

/// Attempt to evaluate an expression to a constant.
pub fn const_eval(expr: &Expression) -> (r: Option<LiteralValue>)
    ensures
        match r {
            Some(v) => const_value(*expr) == Some(v@),
            None => const_value(*expr) is None,
        },
    decreases expr,
{
    match expr {
        Expression::Literal { value, .. } => Some(value.clone()),
        Expression::Binary { op, left, right, .. } => {
            let lval = match const_eval(left) {
                Some(v) => v,
                None => return None,
            };
            let rval = match const_eval(right) {
                Some(v) => v,
                None => return None,
            };
            eval_binary_literal(&lval, &rval, *op)
        },
        Expression::UnaryMinus { expr, .. } => {
            let val = match const_eval(expr) {
                Some(v) => v,
                None => return None,
            };
            match val {
                LiteralValue::Int(n) => Some(LiteralValue::Int(n.neg())),
                _ => None,
            }
        },
        Expression::LogicalNot { expr, .. } => {
            let val = match const_eval(expr) {
                Some(v) => v,
                None => return None,
            };
            match val {
                LiteralValue::Bool(b) => Some(LiteralValue::Bool(!b)),
                _ => None,
            }
        },
        _ => None,
    }
}

/// Folding two integers does their arithmetic: `+`, `-` and `*` give the
/// sum, difference and product, `/` by zero gives nothing, and the six
/// comparisons give whether the comparison holds.
pub proof fn lemma_integer_folding(x: int, y: int)
    ensures
        binary_value(LitVal::Int(x), LitVal::Int(y), TokenType::Plus) == Some(LitVal::Int(x + y)),
        binary_value(LitVal::Int(x), LitVal::Int(y), TokenType::Minus) == Some(LitVal::Int(x - y)),
        binary_value(LitVal::Int(x), LitVal::Int(y), TokenType::Mul) == Some(LitVal::Int(x * y)),
        y == 0 ==> binary_value(LitVal::Int(x), LitVal::Int(y), TokenType::Div) is None,
        binary_value(LitVal::Int(x), LitVal::Int(y), TokenType::Eq) == Some(LitVal::Bool(x == y)),
        binary_value(LitVal::Int(x), LitVal::Int(y), TokenType::Neq) == Some(LitVal::Bool(x != y)),
        binary_value(LitVal::Int(x), LitVal::Int(y), TokenType::Lt) == Some(LitVal::Bool(x < y)),
        binary_value(LitVal::Int(x), LitVal::Int(y), TokenType::Gt) == Some(LitVal::Bool(x > y)),
        binary_value(LitVal::Int(x), LitVal::Int(y), TokenType::Le) == Some(LitVal::Bool(x <= y)),
        binary_value(LitVal::Int(x), LitVal::Int(y), TokenType::Ge) == Some(LitVal::Bool(x >= y)),
{
}

/// Folding `x / y` with `y` nonzero gives the quotient rounded toward zero:
/// a `q` whose remainder `x - q * y` is smaller than `y` in size and is
/// zero or has the sign of `x`.
pub proof fn lemma_integer_division_folding(x: int, y: int)
    requires
        y != 0,
    ensures
        binary_value(LitVal::Int(x), LitVal::Int(y), TokenType::Div) matches Some(LitVal::Int(q)) && {
            let r = x - q * y;
            &&& (if r >= 0 { r } else { -r }) < (if y >= 0 { y } else { -y })
            &&& (r == 0 || (r > 0) == (x > 0))
        },
{
    let ax = if x >= 0 { x } else { -x };
    let ay = if y >= 0 { y } else { -y };
    let qq = ax / ay;
    let m = ax % ay;
    vstd::arithmetic::div_mod::lemma_fundamental_div_mod(ax, ay);
    assert(0 <= m < ay);
    assert(ax == ay * qq + m);
    let q = trunc_div(x, y);
    assert(q == if (x >= 0) == (y >= 0) { qq } else { -qq });
    assert(x - q * y == if x >= 0 { m } else { -m }) by (nonlinear_arith)
        requires
            ax == ay * qq + m,
            ax == (if x >= 0 { x } else { -x }),
            ay == (if y >= 0 { y } else { -y }),
            q == (if (x >= 0) == (y >= 0) { qq } else { -qq }),
    ;
    assert(x >= 0 && m > 0 ==> x > 0);
}

/// A sum of two constant integer expressions is a constant: the sum of their
/// values; likewise for the difference and the product.
pub proof fn lemma_constant_arithmetic(loc: crate::errors::Location, l: Expression, r: Expression, a: int, b: int)
    requires
        const_value(l) == Some(LitVal::Int(a)),
        const_value(r) == Some(LitVal::Int(b)),
    ensures
        const_value(Expression::Binary { loc, op: TokenType::Plus, left: Box::new(l), right: Box::new(r) })
            == Some(LitVal::Int(a + b)),
        const_value(Expression::Binary { loc, op: TokenType::Minus, left: Box::new(l), right: Box::new(r) })
            == Some(LitVal::Int(a - b)),
        const_value(Expression::Binary { loc, op: TokenType::Mul, left: Box::new(l), right: Box::new(r) })
            == Some(LitVal::Int(a * b)),
{
    lemma_integer_folding(a, b);
}

/// Truth values fold under `==` and `!=` only: equality and difference of
/// the two values; another operator on them, or a truth value against an
/// integer, folds to nothing.
pub proof fn lemma_boolean_folding(x: bool, y: bool, n: int, op: TokenType)
    ensures
        binary_value(LitVal::Bool(x), LitVal::Bool(y), TokenType::Eq) == Some(LitVal::Bool(x == y)),
        binary_value(LitVal::Bool(x), LitVal::Bool(y), TokenType::Neq) == Some(LitVal::Bool(x != y)),
        op != TokenType::Eq && op != TokenType::Neq ==> binary_value(LitVal::Bool(x), LitVal::Bool(y), op) is None,
        binary_value(LitVal::Bool(x), LitVal::Int(n), op) is None,
        binary_value(LitVal::Int(n), LitVal::Bool(x), op) is None,
{
}

/// Negating a constant integer expression gives the negated value, and
/// `!` on a constant truth value gives the opposite value.
pub proof fn lemma_unary_folding(loc: crate::errors::Location, e: Expression)
    ensures
        const_value(e) matches Some(LitVal::Int(a)) ==> const_value(Expression::UnaryMinus { loc, expr: Box::new(e) })
            == Some(LitVal::Int(-a)),
        const_value(e) matches Some(LitVal::Bool(b)) ==> const_value(Expression::LogicalNot { loc, expr: Box::new(e) })
            == Some(LitVal::Bool(!b)),
{
}

} // verus!
