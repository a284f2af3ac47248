//! Resource/linearity checker for Silq.
//!
//! Verifies that quantum resources are used correctly:
//! - Linear (moved) values are used exactly once
//! - Const values can be duplicated
//! - Quantum operations appear only in valid contexts
//! - `forget` operations are correctly placed
//!
//! The check walks the body in evaluation order.  Its outcome is given by
//! `check_expr_spec`: the variables consumed afterwards and the errors
//! reported on the way.

use vstd::prelude::*;
use std::collections::HashSet;
use crate::ast::{CaptureAnnotation, Declaration, Expression};
use crate::scope::Scope;

verus! {

broadcast use vstd::std_specs::hash::group_hash_axioms;

/// The error for a use of a variable after it was forgotten.
pub open spec fn consumed_use_message() -> Seq<char> {
    "[checker error] use of consumed variable"@
}

/// The error for an assignment to a `const` variable.
pub open spec fn const_assign_message() -> Seq<char> {
    "[checker error] cannot assign to const variable"@
}

/// Checking `e` with the variables `consumed` already used up and the
/// `consts` marked constant: the variables used up afterwards, and the
/// errors reported, in order.
pub open spec fn check_expr_spec(e: Expression, consumed: Set<usize>, consts: Set<usize>, moved: Set<usize>) -> (
    Set<usize>,
    Seq<Seq<char>>,
)
    decreases e,
{
    match e {
        Expression::Identifier { name, .. } => if consumed.contains(name.0) {
            (consumed, seq![consumed_use_message()])
        } else if moved.contains(name.0) {
            (consumed.insert(name.0), Seq::empty())
        } else {
            (consumed, Seq::empty())
        },
        Expression::Binary { left, right, .. } => {
            let (c1, m1) = check_expr_spec(*left, consumed, consts, moved);
            let (c2, m2) = check_expr_spec(*right, c1, consts, moved);
            (c2, m1 + m2)
        },
        Expression::Call { function, arguments, .. } => {
            let (c1, m1) = check_expr_spec(*function, consumed, consts, moved);
            let (c2, m2) = check_list_spec(arguments@, c1, consts, moved);
            (c2, m1 + m2)
        },
        Expression::Let { value, body, .. } => {
            let (c1, m1) = check_expr_spec(*value, consumed, consts, moved);
            let (c2, m2) = check_expr_spec(*body, c1, consts, moved);
            (c2, m1 + m2)
        },
        Expression::Assign { target, value, .. } => {
            let (c1, m1) = check_expr_spec(*value, consumed, consts, moved);
            let m2 = match *target {
                Expression::Identifier { name, .. } => if consts.contains(name.0) {
                    seq![const_assign_message()]
                } else {
                    Seq::empty()
                },
                _ => Seq::empty(),
            };
            (c1, m1 + m2)
        },
        Expression::Compound { statements, .. } => check_list_spec(statements@, consumed, consts, moved),
        Expression::IfThenElse { condition, then_branch, else_branch, .. } => {
            let (c1, m1) = check_expr_spec(*condition, consumed, consts, moved);
            let (c2, m2) = check_expr_spec(*then_branch, c1, consts, moved);
            match else_branch {
                Some(b) => {
                    let (c3, m3) = check_expr_spec(*b, c2, consts, moved);
                    (c3, m1 + m2 + m3)
                },
                None => (c2, m1 + m2),
            }
        },
        Expression::ForLoop { body, .. } => check_expr_spec(*body, consumed, consts, moved),
        Expression::WhileLoop { condition, body, .. } => {
            let (c1, m1) = check_expr_spec(*condition, consumed, consts, moved);
            let (c2, m2) = check_expr_spec(*body, c1, consts, moved);
            (c2, m1 + m2)
        },
        Expression::Return { expr, .. } => match expr {
            Some(x) => check_expr_spec(*x, consumed, consts, moved),
            None => (consumed, Seq::empty()),
        },
        Expression::Forget { variable, .. } => match *variable {
            Expression::Identifier { name, .. } => (consumed.insert(name.0), Seq::empty()),
            _ => (consumed, Seq::empty()),
        },
        Expression::With { controller, body, .. } => {
            let (c1, m1) = check_expr_spec(*controller, consumed, consts, moved);
            let (c2, m2) = check_expr_spec(*body, c1, consts, moved);
            (c2, m1 + m2)
        },
        _ => (consumed, Seq::empty()),
    }
}

/// Checking the expressions `es` one after the other.
pub open spec fn check_list_spec(es: Seq<Expression>, consumed: Set<usize>, consts: Set<usize>, moved: Set<usize>) -> (
    Set<usize>,
    Seq<Seq<char>>,
)
    decreases es,
{
    if es.len() == 0 {
        (consumed, Seq::empty())
    } else {
        let (c1, m1) = check_list_spec(es.drop_last(), consumed, consts, moved);
        let (c2, m2) = check_expr_spec(es.last(), c1, consts, moved);
        (c2, m1 + m2)
    }
}

/// `x` is read by `e`: it stands as a variable in one of the places the
/// check walks through: the operands of a binary operation, the function
/// and the arguments of a call, the value and the body of a `let`, the
/// value of an assignment, the statements of a block, the condition and the
/// branches of an `if`, the body of a `for` loop, the condition and the body
/// of a `while` loop, the value of a `return`, and the controller and the
/// body of a `with`.
pub open spec fn reads(e: Expression, x: usize) -> bool
    decreases e,
{
    match e {
        Expression::Identifier { name, .. } => name.0 == x,
        Expression::Binary { left, right, .. } => reads(*left, x) || reads(*right, x),
        Expression::Call { function, arguments, .. } => reads(*function, x) || reads_any(arguments@, x),
        Expression::Let { value, body, .. } => reads(*value, x) || reads(*body, x),
        Expression::Assign { value, .. } => reads(*value, x),
        Expression::Compound { statements, .. } => reads_any(statements@, x),
        Expression::IfThenElse { condition, then_branch, else_branch, .. } => reads(*condition, x)
            || reads(*then_branch, x) || match else_branch {
            Some(b) => reads(*b, x),
            None => false,
        },
        Expression::ForLoop { body, .. } => reads(*body, x),
        Expression::WhileLoop { condition, body, .. } => reads(*condition, x) || reads(*body, x),
        Expression::Return { expr, .. } => match expr {
            Some(v) => reads(*v, x),
            None => false,
        },
        Expression::With { controller, body, .. } => reads(*controller, x) || reads(*body, x),
        _ => false,
    }
}

/// `x` is read by one of `es`.
pub open spec fn reads_any(es: Seq<Expression>, x: usize) -> bool
    decreases es,
{
    if es.len() == 0 {
        false
    } else {
        reads_any(es.drop_last(), x) || reads(es.last(), x)
    }
}

proof fn lemma_contains_concat(a: Seq<Seq<char>>, b: Seq<Seq<char>>, v: Seq<char>)
    ensures
        a.contains(v) ==> (a + b).contains(v),
        b.contains(v) ==> (a + b).contains(v),
{
    if a.contains(v) {
        let j = choose|j: int| 0 <= j < a.len() && a[j] == v;
        assert((a + b)[j] == v);
    }
    if b.contains(v) {
        let j = choose|j: int| 0 <= j < b.len() && b[j] == v;
        assert((a + b)[a.len() + j] == v);
    }
}

/// A variable that is used up (forgotten, or a linear one already used) is
/// reported wherever it is read again: checking any expression that reads
/// it reports a use of a consumed variable.
pub proof fn lemma_consumed_use_reported(
    e: Expression,
    consumed: Set<usize>,
    consts: Set<usize>,
    moved: Set<usize>,
    x: usize,
)
    requires
        consumed.contains(x),
        reads(e, x),
    ensures
        check_expr_spec(e, consumed, consts, moved).1.contains(consumed_use_message()),
    decreases e,
{
    let v = consumed_use_message();
    match e {
        Expression::Identifier { .. } => {
            assert(seq![v][0] == v);
        },
        Expression::Binary { left, right, .. } => {
            let (c1, m1) = check_expr_spec(*left, consumed, consts, moved);
            let (c2, m2) = check_expr_spec(*right, c1, consts, moved);
            if reads(*left, x) {
                lemma_consumed_use_reported(*left, consumed, consts, moved, x);
            } else {
                lemma_consumed_grows(*left, consumed, consts, moved);
                lemma_consumed_use_reported(*right, c1, consts, moved, x);
            }
            lemma_contains_concat(m1, m2, v);
        },
        Expression::Call { function, arguments, .. } => {
            let (c1, m1) = check_expr_spec(*function, consumed, consts, moved);
            let (c2, m2) = check_list_spec(arguments@, c1, consts, moved);
            if reads(*function, x) {
                lemma_consumed_use_reported(*function, consumed, consts, moved, x);
            } else {
                lemma_consumed_grows(*function, consumed, consts, moved);
                lemma_list_consumed_use_reported(arguments@, c1, consts, moved, x);
            }
            lemma_contains_concat(m1, m2, v);
        },
        Expression::Let { value, body, .. } => {
            let (c1, m1) = check_expr_spec(*value, consumed, consts, moved);
            let (c2, m2) = check_expr_spec(*body, c1, consts, moved);
            if reads(*value, x) {
                lemma_consumed_use_reported(*value, consumed, consts, moved, x);
            } else {
                lemma_consumed_grows(*value, consumed, consts, moved);
                lemma_consumed_use_reported(*body, c1, consts, moved, x);
            }
            lemma_contains_concat(m1, m2, v);
        },
        Expression::Assign { target, value, .. } => {
            let (c1, m1) = check_expr_spec(*value, consumed, consts, moved);
            lemma_consumed_use_reported(*value, consumed, consts, moved, x);
            let m2 = match *target {
                Expression::Identifier { name, .. } => if consts.contains(name.0) {
                    seq![const_assign_message()]
                } else {
                    Seq::empty()
                },
                _ => Seq::empty(),
            };
            lemma_contains_concat(m1, m2, v);
        },
        Expression::Compound { statements, .. } => {
            lemma_list_consumed_use_reported(statements@, consumed, consts, moved, x);
        },
        Expression::IfThenElse { condition, then_branch, else_branch, .. } => {
            let (c1, m1) = check_expr_spec(*condition, consumed, consts, moved);
            let (c2, m2) = check_expr_spec(*then_branch, c1, consts, moved);
            lemma_consumed_grows(*condition, consumed, consts, moved);
            lemma_consumed_grows(*then_branch, c1, consts, moved);
            if reads(*condition, x) {
                lemma_consumed_use_reported(*condition, consumed, consts, moved, x);
            } else if reads(*then_branch, x) {
                lemma_consumed_use_reported(*then_branch, c1, consts, moved, x);
            }
            lemma_contains_concat(m1, m2, v);
            match else_branch {
                Some(b) => {
                    let (c3, m3) = check_expr_spec(*b, c2, consts, moved);
                    if !reads(*condition, x) && !reads(*then_branch, x) {
                        lemma_consumed_use_reported(*b, c2, consts, moved, x);
                    }
                    lemma_contains_concat(m1 + m2, m3, v);
                },
                None => {},
            }
        },
        Expression::ForLoop { body, .. } => {
            lemma_consumed_use_reported(*body, consumed, consts, moved, x);
        },
        Expression::WhileLoop { condition, body, .. } => {
            let (c1, m1) = check_expr_spec(*condition, consumed, consts, moved);
            let (c2, m2) = check_expr_spec(*body, c1, consts, moved);
            if reads(*condition, x) {
                lemma_consumed_use_reported(*condition, consumed, consts, moved, x);
            } else {
                lemma_consumed_grows(*condition, consumed, consts, moved);
                lemma_consumed_use_reported(*body, c1, consts, moved, x);
            }
            lemma_contains_concat(m1, m2, v);
        },
        Expression::Return { expr, .. } => match expr {
            Some(w) => lemma_consumed_use_reported(*w, consumed, consts, moved, x),
            None => {},
        },
        Expression::With { controller, body, .. } => {
            let (c1, m1) = check_expr_spec(*controller, consumed, consts, moved);
            let (c2, m2) = check_expr_spec(*body, c1, consts, moved);
            if reads(*controller, x) {
                lemma_consumed_use_reported(*controller, consumed, consts, moved, x);
            } else {
                lemma_consumed_grows(*controller, consumed, consts, moved);
                lemma_consumed_use_reported(*body, c1, consts, moved, x);
            }
            lemma_contains_concat(m1, m2, v);
        },
        _ => {},
    }
}

/// In a list, a read of a used-up variable is reported too.
pub proof fn lemma_list_consumed_use_reported(
    es: Seq<Expression>,
    consumed: Set<usize>,
    consts: Set<usize>,
    moved: Set<usize>,
    x: usize,
)
    requires
        consumed.contains(x),
        reads_any(es, x),
    ensures
        check_list_spec(es, consumed, consts, moved).1.contains(consumed_use_message()),
    decreases es,
{
    let v = consumed_use_message();
    let (c1, m1) = check_list_spec(es.drop_last(), consumed, consts, moved);
    let (c2, m2) = check_expr_spec(es.last(), c1, consts, moved);
    if reads_any(es.drop_last(), x) {
        lemma_list_consumed_use_reported(es.drop_last(), consumed, consts, moved, x);
    } else {
        lemma_list_consumed_grows(es.drop_last(), consumed, consts, moved);
        lemma_consumed_use_reported(es.last(), c1, consts, moved, x);
    }
    lemma_contains_concat(m1, m2, v);
}

/// Use after `forget`: in a block that forgets `x` and then reads it, the
/// check reports a use of a consumed variable, whatever the read is part of
/// (a call argument, an operand, a branch, ...).
pub proof fn lemma_use_after_forget_anywhere(
    forget: Expression,
    later: Expression,
    consumed: Set<usize>,
    consts: Set<usize>,
    moved: Set<usize>,
    x: usize,
)
    requires
        forget matches Expression::Forget { variable, .. } && *variable matches Expression::Identifier { name, .. } && name.0 == x,
        reads(later, x),
    ensures
        check_list_spec(seq![forget, later], consumed, consts, moved).1.contains(consumed_use_message()),
{
    let es = seq![forget, later];
    assert(es.drop_last() =~= seq![forget]);
    assert(seq![forget].drop_last() =~= Seq::<Expression>::empty());
    assert(es.last() == later);
    assert(seq![forget].last() == forget);
    assert(check_list_spec(Seq::<Expression>::empty(), consumed, consts, moved) == (consumed, Seq::<Seq<char>>::empty()));
    let (c0, m0) = check_list_spec(seq![forget], consumed, consts, moved);
    assert(c0 == check_expr_spec(forget, consumed, consts, moved).0);
    assert(c0.contains(x));
    lemma_consumed_use_reported(later, c0, consts, moved, x);
    let (c2, m2) = check_expr_spec(later, c0, consts, moved);
    lemma_contains_concat(m0, m2, consumed_use_message());
}

/// The `const` parameters among `params`.
pub open spec fn const_params(params: Seq<Declaration>) -> Set<usize>
    decreases params.len(),
{
    if params.len() == 0 {
        Set::empty()
    } else {
        let rest = const_params(params.drop_last());
        match params.last() {
            Declaration::VarDecl { name, capture: CaptureAnnotation::Const, .. } => rest.insert(name.0),
            _ => rest,
        }
    }
}

/// The `moved` (linear) parameters among `params`.
pub open spec fn moved_params(params: Seq<Declaration>) -> Set<usize>
    decreases params.len(),
{
    if params.len() == 0 {
        Set::empty()
    } else {
        let rest = moved_params(params.drop_last());
        match params.last() {
            Declaration::VarDecl { name, capture: CaptureAnnotation::Moved, .. } => rest.insert(name.0),
            _ => rest,
        }
    }
}

/// The checker verifies resource usage correctness.
pub struct Checker {
    /// Variables that have been consumed (used up).
    consumed: HashSet<usize>,
    /// Variables that are marked as const (can be used multiple times).
    const_vars: HashSet<usize>,
    /// Variables that are moved (linear): used up by their first use.
    moved_vars: HashSet<usize>,
    /// Error count.
    errors: usize,
    /// The errors reported, in order.
    messages: Vec<String>,
}

impl Checker {
    /// The variables consumed so far.
    pub closed spec fn consumed_set(&self) -> Set<usize> {
        self.consumed@
    }

    /// The variables marked constant.
    pub closed spec fn const_set(&self) -> Set<usize> {
        self.const_vars@
    }

    /// The variables marked moved (linear).
    pub closed spec fn moved_set(&self) -> Set<usize> {
        self.moved_vars@
    }

    /// The errors reported so far.
    pub closed spec fn reported(&self) -> Seq<Seq<char>> {
        self.messages@.map_values(|m: String| m@)
    }

    /// The error count.
    pub closed spec fn error_total(&self) -> nat {
        self.errors as nat
    }

    /// The error count agrees with the errors reported.
    pub closed spec fn wf(&self) -> bool {
        self.errors == self.messages@.len()
    }

    pub fn new() -> (r: Self)
        ensures
            r.wf(),
            r.error_total() == 0,
            r.consumed_set() == Set::<usize>::empty(),
            r.const_set() == Set::<usize>::empty(),
            r.moved_set() == Set::<usize>::empty(),
            r.reported() == Seq::<Seq<char>>::empty(),
    {
        let r = Checker {
            consumed: HashSet::new(),
            const_vars: HashSet::new(),
            moved_vars: HashSet::new(),
            errors: 0,
            messages: Vec::new(),
        };
        assert(r.reported() =~= Seq::<Seq<char>>::empty());
        r
    }

    /// Records an error.
    fn report(&mut self, msg: String)
        requires
            old(self).wf(),
            old(self).reported().len() < usize::MAX,
        ensures
            final(self).wf(),
            final(self).reported() == old(self).reported().push(msg@),
            final(self).consumed_set() == old(self).consumed_set(),
            final(self).const_set() == old(self).const_set(),
            final(self).moved_set() == old(self).moved_set(),
    {
        self.errors += 1;
        self.messages.push(msg);
        assert(self.reported() =~= old(self).reported().push(msg@));
    }

    /// Check a function definition for resource correctness: the consumed,
    /// constant and moved variables are reset (the `const` parameters become
    /// the constants, the `moved` ones the moved variables) and the body is
    /// checked.  The result is whether checking this function reported no
    /// error.
    pub fn check_function(&mut self, func: &Declaration, _scope: &Scope) -> (r: bool)
        requires
            old(self).wf(),
            *func matches Declaration::FunctionDef { params, body, .. } ==> old(self).reported().len()
                + check_expr_spec(*body, Set::empty(), const_params(params@), moved_params(params@)).1.len()
                <= usize::MAX,
        ensures
            final(self).wf(),
            match *func {
                Declaration::FunctionDef { params, body, .. } => {
                    let (c, m) = check_expr_spec(*body, Set::empty(), const_params(params@), moved_params(params@));
                    &&& final(self).consumed_set() == c
                    &&& final(self).const_set() == const_params(params@)
                    &&& final(self).moved_set() == moved_params(params@)
                    &&& final(self).reported() == old(self).reported() + m
                    &&& r == (m.len() == 0)
                },
                _ => r && final(self).consumed_set() == old(self).consumed_set()
                    && final(self).const_set() == old(self).const_set()
                    && final(self).moved_set() == old(self).moved_set()
                    && final(self).reported() == old(self).reported(),
            },
    {
        match func {
            Declaration::FunctionDef { params, body, .. } => {
                let before = self.errors;
                // Reset state
                self.consumed.clear();
                self.const_vars.clear();
                self.moved_vars.clear();
                // Register const and moved parameters
                let mut i: usize = 0;
                while i < params.len()
                    invariant
                        self.wf(),
                        self.consumed_set() == Set::<usize>::empty(),
                        self.reported() == old(self).reported(),
                        i <= params@.len(),
                        self.const_set() == const_params(params@.subrange(0, i as int)),
                        self.moved_set() == moved_params(params@.subrange(0, i as int)),
                    decreases params@.len() - i,
                {
                    proof {
                        assert(params@.subrange(0, i + 1).drop_last() =~= params@.subrange(0, i as int));
                    }
                    if let Declaration::VarDecl { name: pname, capture, .. } = &params[i] {
                        if matches!(capture, CaptureAnnotation::Const) {
                            self.const_vars.insert(pname.0);
                        } else if matches!(capture, CaptureAnnotation::Moved) {
                            self.moved_vars.insert(pname.0);
                        }
                    }
                    i += 1;
                }
                proof {
                    assert(params@.subrange(0, params@.len() as int) =~= params@);
                }
                // Check the body
                self.check_expr(body);
                proof {
                    let m = check_expr_spec(**body, Set::empty(), const_params(params@), moved_params(params@)).1;
                    assert(self.reported() =~= old(self).reported() + m);
                }
                self.errors == before
            },
            _ => true,
        }
    }

    /// Check an expression for resource correctness.
    fn check_expr(&mut self, expr: &Expression)
        requires
            old(self).wf(),
            old(self).reported().len() + check_expr_spec(*expr, old(self).consumed_set(), old(self).const_set(), old(self).moved_set()).1.len()
                <= usize::MAX,
        ensures
            final(self).wf(),
            final(self).const_set() == old(self).const_set(),
            final(self).moved_set() == old(self).moved_set(),
            (final(self).consumed_set(), final(self).reported().subrange(
                old(self).reported().len() as int,
                final(self).reported().len() as int,
            )) == check_expr_spec(*expr, old(self).consumed_set(), old(self).const_set(), old(self).moved_set()),
            old(self).reported().is_prefix_of(final(self).reported()),
        decreases expr,
    {
        let ghost c0 = self.consumed_set();
        let ghost k = self.const_set();
        let ghost mv = self.moved_set();
        let ghost r0 = self.reported();
        match expr {
            Expression::Identifier { name, .. } => {
                if self.consumed.contains(&name.0) {
                    self.report("[checker error] use of consumed variable".to_owned());
                    proof {
                        reveal_strlit("[checker error] use of consumed variable");
                    }
                } else if self.moved_vars.contains(&name.0) {
                    // a moved (linear) value is used up by its first use
                    self.consumed.insert(name.0);
                }
            },
            Expression::Binary { left, right, .. } => {
                self.check_expr(left);
                self.check_expr(right);
            },
            Expression::Call { function, arguments, .. } => {
                self.check_expr(function);
                self.check_list(arguments);
            },
            Expression::Let { value, body, .. } => {
                self.check_expr(value);
                // Variable is available for the body
                self.check_expr(body);
            },
            Expression::Assign { target, value, .. } => {
                self.check_expr(value);
                if let Expression::Identifier { name, .. } = &**target {
                    if self.const_vars.contains(&name.0) {
                        self.report("[checker error] cannot assign to const variable".to_owned());
                        proof {
                            reveal_strlit("[checker error] cannot assign to const variable");
                        }
                    }
                }
            },
            Expression::Compound { statements, .. } => {
                self.check_list(statements);
            },
            Expression::IfThenElse { condition, then_branch, else_branch, .. } => {
                self.check_expr(condition);
                self.check_expr(then_branch);
                if let Some(else_br) = else_branch {
                    self.check_expr(else_br);
                }
            },
            Expression::ForLoop { body, .. } => {
                self.check_expr(body);
            },
            Expression::WhileLoop { condition, body, .. } => {
                self.check_expr(condition);
                self.check_expr(body);
            },
            Expression::Return { expr: Some(e), .. } => {
                self.check_expr(e);
            },
            Expression::Return { expr: None, .. } => {},
            Expression::Forget { variable, .. } => {
                if let Expression::Identifier { name, .. } = &**variable {
                    self.consumed.insert(name.0);
                }
            },
            Expression::With { controller, body, .. } => {
                self.check_expr(controller);
                self.check_expr(body);
            },
            // Leaf expressions - no resource tracking needed
            _ => {},
        }
        proof {
            assert(self.reported().subrange(r0.len() as int, self.reported().len() as int)
                =~= check_expr_spec(*expr, c0, k, mv).1);
        }
    }

    /// Check a list of expressions in order.
    fn check_list(&mut self, es: &Vec<Expression>)
        requires
            old(self).wf(),
            old(self).reported().len() + check_list_spec(es@, old(self).consumed_set(), old(self).const_set(), old(self).moved_set()).1.len()
                <= usize::MAX,
        ensures
            final(self).wf(),
            final(self).const_set() == old(self).const_set(),
            final(self).moved_set() == old(self).moved_set(),
            (final(self).consumed_set(), final(self).reported().subrange(
                old(self).reported().len() as int,
                final(self).reported().len() as int,
            )) == check_list_spec(es@, old(self).consumed_set(), old(self).const_set(), old(self).moved_set()),
            old(self).reported().is_prefix_of(final(self).reported()),
        decreases es,
    {
        let mut i: usize = 0;
        while i < es.len()
            invariant
                self.wf(),
                self.const_set() == old(self).const_set(),
                self.moved_set() == old(self).moved_set(),
                i <= es@.len(),
                (self.consumed_set(), self.reported().subrange(
                    old(self).reported().len() as int,
                    self.reported().len() as int,
                )) == check_list_spec(es@.subrange(0, i as int), old(self).consumed_set(), old(self).const_set(), old(self).moved_set()),
                old(self).reported().is_prefix_of(self.reported()),
                old(self).reported().len() + check_list_spec(es@, old(self).consumed_set(), old(self).const_set(), old(self).moved_set()).1.len()
                    <= usize::MAX,
            decreases es@.len() - i,
        {
            proof {
                assert(es@.subrange(0, i + 1).drop_last() =~= es@.subrange(0, i as int));
                assert(es@.subrange(0, i + 1).last() == es@[i as int]);
                lemma_check_list_prefix(es@, i as int + 1, old(self).consumed_set(), old(self).const_set(), old(self).moved_set());
            }
            self.check_expr(&es[i]);
            i += 1;
        }
        proof {
            assert(es@.subrange(0, es@.len() as int) =~= es@);
        }
    }

    pub fn error_count(&self) -> (r: usize)
        ensures
            r == self.error_total(),
            self.wf() ==> r == self.reported().len(),
    {
        self.errors
    }

    /// The errors reported so far.
    pub fn messages(&self) -> (r: &Vec<String>)
        ensures
            r@.map_values(|m: String| m@) == self.reported(),
    {
        &self.messages
    }
}

impl Default for Checker {
    fn default() -> (r: Self)
        ensures
            r.wf(),
            r.error_total() == 0,
            r.consumed_set() == Set::<usize>::empty(),
            r.const_set() == Set::<usize>::empty(),
            r.moved_set() == Set::<usize>::empty(),
            r.reported() == Seq::<Seq<char>>::empty(),
    {
        Checker::new()
    }
}

/// Checking never gives a consumed variable back: the variables consumed
/// afterwards include those consumed before.
pub proof fn lemma_consumed_grows(e: Expression, consumed: Set<usize>, consts: Set<usize>, moved: Set<usize>)
    ensures
        consumed.subset_of(check_expr_spec(e, consumed, consts, moved).0),
    decreases e,
{
    match e {
        Expression::Binary { left, right, .. } => {
            lemma_consumed_grows(*left, consumed, consts, moved);
            lemma_consumed_grows(*right, check_expr_spec(*left, consumed, consts, moved).0, consts, moved);
        },
        Expression::Call { function, arguments, .. } => {
            lemma_consumed_grows(*function, consumed, consts, moved);
            lemma_list_consumed_grows(arguments@, check_expr_spec(*function, consumed, consts, moved).0, consts, moved);
        },
        Expression::Let { value, body, .. } => {
            lemma_consumed_grows(*value, consumed, consts, moved);
            lemma_consumed_grows(*body, check_expr_spec(*value, consumed, consts, moved).0, consts, moved);
        },
        Expression::Assign { value, .. } => {
            lemma_consumed_grows(*value, consumed, consts, moved);
        },
        Expression::Compound { statements, .. } => {
            lemma_list_consumed_grows(statements@, consumed, consts, moved);
        },
        Expression::IfThenElse { condition, then_branch, else_branch, .. } => {
            lemma_consumed_grows(*condition, consumed, consts, moved);
            let c1 = check_expr_spec(*condition, consumed, consts, moved).0;
            lemma_consumed_grows(*then_branch, c1, consts, moved);
            if let Some(b) = else_branch {
                lemma_consumed_grows(*b, check_expr_spec(*then_branch, c1, consts, moved).0, consts, moved);
            }
        },
        Expression::ForLoop { body, .. } => {
            lemma_consumed_grows(*body, consumed, consts, moved);
        },
        Expression::WhileLoop { condition, body, .. } => {
            lemma_consumed_grows(*condition, consumed, consts, moved);
            lemma_consumed_grows(*body, check_expr_spec(*condition, consumed, consts, moved).0, consts, moved);
        },
        Expression::Return { expr, .. } => {
            if let Some(x) = expr {
                lemma_consumed_grows(*x, consumed, consts, moved);
            }
        },
        Expression::With { controller, body, .. } => {
            lemma_consumed_grows(*controller, consumed, consts, moved);
            lemma_consumed_grows(*body, check_expr_spec(*controller, consumed, consts, moved).0, consts, moved);
        },
        _ => {},
    }
}

/// Checking a list never gives a consumed variable back.
pub proof fn lemma_list_consumed_grows(es: Seq<Expression>, consumed: Set<usize>, consts: Set<usize>, moved: Set<usize>)
    ensures
        consumed.subset_of(check_list_spec(es, consumed, consts, moved).0),
    decreases es,
{
    if es.len() > 0 {
        lemma_list_consumed_grows(es.drop_last(), consumed, consts, moved);
        lemma_consumed_grows(es.last(), check_list_spec(es.drop_last(), consumed, consts, moved).0, consts, moved);
    }
}

/// After a variable is forgotten, every later use of it is reported.
pub proof fn lemma_use_after_forget(
    loc1: crate::errors::Location,
    loc2: crate::errors::Location,
    x: crate::ast::Id,
    m1: Option<Box<Declaration>>,
    m2: Option<Box<Declaration>>,
    c1: bool,
    c2: bool,
    consumed: Set<usize>,
    consts: Set<usize>,
    moved: Set<usize>,
)
    ensures
        ({
            let forget = Expression::Forget {
                loc: loc1,
                variable: Box::new(Expression::Identifier { loc: loc1, name: x, meaning: m1, classical: c1 }),
            };
            let use_x = Expression::Identifier { loc: loc2, name: x, meaning: m2, classical: c2 };
            check_list_spec(seq![forget, use_x], consumed, consts, moved).1 == seq![consumed_use_message()]
        }),
{
    let forget = Expression::Forget {
        loc: loc1,
        variable: Box::new(Expression::Identifier { loc: loc1, name: x, meaning: m1, classical: c1 }),
    };
    let use_x = Expression::Identifier { loc: loc2, name: x, meaning: m2, classical: c2 };
    let s = seq![forget, use_x];
    let one = seq![forget];
    assert(s.drop_last() =~= one);
    assert(s.last() == use_x);
    assert(one.drop_last() =~= Seq::<Expression>::empty());
    assert(one.last() == forget);
    let c = consumed.insert(x.0);
    assert(check_list_spec(Seq::<Expression>::empty(), consumed, consts, moved) == (consumed, Seq::<Seq<char>>::empty()));
    assert(check_expr_spec(forget, consumed, consts, moved) == (c, Seq::<Seq<char>>::empty()));
    assert(check_list_spec(one, consumed, consts, moved).0 == c);
    assert(check_list_spec(one, consumed, consts, moved).1 =~= Seq::<Seq<char>>::empty());
    assert(check_expr_spec(use_x, c, consts, moved) == (c, seq![consumed_use_message()]));
    assert(check_list_spec(s, consumed, consts, moved).1 =~= seq![consumed_use_message()]);
}

/// A moved (linear) variable can be used once: a second use is reported.
pub proof fn lemma_moved_used_twice(
    loc1: crate::errors::Location,
    loc2: crate::errors::Location,
    x: crate::ast::Id,
    m1: Option<Box<Declaration>>,
    m2: Option<Box<Declaration>>,
    c1: bool,
    c2: bool,
    consumed: Set<usize>,
    consts: Set<usize>,
    moved: Set<usize>,
)
    requires
        moved.contains(x.0),
        !consumed.contains(x.0),
    ensures
        ({
            let use1 = Expression::Identifier { loc: loc1, name: x, meaning: m1, classical: c1 };
            let use2 = Expression::Identifier { loc: loc2, name: x, meaning: m2, classical: c2 };
            &&& check_list_spec(seq![use1], consumed, consts, moved).1.len() == 0
            &&& check_list_spec(seq![use1, use2], consumed, consts, moved).1 == seq![consumed_use_message()]
        }),
{
    let use1 = Expression::Identifier { loc: loc1, name: x, meaning: m1, classical: c1 };
    let use2 = Expression::Identifier { loc: loc2, name: x, meaning: m2, classical: c2 };
    let s = seq![use1, use2];
    let one = seq![use1];
    assert(s.drop_last() =~= one);
    assert(s.last() == use2);
    assert(one.drop_last() =~= Seq::<Expression>::empty());
    assert(one.last() == use1);
    let c = consumed.insert(x.0);
    assert(check_list_spec(Seq::<Expression>::empty(), consumed, consts, moved) == (consumed, Seq::<Seq<char>>::empty()));
    assert(check_expr_spec(use1, consumed, consts, moved) == (c, Seq::<Seq<char>>::empty()));
    assert(check_list_spec(one, consumed, consts, moved).0 == c);
    assert(check_list_spec(one, consumed, consts, moved).1 =~= Seq::<Seq<char>>::empty());
    assert(check_expr_spec(use2, c, consts, moved) == (c, seq![consumed_use_message()]));
    assert(check_list_spec(s, consumed, consts, moved).1 =~= seq![consumed_use_message()]);
}

/// The errors of a prefix of a list are no more than those of the whole list.
proof fn lemma_check_list_prefix(es: Seq<Expression>, n: int, consumed: Set<usize>, consts: Set<usize>, moved: Set<usize>)
    requires
        0 <= n <= es.len(),
    ensures
        check_list_spec(es.subrange(0, n), consumed, consts, moved).1.len() <= check_list_spec(es, consumed, consts, moved).1.len(),
    decreases es.len() - n,
{
    if n < es.len() {
        lemma_check_list_prefix(es, n + 1, consumed, consts, moved);
        assert(es.subrange(0, n + 1).drop_last() =~= es.subrange(0, n));
    } else {
        assert(es.subrange(0, n) =~= es);
    }
}

} // verus!
