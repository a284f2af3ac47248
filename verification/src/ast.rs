//! AST (Abstract Syntax Tree) definitions for Silq.
//!
//! Expressions are the core node type; declarations (variables, functions,
//! data types, imports) and types are expressions too, since Silq has
//! dependent types. Identifiers are interned strings.

use vstd::prelude::*;
use crate::bignum::{decimal_spelling, BigNum};
use crate::errors::Location;
use crate::text::{push_char, str_eq};
use vstd::string::StringExecFns;
use crate::token::TokenType;

verus! {

// =============================================================================
// Semantic State
// =============================================================================

/// The semantic processing state of an AST node.
#[derive(Debug, Clone, Copy, PartialEq, Eq, Structural)]
pub enum SemState {
    /// Initial state, before any semantic analysis.
    Initial,
    /// Semantic analysis has started for this node.
    Started,
    /// Passive state (in the middle of analysis).
    Passive,
    /// Semantic analysis completed successfully.
    Completed,
    /// The expression has been evaluated (constant fold).
    Evaluated,
    /// An error occurred during semantic analysis.
    Error,
}

impl Default for SemState {
    fn default() -> (r: Self)
        ensures
            r == SemState::Initial,
    {
        SemState::Initial
    }
}

// =============================================================================
// String Interning for Identifiers
// =============================================================================

/// An interned identifier: an index into an `Interner`'s table.
#[derive(Debug, Clone, Copy, PartialEq, Eq, Hash, Structural)]
pub struct Id(pub usize);

/// String interner for identifiers. Index 0 is reserved for the empty string.
pub struct Interner {
    strings: Vec<String>,
}

impl Interner {
    /// The interned names, by id.
    pub closed spec fn names(&self) -> Seq<Seq<char>> {
        self.strings@.map_values(|s: String| s@)
    }

    /// Well-formedness: id 0 is the empty name and no name is interned twice.
    #[verifier::type_invariant]
    pub closed spec fn wf(&self) -> bool {
        &&& self.strings@.len() > 0
        &&& self.strings@[0]@ == Seq::<char>::empty()
        &&& forall|i: int, j: int|
            0 <= i < j < self.strings@.len() ==> #[trigger] self.strings@[i]@ != #[trigger] self.strings@[j]@
    }

    /// The id `s` has in the table, if it is interned.
    pub open spec fn id_of(&self, s: Seq<char>) -> Option<usize> {
        if exists|i: int| 0 <= i < self.names().len() && self.names()[i] == s {
            Some((choose|i: int| 0 <= i < self.names().len() && self.names()[i] == s) as usize)
        } else {
            None
        }
    }

    pub fn new() -> (r: Self)
        ensures
            r.wf(),
            r.names() == seq![Seq::<char>::empty()],
    {
        let mut strings: Vec<String> = Vec::new();
        strings.push(String::new());
        let r = Interner { strings };
        assert(r.names() =~= seq![Seq::<char>::empty()]);
        r
    }

    /// Intern a string and return its Id.
    pub fn intern(&mut self, s: &str) -> (r: Id)
        ensures
            final(self).wf(),
            interned(*old(self), *final(self), s@, r),
    {
        proof {
            use_type_invariant(&*self);
        }
        let n = self.strings.len();
        let mut i: usize = 0;
        while i < n
            invariant
                self.wf(),
                n == self.strings@.len(),
                i <= n,
                forall|j: int| 0 <= j < i ==> self.strings@[j]@ != s@,
            decreases n - i,
        {
            if str_eq(self.strings[i].as_str(), s) {
                proof {
                    assert(self.names()[i as int] == s@);
                    assert(self.names().contains(s@));
                }
                return Id(i);
            }
            i += 1;
        }
        proof {
            assert(!self.names().contains(s@)) by {
                if self.names().contains(s@) {
                    let k = choose|k: int| 0 <= k < self.names().len() && self.names()[k] == s@;
                    assert(self.strings@[k]@ == s@);
                }
            }
        }
        let ghost old_names = self.names();
        let mut strings: Vec<String> = Vec::new();
        let mut k: usize = 0;
        while k < n
            invariant
                n == self.strings@.len(),
                k <= n,
                strings@.len() == k,
                forall|j: int| 0 <= j < k ==> #[trigger] strings@[j]@ == self.strings@[j]@,
            decreases n - k,
        {
            strings.push(self.strings[k].clone());
            k += 1;
        }
        strings.push(s.to_owned());
        proof {
            assert(strings@.map_values(|t: String| t@) =~= old_names.push(s@));
        }
        self.strings = strings;
        Id(n)
    }

    /// Look up the string for an Id (the empty string for an unknown id).
    pub fn lookup(&self, id: Id) -> (r: &str)
        ensures
            r@ == if id.0 < self.names().len() {
                self.names()[id.0 as int]
            } else {
                Seq::<char>::empty()
            },
    {
        if id.0 < self.strings.len() {
            self.strings[id.0].as_str()
        } else {
            proof {
                reveal_strlit("");
            }
            ""
        }
    }
}

// =============================================================================
// Base AST Node
// =============================================================================

/// Interning `s` took `i0` to `i1` and gave the id `r`: `r` names `s`, and
/// `s` was added at the end unless it was already there.
pub open spec fn interned(i0: Interner, i1: Interner, s: Seq<char>, r: Id) -> bool {
    &&& r.0 < i1.names().len()
    &&& i1.names()[r.0 as int] == s
    &&& i0.names().contains(s) ==> i1.names() == i0.names()
    &&& !i0.names().contains(s) ==> i1.names() == i0.names().push(s)
}

/// Interning is a function of the names before: the id and the names
/// afterwards are the ones the grammar states.
pub proof fn lemma_interned_is_function(i0: Interner, i1: Interner, s: Seq<char>, r: Id)
    requires
        i1.wf(),
        interned(i0, i1, s, r),
    ensures
        r == crate::grammar::intern_id(i0.names(), s),
        i1.names() == crate::grammar::intern_names(i0.names(), s),
{
    let ns = i0.names();
    if ns.contains(s) {
        assert(ns[r.0 as int] == s);
        let i = choose|i: usize| i < ns.len() && ns[i as int] == s;
        if i != r.0 {
            assert(i1.strings@[i as int]@ == s);
            assert(i1.strings@[r.0 as int]@ == s);
            if i < r.0 {
                assert(i1.strings@[i as int]@ != i1.strings@[r.0 as int]@);
            } else {
                assert(i1.strings@[r.0 as int]@ != i1.strings@[i as int]@);
            }
        }
    } else {
        assert(r.0 == ns.len()) by {
            if r.0 < ns.len() {
                assert(ns[r.0 as int] == s);
            }
        }
    }
}

/// Interning a name a second time gives the same id and adds nothing.
pub proof fn lemma_intern_twice(i0: Interner, i1: Interner, r1: Id, i2: Interner, r2: Id, s: Seq<char>)
    requires
        i1.wf(),
        interned(i0, i1, s, r1),
        interned(i1, i2, s, r2),
    ensures
        r2 == r1,
        i2.names() == i1.names(),
{
    assert(i1.names().contains(s));
    if r1.0 != r2.0 {
        assert(i1.strings@[r1.0 as int]@ == s);
        assert(i1.strings@[r2.0 as int]@ == s);
        if r1.0 < r2.0 {
            assert(i1.strings@[r1.0 as int]@ != i1.strings@[r2.0 as int]@);
        } else {
            assert(i1.strings@[r2.0 as int]@ != i1.strings@[r1.0 as int]@);
        }
    }
}

/// Base trait for all AST nodes.
pub trait Node {
    fn location(&self) -> &Location;

    fn semantic_state(&self) -> SemState;

    fn set_semantic_state(&mut self, state: SemState);
}

// =============================================================================
// Types
// =============================================================================

/// Annotation for function parameters (const, moved, etc.).
#[derive(Debug, Clone, Copy, PartialEq, Eq, Structural)]
pub enum CaptureAnnotation {
    /// No capture annotation.
    NoCapture,
    Const,
    Moved,
    Once,
    Spent,
}

impl Default for CaptureAnnotation {
    fn default() -> (r: Self)
        ensures
            r == CaptureAnnotation::NoCapture,
    {
        CaptureAnnotation::NoCapture
    }
}

/// Function-level annotation.
#[derive(Debug, Clone, Copy, PartialEq, Eq, Structural)]
pub enum Annotation {
    /// No annotation.
    NoAnnotation,
    /// measurement-free
    Mfree,
    /// quantum-free
    Qfree,
    /// lifted (classical re-interpretation)
    Lifted,
    /// wildcard (anything goes)
    Wild,
}

impl Default for Annotation {
    fn default() -> (r: Self)
        ensures
            r == Annotation::NoAnnotation,
    {
        Annotation::NoAnnotation
    }
}

/// Silq numeric type hierarchy: Bool <: N <: Z <: Q <: R <: C
#[derive(Debug, Clone, Copy, PartialEq, Eq, Hash, PartialOrd, Ord, Structural)]
pub enum NumericType {
    /// Boolean
    Bool,
    /// Natural numbers (N)
    Nat,
    /// Integers (Z)
    Int,
    /// Rational numbers (Q)
    Rat,
    /// Real numbers (R)
    Real,
    /// Complex numbers (C)
    Complex,
}

/// The position of a numeric type in the chain Bool <: N <: Z <: Q <: R <: C.
pub open spec fn numeric_rank(t: NumericType) -> nat {
    match t {
        NumericType::Bool => 0,
        NumericType::Nat => 1,
        NumericType::Int => 2,
        NumericType::Rat => 3,
        NumericType::Real => 4,
        NumericType::Complex => 5,
    }
}

/// The subtype relation on numeric types.
pub open spec fn spec_is_subtype(a: NumericType, b: NumericType) -> bool {
    numeric_rank(a) <= numeric_rank(b)
}

pub open spec fn spec_unicode_name(t: NumericType) -> Seq<char> {
    match t {
        NumericType::Bool => "𝔹"@,
        NumericType::Nat => "ℕ"@,
        NumericType::Int => "ℤ"@,
        NumericType::Rat => "ℚ"@,
        NumericType::Real => "ℝ"@,
        NumericType::Complex => "ℂ"@,
    }
}

pub open spec fn spec_ascii_name(t: NumericType) -> Seq<char> {
    match t {
        NumericType::Bool => "B"@,
        NumericType::Nat => "N"@,
        NumericType::Int => "Z"@,
        NumericType::Rat => "Q"@,
        NumericType::Real => "R"@,
        NumericType::Complex => "C"@,
    }
}

impl NumericType {
    fn rank(self) -> (r: u8)
        ensures
            r == numeric_rank(self),
    {
        match self {
            NumericType::Bool => 0,
            NumericType::Nat => 1,
            NumericType::Int => 2,
            NumericType::Rat => 3,
            NumericType::Real => 4,
            NumericType::Complex => 5,
        }
    }

    /// Is this numeric type a subtype of `other`?
    pub fn is_subtype_of(self, other: NumericType) -> (r: bool)
        ensures
            r == spec_is_subtype(self, other),
    {
        self.rank() <= other.rank()
    }

    /// The name of this numeric type in Silq.
    pub fn unicode_name(self) -> (s: &'static str)
        ensures
            s@ == spec_unicode_name(self),
    {
        match self {
            NumericType::Bool => "𝔹",
            NumericType::Nat => "ℕ",
            NumericType::Int => "ℤ",
            NumericType::Rat => "ℚ",
            NumericType::Real => "ℝ",
            NumericType::Complex => "ℂ",
        }
    }

    /// ASCII alias for the type name.
    pub fn ascii_name(self) -> (s: &'static str)
        ensures
            s@ == spec_ascii_name(self),
    {
        match self {
            NumericType::Bool => "B",
            NumericType::Nat => "N",
            NumericType::Int => "Z",
            NumericType::Rat => "Q",
            NumericType::Real => "R",
            NumericType::Complex => "C",
        }
    }
}

/// The subtype relation on numeric types is a total order (reflexive,
/// antisymmetric, transitive, total), with 𝔹 at the bottom and ℂ at the top.
pub proof fn lemma_subtype_total_order(a: NumericType, b: NumericType, c: NumericType)
    ensures
        spec_is_subtype(a, a),
        spec_is_subtype(a, b) && spec_is_subtype(b, a) ==> a == b,
        spec_is_subtype(a, b) && spec_is_subtype(b, c) ==> spec_is_subtype(a, c),
        spec_is_subtype(a, b) || spec_is_subtype(b, a),
        spec_is_subtype(NumericType::Bool, a),
        spec_is_subtype(a, NumericType::Complex),
{
}

/// A fixed-width integer type: int[n] or uint[n].
#[derive(Debug, Clone, Copy, PartialEq, Eq, Structural)]
pub struct FixedIntTy {
    pub bits: u32,
    pub is_signed: bool,
    pub is_classical: bool,
}

/// A modular integer type: Zmod[N] or Zstar[N].
#[derive(Debug, Clone, Copy, PartialEq, Eq, Structural)]
pub struct ZModTy {
    pub n: u64,
    /// Zstar (multiplicative group)
    pub is_star: bool,
    pub is_classical: bool,
}

/// Kinds in the kind system.
#[derive(Debug, Clone, Copy, PartialEq, Eq, Structural)]
pub enum TypeMetaKind {
    /// The universal kind: *
    Star,
    /// Classical type kind.
    Ctype,
    /// Quantum type kind.
    Qtype,
    /// Expression type kind.
    Etype,
    /// Unit type kind.
    Utype,
}

/// All type variants in the Silq type system. Types are expressions
/// (dependent types), so `Expression::Type` carries one of these.
#[derive(Debug, PartialEq)]
pub enum TypeKind {
    /// One of the base numeric types: B, N, Z, Q, R, C.
    Numeric(NumericType),
    /// Fixed-width integer: int[n], uint[n].
    FixedInt(FixedIntTy),
    /// Modular integer: Zmod[N], Zstar[N].
    ZMod(ZModTy),
    /// A custom data type (declared with `dat`).
    Aggregate { name: Id, type_args: Vec<Expression> },
    /// The unit type.
    Unit,
    /// The bottom type (empty/never).
    Bottom,
    /// A tuple type: (T1, T2, ..., Tn).
    Tuple(Vec<Expression>),
    /// An array type (variable-length): T[].
    Array(Box<Expression>),
    /// A vector type (fixed-length): T^n.
    Vector { element: Box<Expression>, length: Box<Expression> },
    /// A string type.
    String,
    /// A function type: (params) -> return_type; also dependent product types.
    Product {
        params: Vec<Expression>,
        domain: Box<Expression>,
        codomain: Box<Expression>,
        annotation: Annotation,
    },
    /// Classical version of a type: !T.
    Classical(Box<Expression>),
    /// Quantum numeric type (supertype of all quantum numerics).
    QNumeric,
    /// A type variable (used during inference).
    TypeVar(usize),
    /// The type of types (kind).
    TypeMeta { variant: TypeMetaKind },
    /// A context type (implicit closure environment).
    Context(Vec<(Id, Expression)>),
}

/// Is a type kind classical?
pub open spec fn spec_kind_is_classical(k: TypeKind) -> bool {
    match k {
        TypeKind::Classical(_) => true,
        TypeKind::TypeMeta { variant: TypeMetaKind::Ctype } => true,
        TypeKind::Unit => true,
        TypeKind::FixedInt(fit) => fit.is_classical,
        TypeKind::ZMod(zm) => zm.is_classical,
        _ => false,
    }
}

impl TypeKind {
    /// Check if this type is classical.
    pub fn is_classical(&self) -> (r: bool)
        ensures
            r == spec_kind_is_classical(*self),
    {
        match self {
            TypeKind::Classical(_) => true,
            TypeKind::TypeMeta { variant: TypeMetaKind::Ctype } => true,
            TypeKind::Unit => true,
            // B is quantum, !B is classical
            TypeKind::Numeric(_) => false,
            TypeKind::Aggregate { .. } => false,
            TypeKind::FixedInt(fit) => fit.is_classical,
            TypeKind::ZMod(zm) => zm.is_classical,
            _ => false,
        }
    }

    /// Check if this type is quantum (non-classical).
    pub fn is_quantum(&self) -> (r: bool)
        ensures
            r == !spec_kind_is_classical(*self),
    {
        !self.is_classical()
    }

    /// The classical version of a numeric type: `!T` for the numeric type
    /// `T` (none for other types).
    pub fn make_classical(&self) -> (r: Option<TypeKind>)
        ensures
            r == match *self {
                TypeKind::Numeric(nt) => Some(
                    TypeKind::Classical(
                        Box::new(
                            Expression::Type {
                                loc: Location::spec_default(),
                                kind: TypeKind::Numeric(nt),
                            },
                        ),
                    ),
                ),
                _ => None::<TypeKind>,
            },
            r matches Some(k) ==> spec_kind_is_classical(k),
    {
        match self {
            TypeKind::Numeric(nt) => Some(TypeKind::Classical(Box::new(numeric_type(*nt)))),
            _ => None,
        }
    }
}

// =============================================================================
// Literal Values
// =============================================================================

/// All literal value types in Silq.
#[derive(Debug, PartialEq)]
pub enum LiteralValue {
    /// Boolean literal: true/false.
    Bool(bool),
    /// Integer literal (big integer).
    Int(BigNum),
    /// Floating-point literal, held as its decimal spelling (underscores removed).
    Float(String),
    /// Rational literal: numerator and denominator.
    Rational(BigNum, BigNum),
    /// String literal.
    String(String),
    /// Character literal.
    Char(char),
    /// Unit literal.
    Unit,
}

/// The mathematical value of a literal.
pub ghost enum LitVal {
    Bool(bool),
    Int(int),
    /// A floating-point literal's decimal spelling.
    Float(Seq<char>),
    Rational(int, int),
    Str(Seq<char>),
    Char(char),
    Unit,
}

impl View for LiteralValue {
    type V = LitVal;

    open spec fn view(&self) -> LitVal {
        match self {
            LiteralValue::Bool(b) => LitVal::Bool(*b),
            LiteralValue::Int(n) => LitVal::Int(n@),
            LiteralValue::Float(f) => LitVal::Float(f@),
            LiteralValue::Rational(n, d) => LitVal::Rational(n@, d@),
            LiteralValue::String(s) => LitVal::Str(s@),
            LiteralValue::Char(c) => LitVal::Char(*c),
            LiteralValue::Unit => LitVal::Unit,
        }
    }
}

/// The text of a literal value (a floating-point literal shows its spelling).
pub open spec fn lit_text(v: LitVal) -> Seq<char> {
    match v {
        LitVal::Bool(b) => if b {
            "true"@
        } else {
            "false"@
        },
        LitVal::Int(n) => decimal_spelling(n),
        LitVal::Float(f) => f,
        LitVal::Rational(n, d) => "("@ + decimal_spelling(n) + "/"@ + decimal_spelling(d) + ")"@,
        LitVal::Str(s) => "\""@ + s + "\""@,
        LitVal::Char(c) => "'"@ + seq![c] + "'"@,
        LitVal::Unit => "()"@,
    }
}

impl LiteralValue {
    /// The text of the value, as the compiler prints it.
    pub fn display_text(&self) -> (r: String)
        ensures
            r@ == lit_text(self@),
    {
        let mut out = String::new();
        match self {
            LiteralValue::Bool(b) => {
                if *b {
                    out.append("true");
                } else {
                    out.append("false");
                }
            },
            LiteralValue::Int(n) => {
                let t = n.to_decimal();
                out.append(t.as_str());
            },
            LiteralValue::Float(x) => {
                out.append(x.as_str());
            },
            LiteralValue::Rational(n, d) => {
                out.append("(");
                let t = n.to_decimal();
                out.append(t.as_str());
                out.append("/");
                let u = d.to_decimal();
                out.append(u.as_str());
                out.append(")");
            },
            LiteralValue::String(s) => {
                out.append("\"");
                out.append(s.as_str());
                out.append("\"");
            },
            LiteralValue::Char(c) => {
                out.append("'");
                push_char(&mut out, *c);
                out.append("'");
            },
            LiteralValue::Unit => {
                out.append("()");
            },
        }
        proof {
            reveal_strlit("true");
            reveal_strlit("false");
            reveal_strlit("(");
            reveal_strlit("/");
            reveal_strlit(")");
            reveal_strlit("\"");
            reveal_strlit("'");
            reveal_strlit("()");
            assert(out@ =~= lit_text(self@));
        }
        out
    }
}

impl Clone for LiteralValue {
    fn clone(&self) -> (r: Self)
        ensures
            r@ == self@,
    {
        match self {
            LiteralValue::Bool(b) => LiteralValue::Bool(*b),
            LiteralValue::Int(n) => LiteralValue::Int(n.clone()),
            LiteralValue::Float(f) => LiteralValue::Float(f.clone()),
            LiteralValue::Rational(n, d) => LiteralValue::Rational(n.clone(), d.clone()),
            LiteralValue::String(s) => LiteralValue::String(s.clone()),
            LiteralValue::Char(c) => LiteralValue::Char(*c),
            LiteralValue::Unit => LiteralValue::Unit,
        }
    }
}

// =============================================================================
// Type Annotation Kinds
// =============================================================================

/// The kind of type annotation: e:T, e as T, e coerce T, e pun T.
#[derive(Debug, Clone, Copy, PartialEq, Eq, Structural)]
pub enum TypeAnnotationKind {
    /// Type assertion: e : T (check that e has type T).
    Colon,
    /// Type cast: e as T.
    As,
    /// Type coercion: e coerce T (implicit conversion).
    Coerce,
    /// Type pun: e pun T (reinterpret bits).
    Pun,
}

// =============================================================================
// Expression Nodes
// =============================================================================

/// The main Expression type - all nodes in the Silq AST are expressions.
#[derive(Debug, PartialEq)]
pub enum Expression {
    /// An error expression (produced when parsing fails).
    Error { loc: Location, message: String },
    /// A literal value.
    Literal {
        loc: Location,
        value: LiteralValue,
        /// The inferred/computed type of this literal.
        ty: Option<Box<Expression>>,
    },
    /// A variable or type identifier reference.
    Identifier {
        loc: Location,
        name: Id,
        /// What this identifier refers to (resolved during semantic analysis).
        meaning: Option<Box<Declaration>>,
        /// Whether this is in a classical context.
        classical: bool,
    },
    /// A placeholder / hole.
    Placeholder { loc: Location },
    /// A wildcard expression `_`.
    Wildcard { loc: Location },
    /// The `typeof` operator.
    Typeof { loc: Location, expr: Box<Expression> },
    /// Unary plus: +e.
    UnaryPlus { loc: Location, expr: Box<Expression> },
    /// Unary minus (negation): -e.
    UnaryMinus { loc: Location, expr: Box<Expression> },
    /// Logical not: !e.
    LogicalNot { loc: Location, expr: Box<Expression> },
    /// Bitwise not: ~e.
    BitwiseNot { loc: Location, expr: Box<Expression> },
    /// A binary operation: e1 op e2.
    Binary { loc: Location, op: TokenType, left: Box<Expression>, right: Box<Expression> },
    /// Function call: f(args).
    Call {
        loc: Location,
        function: Box<Expression>,
        arguments: Vec<Expression>,
        /// Resolved function definition.
        callee: Option<Box<Declaration>>,
    },
    /// Index expression: e[i].
    Index { loc: Location, expr: Box<Expression>, index: Box<Expression> },
    /// Slice expression: e[start..end].
    Slice { loc: Location, expr: Box<Expression>, start: Box<Expression>, end: Box<Expression> },
    /// Field/projection access: e.field.
    Field { loc: Location, expr: Box<Expression>, field: Id },
    /// Tuple literal: (e1, e2, ..., en).
    Tuple { loc: Location, elements: Vec<Expression> },
    /// Vector literal.
    Vector { loc: Location, elements: Vec<Expression> },
    /// Concatenation: e1 ~ e2.
    Concat { loc: Location, left: Box<Expression>, right: Box<Expression> },
    /// let-binding: `let name = value in body` or `name := value`
    Let {
        loc: Location,
        name: Id,
        /// Optional type annotation.
        type_ann: Option<Box<Expression>>,
        value: Box<Expression>,
        body: Box<Expression>,
    },
    /// Assignment: `var ← value`.
    Assign { loc: Location, target: Box<Expression>, value: Box<Expression> },
    /// Lambda expression: `λ(params) => body`.
    Lambda { loc: Location, params: Vec<Expression>, body: Box<Expression>, annotation: Annotation },
    /// If-then-else: `if cond then then_br else else_br`.
    IfThenElse {
        loc: Location,
        condition: Box<Expression>,
        then_branch: Box<Expression>,
        else_branch: Option<Box<Expression>>,
    },
    /// With block (quantum-controlled execution): `with ctl do body`.
    With { loc: Location, controller: Box<Expression>, body: Box<Expression> },
    /// For loop: `for var in expr { body }`.
    ForLoop { loc: Location, variable: Id, iterable: Box<Expression>, body: Box<Expression> },
    /// While loop: `while cond { body }`.
    WhileLoop { loc: Location, condition: Box<Expression>, body: Box<Expression> },
    /// Repeat loop: `repeat n { body }`.
    Repeat { loc: Location, count: Box<Expression>, body: Box<Expression> },
    /// Return expression: `return expr`.
    Return { loc: Location, expr: Option<Box<Expression>> },
    /// Comma expression: `e1, e2`.
    Comma { loc: Location, left: Box<Expression>, right: Box<Expression> },
    /// A compound expression block: `{ e1; e2; ... eN }`.
    Compound { loc: Location, statements: Vec<Expression> },
    /// Type annotation: `e : T` or `e as T` or `e coerce T` or `e pun T`.
    TypeAnnotation { loc: Location, expr: Box<Expression>, ty: Box<Expression>, kind: TypeAnnotationKind },
    /// Forget (consume) a variable: `forget(var)`.
    Forget { loc: Location, variable: Box<Expression> },
    /// Assert expression: `assert(cond)`.
    Assert { loc: Location, condition: Box<Expression>, message: Option<String> },
    /// A type expression.
    Type { loc: Location, kind: TypeKind },
    /// A declaration used as an expression.
    TypeDecl(Box<Declaration>),
    /// Type variable reference.
    TypeVar { loc: Location, index: usize },
}

// =============================================================================
// Declaration Nodes
// =============================================================================

/// A declaration in the Silq language.
#[derive(Debug, PartialEq)]
pub enum Declaration {
    /// Variable declaration: name: Type := initializer.
    VarDecl {
        loc: Location,
        name: Id,
        /// Declared type (optional, can be inferred).
        dtype: Option<Box<Expression>>,
        /// Variable type (set during semantic analysis).
        vtype: Option<Box<Expression>>,
        /// Initializer expression.
        initializer: Option<Box<Expression>>,
        /// Whether this is a parameter declaration.
        is_parameter: bool,
        /// Parameter capture annotation.
        capture: CaptureAnnotation,
    },
    /// Function definition: def name(params) return_type body.
    FunctionDef {
        loc: Location,
        name: Id,
        params: Vec<Declaration>,
        return_type: Option<Box<Expression>>,
        body: Box<Expression>,
        /// Annotation (qfree, mfree, lifted, wild).
        annotation: Annotation,
        /// Resolved function type.
        ftype: Option<Box<Expression>>,
        /// Captured variables from enclosing scope.
        captures: Vec<Id>,
        /// Whether this is the main function.
        is_main: bool,
        /// External name for primitive implementations.
        extern_name: Option<String>,
    },
    /// Data type declaration: dat Name[params] { fields }.
    DatDecl {
        loc: Location,
        name: Id,
        type_params: Vec<Declaration>,
        fields: Vec<Declaration>,
        /// Whether this is a quantum data type.
        is_quantum: bool,
    },
    /// Import declaration: import path.
    Import { loc: Location, path: String },
}



// =============================================================================
// Accessors and constructors
// =============================================================================

/// The source location of an expression.
pub open spec fn expr_loc(e: Expression) -> Location
    decreases e,
{
    match e {
        Expression::Error { loc, .. } => loc,
        Expression::Literal { loc, .. } => loc,
        Expression::Identifier { loc, .. } => loc,
        Expression::Placeholder { loc, .. } => loc,
        Expression::Wildcard { loc, .. } => loc,
        Expression::Typeof { loc, .. } => loc,
        Expression::UnaryPlus { loc, .. } => loc,
        Expression::UnaryMinus { loc, .. } => loc,
        Expression::LogicalNot { loc, .. } => loc,
        Expression::BitwiseNot { loc, .. } => loc,
        Expression::Binary { loc, .. } => loc,
        Expression::Call { loc, .. } => loc,
        Expression::Index { loc, .. } => loc,
        Expression::Slice { loc, .. } => loc,
        Expression::Field { loc, .. } => loc,
        Expression::Tuple { loc, .. } => loc,
        Expression::Vector { loc, .. } => loc,
        Expression::Concat { loc, .. } => loc,
        Expression::Let { loc, .. } => loc,
        Expression::Assign { loc, .. } => loc,
        Expression::Lambda { loc, .. } => loc,
        Expression::IfThenElse { loc, .. } => loc,
        Expression::With { loc, .. } => loc,
        Expression::ForLoop { loc, .. } => loc,
        Expression::WhileLoop { loc, .. } => loc,
        Expression::Repeat { loc, .. } => loc,
        Expression::Return { loc, .. } => loc,
        Expression::Comma { loc, .. } => loc,
        Expression::Compound { loc, .. } => loc,
        Expression::TypeAnnotation { loc, .. } => loc,
        Expression::Forget { loc, .. } => loc,
        Expression::Assert { loc, .. } => loc,
        Expression::Type { loc, .. } => loc,
        Expression::TypeDecl(d) => decl_loc(*d),
        Expression::TypeVar { loc, .. } => loc,
    }
}

/// The source location of a declaration.
pub open spec fn decl_loc(d: Declaration) -> Location {
    match d {
        Declaration::VarDecl { loc, .. } => loc,
        Declaration::FunctionDef { loc, .. } => loc,
        Declaration::DatDecl { loc, .. } => loc,
        Declaration::Import { loc, .. } => loc,
    }
}

/// The declared name of a declaration (imports have none).
pub open spec fn decl_name(d: Declaration) -> Option<Id> {
    match d {
        Declaration::VarDecl { name, .. } => Some(name),
        Declaration::FunctionDef { name, .. } => Some(name),
        Declaration::DatDecl { name, .. } => Some(name),
        Declaration::Import { .. } => None,
    }
}

impl Expression {
    /// Get the location of this expression.
    pub fn loc(&self) -> (r: &Location)
        ensures
            *r == expr_loc(*self),
    {
        match self {
            Expression::Error { loc, .. } => loc,
            Expression::Literal { loc, .. } => loc,
            Expression::Identifier { loc, .. } => loc,
            Expression::Placeholder { loc, .. } => loc,
            Expression::Wildcard { loc, .. } => loc,
            Expression::Typeof { loc, .. } => loc,
            Expression::UnaryPlus { loc, .. } => loc,
            Expression::UnaryMinus { loc, .. } => loc,
            Expression::LogicalNot { loc, .. } => loc,
            Expression::BitwiseNot { loc, .. } => loc,
            Expression::Binary { loc, .. } => loc,
            Expression::Call { loc, .. } => loc,
            Expression::Index { loc, .. } => loc,
            Expression::Slice { loc, .. } => loc,
            Expression::Field { loc, .. } => loc,
            Expression::Tuple { loc, .. } => loc,
            Expression::Vector { loc, .. } => loc,
            Expression::Concat { loc, .. } => loc,
            Expression::Let { loc, .. } => loc,
            Expression::Assign { loc, .. } => loc,
            Expression::Lambda { loc, .. } => loc,
            Expression::IfThenElse { loc, .. } => loc,
            Expression::With { loc, .. } => loc,
            Expression::ForLoop { loc, .. } => loc,
            Expression::WhileLoop { loc, .. } => loc,
            Expression::Repeat { loc, .. } => loc,
            Expression::Return { loc, .. } => loc,
            Expression::Comma { loc, .. } => loc,
            Expression::Compound { loc, .. } => loc,
            Expression::TypeAnnotation { loc, .. } => loc,
            Expression::Forget { loc, .. } => loc,
            Expression::Assert { loc, .. } => loc,
            Expression::Type { loc, .. } => loc,
            Expression::TypeDecl(d) => d.loc(),
            Expression::TypeVar { loc, .. } => loc,
        }
    }

    /// Check if this is a literal expression.
    pub fn is_literal(&self) -> (r: bool)
        ensures
            r == (*self is Literal),
    {
        match self {
            Expression::Literal { .. } => true,
            _ => false,
        }
    }

    /// Check if this is an error expression.
    pub fn is_error(&self) -> (r: bool)
        ensures
            r == (*self is Error),
    {
        match self {
            Expression::Error { .. } => true,
            _ => false,
        }
    }

    /// Create a new error expression.
    pub fn new_error(loc: Location, message: String) -> (r: Self)
        ensures
            r == (Expression::Error { loc, message }),
    {
        Expression::Error { loc, message }
    }

    /// Create a new literal expression.
    pub fn new_literal(loc: Location, value: LiteralValue) -> (r: Self)
        ensures
            r == (Expression::Literal { loc, value, ty: None }),
    {
        Expression::Literal { loc, value, ty: None }
    }

    /// Create a new identifier expression.
    pub fn new_identifier(loc: Location, name: Id) -> (r: Self)
        ensures
            r == (Expression::Identifier { loc, name, meaning: None, classical: false }),
    {
        Expression::Identifier { loc, name, meaning: None, classical: false }
    }

    /// Create a new binary expression.
    pub fn new_binary(loc: Location, op: TokenType, left: Expression, right: Expression) -> (r: Self)
        ensures
            r == (Expression::Binary { loc, op, left: Box::new(left), right: Box::new(right) }),
    {
        Expression::Binary { loc, op, left: Box::new(left), right: Box::new(right) }
    }

    /// Create a new call expression.
    pub fn new_call(loc: Location, function: Expression, arguments: Vec<Expression>) -> (r: Self)
        ensures
            r == (Expression::Call { loc, function: Box::new(function), arguments, callee: None }),
    {
        Expression::Call { loc, function: Box::new(function), arguments, callee: None }
    }

    /// Create a new compound expression.
    pub fn new_compound(loc: Location, statements: Vec<Expression>) -> (r: Self)
        ensures
            r == (Expression::Compound { loc, statements }),
    {
        Expression::Compound { loc, statements }
    }

    /// Create a new let expression.
    pub fn new_let(
        loc: Location,
        name: Id,
        type_ann: Option<Expression>,
        value: Expression,
        body: Expression,
    ) -> (r: Self)
        ensures
            r == (Expression::Let {
                loc,
                name,
                type_ann: match type_ann {
                    Some(t) => Some(Box::new(t)),
                    None => None,
                },
                value: Box::new(value),
                body: Box::new(body),
            }),
    {
        let type_ann = match type_ann {
            Some(t) => Some(Box::new(t)),
            None => None,
        };
        Expression::Let { loc, name, type_ann, value: Box::new(value), body: Box::new(body) }
    }

    /// Create a new if-then-else expression.
    pub fn new_if(loc: Location, cond: Expression, then_br: Expression, else_br: Option<Expression>) -> (r: Self)
        ensures
            r == (Expression::IfThenElse {
                loc,
                condition: Box::new(cond),
                then_branch: Box::new(then_br),
                else_branch: match else_br {
                    Some(e) => Some(Box::new(e)),
                    None => None,
                },
            }),
    {
        let else_branch = match else_br {
            Some(e) => Some(Box::new(e)),
            None => None,
        };
        Expression::IfThenElse { loc, condition: Box::new(cond), then_branch: Box::new(then_br), else_branch }
    }

    /// Create a new lambda expression.
    pub fn new_lambda(loc: Location, params: Vec<Expression>, body: Expression, annotation: Annotation) -> (r: Self)
        ensures
            r == (Expression::Lambda { loc, params, body: Box::new(body), annotation }),
    {
        Expression::Lambda { loc, params, body: Box::new(body), annotation }
    }

    /// Create a type annotation expression.
    pub fn new_type_ann(loc: Location, expr: Expression, ty: Expression, kind: TypeAnnotationKind) -> (r: Self)
        ensures
            r == (Expression::TypeAnnotation { loc, expr: Box::new(expr), ty: Box::new(ty), kind }),
    {
        Expression::TypeAnnotation { loc, expr: Box::new(expr), ty: Box::new(ty), kind }
    }

    /// Create a unit type expression.
    pub fn unit_type() -> (r: Self)
        ensures
            r == (Expression::Type { loc: Location::spec_default(), kind: TypeKind::Unit }),
    {
        Expression::Type { loc: Location::default(), kind: TypeKind::Unit }
    }
}

impl Default for Expression {
    fn default() -> (r: Self)
        ensures
            r matches Expression::Error { loc, message } && loc == Location::spec_default()
                && message@ == "uninitialized expression"@,
    {
        Expression::Error { loc: Location::default(), message: "uninitialized expression".to_owned() }
    }
}

impl Declaration {
    /// Get the location of this declaration.
    pub fn loc(&self) -> (r: &Location)
        ensures
            *r == decl_loc(*self),
    {
        match self {
            Declaration::VarDecl { loc, .. } => loc,
            Declaration::FunctionDef { loc, .. } => loc,
            Declaration::DatDecl { loc, .. } => loc,
            Declaration::Import { loc, .. } => loc,
        }
    }

    /// Get the name of this declaration.
    pub fn name(&self) -> (r: Option<Id>)
        ensures
            r == decl_name(*self),
    {
        match self {
            Declaration::VarDecl { name, .. } => Some(*name),
            Declaration::FunctionDef { name, .. } => Some(*name),
            Declaration::DatDecl { name, .. } => Some(*name),
            Declaration::Import { .. } => None,
        }
    }

    /// Create a new variable declaration.
    pub fn new_var(
        loc: Location,
        name: Id,
        dtype: Option<Expression>,
        init: Option<Expression>,
        is_param: bool,
        cap: CaptureAnnotation,
    ) -> (r: Self)
        ensures
            r == (Declaration::VarDecl {
                loc,
                name,
                dtype: match dtype {
                    Some(t) => Some(Box::new(t)),
                    None => None,
                },
                vtype: None,
                initializer: match init {
                    Some(t) => Some(Box::new(t)),
                    None => None,
                },
                is_parameter: is_param,
                capture: cap,
            }),
    {
        let dtype = match dtype {
            Some(t) => Some(Box::new(t)),
            None => None,
        };
        let initializer = match init {
            Some(t) => Some(Box::new(t)),
            None => None,
        };
        Declaration::VarDecl { loc, name, dtype, vtype: None, initializer, is_parameter: is_param, capture: cap }
    }

    /// Create a new function definition.
    pub fn new_function(
        loc: Location,
        name: Id,
        params: Vec<Declaration>,
        return_type: Option<Expression>,
        body: Expression,
        annotation: Annotation,
    ) -> (r: Self)
        ensures
            r matches Declaration::FunctionDef {
                loc: l,
                name: n,
                params: ps,
                return_type: rt,
                body: b,
                annotation: a,
                ftype: None,
                captures: cs,
                is_main: false,
                extern_name: None,
            } && l == loc && n == name && ps == params && *b == body && a == annotation && cs@.len() == 0
                && rt == match return_type {
                Some(t) => Some(Box::new(t)),
                None => None,
            },
    {
        let return_type = match return_type {
            Some(t) => Some(Box::new(t)),
            None => None,
        };
        Declaration::FunctionDef {
            loc,
            name,
            params,
            return_type,
            body: Box::new(body),
            annotation,
            ftype: None,
            captures: Vec::new(),
            is_main: false,
            extern_name: None,
        }
    }

    /// Create a new data type declaration.
    pub fn new_dat(
        loc: Location,
        name: Id,
        type_params: Vec<Declaration>,
        fields: Vec<Declaration>,
        is_quantum: bool,
    ) -> (r: Self)
        ensures
            r == (Declaration::DatDecl { loc, name, type_params, fields, is_quantum }),
    {
        Declaration::DatDecl { loc, name, type_params, fields, is_quantum }
    }
}

// =============================================================================
// Helper Functions
// =============================================================================

/// Create a numeric type expression.
pub fn numeric_type(nt: NumericType) -> (r: Expression)
    ensures
        r == (Expression::Type { loc: Location::spec_default(), kind: TypeKind::Numeric(nt) }),
{
    Expression::Type { loc: Location::default(), kind: TypeKind::Numeric(nt) }
}

/// Create a classical type expression (prefix `!`).
pub fn classical_type(inner: Expression) -> (r: Expression)
    ensures
        r == (Expression::Type { loc: Location::spec_default(), kind: TypeKind::Classical(Box::new(inner)) }),
{
    Expression::Type { loc: Location::default(), kind: TypeKind::Classical(Box::new(inner)) }
}

/// Create a type meta expression (kind).
pub fn type_meta(variant: TypeMetaKind) -> (r: Expression)
    ensures
        r == (Expression::Type { loc: Location::spec_default(), kind: TypeKind::TypeMeta { variant } }),
{
    Expression::Type { loc: Location::default(), kind: TypeKind::TypeMeta { variant } }
}

/// Create a tuple type expression.
pub fn tuple_type(elements: Vec<Expression>) -> (r: Expression)
    ensures
        r == (Expression::Type { loc: Location::spec_default(), kind: TypeKind::Tuple(elements) }),
{
    Expression::Type { loc: Location::default(), kind: TypeKind::Tuple(elements) }
}

/// Create a function type expression.
pub fn fun_type(domain: Expression, codomain: Expression, annotation: Annotation) -> (r: Expression)
    ensures
        r matches Expression::Type {
            loc,
            kind: TypeKind::Product { params, domain: d, codomain: c, annotation: a },
        } && loc == Location::spec_default() && params@.len() == 0 && *d == domain && *c == codomain
            && a == annotation,
{
    Expression::Type {
        loc: Location::default(),
        kind: TypeKind::Product {
            params: Vec::new(),
            domain: Box::new(domain),
            codomain: Box::new(codomain),
            annotation,
        },
    }
}

/// Create a vector type expression.
pub fn vector_type(element: Expression, length: Expression) -> (r: Expression)
    ensures
        r == (Expression::Type {
            loc: Location::spec_default(),
            kind: TypeKind::Vector { element: Box::new(element), length: Box::new(length) },
        }),
{
    Expression::Type {
        loc: Location::default(),
        kind: TypeKind::Vector { element: Box::new(element), length: Box::new(length) },
    }
}

/// Create an array type expression.
pub fn array_type(element: Expression) -> (r: Expression)
    ensures
        r == (Expression::Type { loc: Location::spec_default(), kind: TypeKind::Array(Box::new(element)) }),
{
    Expression::Type { loc: Location::default(), kind: TypeKind::Array(Box::new(element)) }
}

/// Create a fixed integer type.
pub fn fixed_int_type(bits: u32, is_signed: bool, is_classical: bool) -> (r: Expression)
    ensures
        r == (Expression::Type {
            loc: Location::spec_default(),
            kind: TypeKind::FixedInt(FixedIntTy { bits, is_signed, is_classical }),
        }),
{
    Expression::Type { loc: Location::default(), kind: TypeKind::FixedInt(FixedIntTy { bits, is_signed, is_classical }) }
}

/// Create a Zmod type.
pub fn zmod_type(n: u64, is_star: bool, is_classical: bool) -> (r: Expression)
    ensures
        r == (Expression::Type {
            loc: Location::spec_default(),
            kind: TypeKind::ZMod(ZModTy { n, is_star, is_classical }),
        }),
{
    Expression::Type { loc: Location::default(), kind: TypeKind::ZMod(ZModTy { n, is_star, is_classical }) }
}

// =============================================================================
// Sizes
// =============================================================================

/// The number of nodes of an expression tree (declarations and types within it included).
pub open spec fn expr_size(e: Expression) -> nat
    decreases e,
{
    1 + match e {
        Expression::Error { .. } => 0,
        Expression::Literal { ty, .. } => opt_expr_size(ty),
        Expression::Identifier { meaning, .. } => opt_decl_size(meaning),
        Expression::Placeholder { .. } => 0,
        Expression::Wildcard { .. } => 0,
        Expression::Typeof { expr, .. } => expr_size(*expr),
        Expression::UnaryPlus { expr, .. } => expr_size(*expr),
        Expression::UnaryMinus { expr, .. } => expr_size(*expr),
        Expression::LogicalNot { expr, .. } => expr_size(*expr),
        Expression::BitwiseNot { expr, .. } => expr_size(*expr),
        Expression::Binary { left, right, .. } => expr_size(*left) + expr_size(*right),
        Expression::Call { function, arguments, callee, .. } => expr_size(*function) + exprs_size(
            arguments@,
        ) + opt_decl_size(callee),
        Expression::Index { expr, index, .. } => expr_size(*expr) + expr_size(*index),
        Expression::Slice { expr, start, end, .. } => expr_size(*expr) + expr_size(*start) + expr_size(
            *end,
        ),
        Expression::Field { expr, .. } => expr_size(*expr),
        Expression::Tuple { elements, .. } => exprs_size(elements@),
        Expression::Vector { elements, .. } => exprs_size(elements@),
        Expression::Concat { left, right, .. } => expr_size(*left) + expr_size(*right),
        Expression::Let { type_ann, value, body, .. } => opt_expr_size(type_ann) + expr_size(*value) + expr_size(*body),
        Expression::Assign { target, value, .. } => expr_size(*target) + expr_size(*value),
        Expression::Lambda { params, body, .. } => exprs_size(params@) + expr_size(*body),
        Expression::IfThenElse { condition, then_branch, else_branch, .. } => expr_size(*condition)
            + expr_size(*then_branch) + opt_expr_size(else_branch),
        Expression::With { controller, body, .. } => expr_size(*controller) + expr_size(*body),
        Expression::ForLoop { iterable, body, .. } => expr_size(*iterable) + expr_size(*body),
        Expression::WhileLoop { condition, body, .. } => expr_size(*condition) + expr_size(*body),
        Expression::Repeat { count, body, .. } => expr_size(*count) + expr_size(*body),
        Expression::Return { expr, .. } => opt_expr_size(expr),
        Expression::Comma { left, right, .. } => expr_size(*left) + expr_size(*right),
        Expression::Compound { statements, .. } => exprs_size(statements@),
        Expression::TypeAnnotation { expr, ty, .. } => expr_size(*expr) + expr_size(*ty),
        Expression::Forget { variable, .. } => expr_size(*variable),
        Expression::Assert { condition, .. } => expr_size(*condition),
        Expression::Type { kind, .. } => kind_size(kind),
        Expression::TypeDecl(d) => decl_size(*d),
        Expression::TypeVar { .. } => 0,
    }
}

/// The number of nodes of a declaration.
pub open spec fn decl_size(d: Declaration) -> nat
    decreases d,
{
    1 + match d {
        Declaration::VarDecl { dtype, vtype, initializer, .. } => opt_expr_size(dtype) + opt_expr_size(vtype) + opt_expr_size(initializer),
        Declaration::FunctionDef { params, return_type, body, ftype, .. } => decls_size(params@)
            + opt_expr_size(return_type) + expr_size(*body) + opt_expr_size(ftype),
        Declaration::DatDecl { type_params, fields, .. } => decls_size(type_params@) + decls_size(
            fields@,
        ),
        Declaration::Import { .. } => 0,
    }
}

/// The number of nodes of a type.
pub open spec fn kind_size(k: TypeKind) -> nat
    decreases k,
{
    1 + match k {
        TypeKind::Aggregate { type_args, .. } => exprs_size(type_args@),
        TypeKind::Tuple(es) => exprs_size(es@),
        TypeKind::Array(e) => expr_size(*e),
        TypeKind::Vector { element, length } => expr_size(*element) + expr_size(*length),
        TypeKind::Product { params, domain, codomain, .. } => exprs_size(params@) + expr_size(*domain)
            + expr_size(*codomain),
        TypeKind::Classical(e) => expr_size(*e),
        TypeKind::Context(c) => ctx_size(c@),
        _ => 0,
    }
}

/// The number of nodes of an optional expression.
pub open spec fn opt_expr_size(o: Option<Box<Expression>>) -> nat
    decreases o,
{
    match o {
        Some(b) => expr_size(*b),
        None => 0,
    }
}

/// The number of nodes of an optional declaration.
pub open spec fn opt_decl_size(o: Option<Box<Declaration>>) -> nat
    decreases o,
{
    match o {
        Some(b) => decl_size(*b),
        None => 0,
    }
}

/// The number of nodes of a list of expressions.
pub open spec fn exprs_size(s: Seq<Expression>) -> nat
    decreases s,
{
    if s.len() == 0 {
        0
    } else {
        exprs_size(s.drop_last()) + expr_size(s.last())
    }
}

/// The number of nodes of a list of declarations.
pub open spec fn decls_size(s: Seq<Declaration>) -> nat
    decreases s,
{
    if s.len() == 0 {
        0
    } else {
        decls_size(s.drop_last()) + decl_size(s.last())
    }
}

/// The number of nodes of a closure context.
pub open spec fn ctx_size(s: Seq<(Id, Expression)>) -> nat
    decreases s,
{
    if s.len() == 0 {
        0
    } else {
        ctx_size(s.drop_last()) + expr_size(s.last().1)
    }
}

/// Each expression of a list is smaller than the list.
pub proof fn lemma_exprs_size_elem(s: Seq<Expression>, i: int)
    requires
        0 <= i < s.len(),
    ensures
        expr_size(s[i]) <= exprs_size(s),
    decreases s.len(),
{
    if i < s.len() - 1 {
        lemma_exprs_size_elem(s.drop_last(), i);
    }
}

// =============================================================================
// Equality as trees
// =============================================================================

/// Two expressions are equal as trees.
pub open spec fn expr_eq(a: Expression, b: Expression) -> bool
    decreases a,
{
    match (a, b) {
        (Expression::Error { loc: loc1, message: message1 }, Expression::Error { loc: loc2, message: message2 }) => loc1 == loc2 && message1@ == message2@,
        (Expression::Literal { loc: loc1, value: value1, ty: ty1 }, Expression::Literal { loc: loc2, value: value2, ty: ty2 }) => loc1 == loc2 && value1@ == value2@ && opt_expr_eq(ty1, ty2),
        (Expression::Identifier { loc: loc1, name: name1, meaning: meaning1, classical: classical1 }, Expression::Identifier { loc: loc2, name: name2, meaning: meaning2, classical: classical2 }) => loc1 == loc2 && name1 == name2 && opt_decl_eq(meaning1, meaning2) && classical1 == classical2,
        (Expression::Placeholder { loc: loc1 }, Expression::Placeholder { loc: loc2 }) => loc1 == loc2,
        (Expression::Wildcard { loc: loc1 }, Expression::Wildcard { loc: loc2 }) => loc1 == loc2,
        (Expression::Typeof { loc: loc1, expr: expr1 }, Expression::Typeof { loc: loc2, expr: expr2 }) => loc1 == loc2 && expr_eq(*expr1, *expr2),
        (Expression::UnaryPlus { loc: loc1, expr: expr1 }, Expression::UnaryPlus { loc: loc2, expr: expr2 }) => loc1 == loc2 && expr_eq(*expr1, *expr2),
        (Expression::UnaryMinus { loc: loc1, expr: expr1 }, Expression::UnaryMinus { loc: loc2, expr: expr2 }) => loc1 == loc2 && expr_eq(*expr1, *expr2),
        (Expression::LogicalNot { loc: loc1, expr: expr1 }, Expression::LogicalNot { loc: loc2, expr: expr2 }) => loc1 == loc2 && expr_eq(*expr1, *expr2),
        (Expression::BitwiseNot { loc: loc1, expr: expr1 }, Expression::BitwiseNot { loc: loc2, expr: expr2 }) => loc1 == loc2 && expr_eq(*expr1, *expr2),
        (Expression::Binary { loc: loc1, op: op1, left: left1, right: right1 }, Expression::Binary { loc: loc2, op: op2, left: left2, right: right2 }) => loc1 == loc2 && op1 == op2 && expr_eq(*left1, *left2) && expr_eq(*right1, *right2),
        (Expression::Call { loc: loc1, function: function1, arguments: arguments1, callee: callee1 }, Expression::Call { loc: loc2, function: function2, arguments: arguments2, callee: callee2 }) => loc1 == loc2 && expr_eq(*function1, *function2) && exprs_eq(arguments1@, arguments2@) && opt_decl_eq(callee1, callee2),
        (Expression::Index { loc: loc1, expr: expr1, index: index1 }, Expression::Index { loc: loc2, expr: expr2, index: index2 }) => loc1 == loc2 && expr_eq(*expr1, *expr2) && expr_eq(*index1, *index2),
        (Expression::Slice { loc: loc1, expr: expr1, start: start1, end: end1 }, Expression::Slice { loc: loc2, expr: expr2, start: start2, end: end2 }) => loc1 == loc2 && expr_eq(*expr1, *expr2) && expr_eq(*start1, *start2) && expr_eq(*end1, *end2),
        (Expression::Field { loc: loc1, expr: expr1, field: field1 }, Expression::Field { loc: loc2, expr: expr2, field: field2 }) => loc1 == loc2 && expr_eq(*expr1, *expr2) && field1 == field2,
        (Expression::Tuple { loc: loc1, elements: elements1 }, Expression::Tuple { loc: loc2, elements: elements2 }) => loc1 == loc2 && exprs_eq(elements1@, elements2@),
        (Expression::Vector { loc: loc1, elements: elements1 }, Expression::Vector { loc: loc2, elements: elements2 }) => loc1 == loc2 && exprs_eq(elements1@, elements2@),
        (Expression::Concat { loc: loc1, left: left1, right: right1 }, Expression::Concat { loc: loc2, left: left2, right: right2 }) => loc1 == loc2 && expr_eq(*left1, *left2) && expr_eq(*right1, *right2),
        (Expression::Let { loc: loc1, name: name1, type_ann: type_ann1, value: value1, body: body1 }, Expression::Let { loc: loc2, name: name2, type_ann: type_ann2, value: value2, body: body2 }) => loc1 == loc2 && name1 == name2 && opt_expr_eq(type_ann1, type_ann2) && expr_eq(*value1, *value2) && expr_eq(*body1, *body2),
        (Expression::Assign { loc: loc1, target: target1, value: value1 }, Expression::Assign { loc: loc2, target: target2, value: value2 }) => loc1 == loc2 && expr_eq(*target1, *target2) && expr_eq(*value1, *value2),
        (Expression::Lambda { loc: loc1, params: params1, body: body1, annotation: annotation1 }, Expression::Lambda { loc: loc2, params: params2, body: body2, annotation: annotation2 }) => loc1 == loc2 && exprs_eq(params1@, params2@) && expr_eq(*body1, *body2) && annotation1 == annotation2,
        (Expression::IfThenElse { loc: loc1, condition: condition1, then_branch: then_branch1, else_branch: else_branch1 }, Expression::IfThenElse { loc: loc2, condition: condition2, then_branch: then_branch2, else_branch: else_branch2 }) => loc1 == loc2 && expr_eq(*condition1, *condition2) && expr_eq(*then_branch1, *then_branch2) && opt_expr_eq(else_branch1, else_branch2),
        (Expression::With { loc: loc1, controller: controller1, body: body1 }, Expression::With { loc: loc2, controller: controller2, body: body2 }) => loc1 == loc2 && expr_eq(*controller1, *controller2) && expr_eq(*body1, *body2),
        (Expression::ForLoop { loc: loc1, variable: variable1, iterable: iterable1, body: body1 }, Expression::ForLoop { loc: loc2, variable: variable2, iterable: iterable2, body: body2 }) => loc1 == loc2 && variable1 == variable2 && expr_eq(*iterable1, *iterable2) && expr_eq(*body1, *body2),
        (Expression::WhileLoop { loc: loc1, condition: condition1, body: body1 }, Expression::WhileLoop { loc: loc2, condition: condition2, body: body2 }) => loc1 == loc2 && expr_eq(*condition1, *condition2) && expr_eq(*body1, *body2),
        (Expression::Repeat { loc: loc1, count: count1, body: body1 }, Expression::Repeat { loc: loc2, count: count2, body: body2 }) => loc1 == loc2 && expr_eq(*count1, *count2) && expr_eq(*body1, *body2),
        (Expression::Return { loc: loc1, expr: expr1 }, Expression::Return { loc: loc2, expr: expr2 }) => loc1 == loc2 && opt_expr_eq(expr1, expr2),
        (Expression::Comma { loc: loc1, left: left1, right: right1 }, Expression::Comma { loc: loc2, left: left2, right: right2 }) => loc1 == loc2 && expr_eq(*left1, *left2) && expr_eq(*right1, *right2),
        (Expression::Compound { loc: loc1, statements: statements1 }, Expression::Compound { loc: loc2, statements: statements2 }) => loc1 == loc2 && exprs_eq(statements1@, statements2@),
        (Expression::TypeAnnotation { loc: loc1, expr: expr1, ty: ty1, kind: kind1 }, Expression::TypeAnnotation { loc: loc2, expr: expr2, ty: ty2, kind: kind2 }) => loc1 == loc2 && expr_eq(*expr1, *expr2) && expr_eq(*ty1, *ty2) && kind1 == kind2,
        (Expression::Forget { loc: loc1, variable: variable1 }, Expression::Forget { loc: loc2, variable: variable2 }) => loc1 == loc2 && expr_eq(*variable1, *variable2),
        (Expression::Assert { loc: loc1, condition: condition1, message: message1 }, Expression::Assert { loc: loc2, condition: condition2, message: message2 }) => loc1 == loc2 && expr_eq(*condition1, *condition2) && opt_text_eq(message1, message2),
        (Expression::Type { loc: loc1, kind: kind1 }, Expression::Type { loc: loc2, kind: kind2 }) => loc1 == loc2 && kind_eq(kind1, kind2),
        (Expression::TypeDecl(f01), Expression::TypeDecl(f02)) => decl_eq(*f01, *f02),
        (Expression::TypeVar { loc: loc1, index: index1 }, Expression::TypeVar { loc: loc2, index: index2 }) => loc1 == loc2 && index1 == index2,
        _ => false,
    }
}

/// Two declarations are equal as trees.
pub open spec fn decl_eq(a: Declaration, b: Declaration) -> bool
    decreases a,
{
    match (a, b) {
        (Declaration::VarDecl { loc: loc1, name: name1, dtype: dtype1, vtype: vtype1, initializer: initializer1, is_parameter: is_parameter1, capture: capture1 }, Declaration::VarDecl { loc: loc2, name: name2, dtype: dtype2, vtype: vtype2, initializer: initializer2, is_parameter: is_parameter2, capture: capture2 }) => loc1 == loc2 && name1 == name2 && opt_expr_eq(dtype1, dtype2) && opt_expr_eq(vtype1, vtype2) && opt_expr_eq(initializer1, initializer2) && is_parameter1 == is_parameter2 && capture1 == capture2,
        (Declaration::FunctionDef { loc: loc1, name: name1, params: params1, return_type: return_type1, body: body1, annotation: annotation1, ftype: ftype1, captures: captures1, is_main: is_main1, extern_name: extern_name1 }, Declaration::FunctionDef { loc: loc2, name: name2, params: params2, return_type: return_type2, body: body2, annotation: annotation2, ftype: ftype2, captures: captures2, is_main: is_main2, extern_name: extern_name2 }) => loc1 == loc2 && name1 == name2 && decls_eq(params1@, params2@) && opt_expr_eq(return_type1, return_type2) && expr_eq(*body1, *body2) && annotation1 == annotation2 && opt_expr_eq(ftype1, ftype2) && captures1@ == captures2@ && is_main1 == is_main2 && opt_text_eq(extern_name1, extern_name2),
        (Declaration::DatDecl { loc: loc1, name: name1, type_params: type_params1, fields: fields1, is_quantum: is_quantum1 }, Declaration::DatDecl { loc: loc2, name: name2, type_params: type_params2, fields: fields2, is_quantum: is_quantum2 }) => loc1 == loc2 && name1 == name2 && decls_eq(type_params1@, type_params2@) && decls_eq(fields1@, fields2@) && is_quantum1 == is_quantum2,
        (Declaration::Import { loc: loc1, path: path1 }, Declaration::Import { loc: loc2, path: path2 }) => loc1 == loc2 && path1@ == path2@,
        _ => false,
    }
}

/// Two types are equal as trees.
pub open spec fn kind_eq(a: TypeKind, b: TypeKind) -> bool
    decreases a,
{
    match (a, b) {
        (TypeKind::Numeric(f01), TypeKind::Numeric(f02)) => f01 == f02,
        (TypeKind::FixedInt(f01), TypeKind::FixedInt(f02)) => f01 == f02,
        (TypeKind::ZMod(f01), TypeKind::ZMod(f02)) => f01 == f02,
        (TypeKind::Aggregate { name: name1, type_args: type_args1 }, TypeKind::Aggregate { name: name2, type_args: type_args2 }) => name1 == name2 && exprs_eq(type_args1@, type_args2@),
        (TypeKind::Unit, TypeKind::Unit) => true,
        (TypeKind::Bottom, TypeKind::Bottom) => true,
        (TypeKind::Tuple(f01), TypeKind::Tuple(f02)) => exprs_eq(f01@, f02@),
        (TypeKind::Array(f01), TypeKind::Array(f02)) => expr_eq(*f01, *f02),
        (TypeKind::Vector { element: element1, length: length1 }, TypeKind::Vector { element: element2, length: length2 }) => expr_eq(*element1, *element2) && expr_eq(*length1, *length2),
        (TypeKind::String, TypeKind::String) => true,
        (TypeKind::Product { params: params1, domain: domain1, codomain: codomain1, annotation: annotation1 }, TypeKind::Product { params: params2, domain: domain2, codomain: codomain2, annotation: annotation2 }) => exprs_eq(params1@, params2@) && expr_eq(*domain1, *domain2) && expr_eq(*codomain1, *codomain2) && annotation1 == annotation2,
        (TypeKind::Classical(f01), TypeKind::Classical(f02)) => expr_eq(*f01, *f02),
        (TypeKind::QNumeric, TypeKind::QNumeric) => true,
        (TypeKind::TypeVar(f01), TypeKind::TypeVar(f02)) => f01 == f02,
        (TypeKind::TypeMeta { variant: variant1 }, TypeKind::TypeMeta { variant: variant2 }) => variant1 == variant2,
        (TypeKind::Context(f01), TypeKind::Context(f02)) => ctx_eq(f01@, f02@),
        _ => false,
    }
}

pub open spec fn opt_expr_eq(a: Option<Box<Expression>>, b: Option<Box<Expression>>) -> bool
    decreases a,
{
    match (a, b) {
        (Some(x), Some(y)) => expr_eq(*x, *y),
        (None, None) => true,
        _ => false,
    }
}

pub open spec fn opt_decl_eq(a: Option<Box<Declaration>>, b: Option<Box<Declaration>>) -> bool
    decreases a,
{
    match (a, b) {
        (Some(x), Some(y)) => decl_eq(*x, *y),
        (None, None) => true,
        _ => false,
    }
}

pub open spec fn exprs_eq(a: Seq<Expression>, b: Seq<Expression>) -> bool
    decreases a,
{
    &&& a.len() == b.len()
    &&& a.len() > 0 ==> exprs_eq(a.drop_last(), b.drop_last()) && expr_eq(a.last(), b.last())
}

pub open spec fn decls_eq(a: Seq<Declaration>, b: Seq<Declaration>) -> bool
    decreases a,
{
    &&& a.len() == b.len()
    &&& a.len() > 0 ==> decls_eq(a.drop_last(), b.drop_last()) && decl_eq(a.last(), b.last())
}

pub open spec fn ctx_eq(a: Seq<(Id, Expression)>, b: Seq<(Id, Expression)>) -> bool
    decreases a,
{
    &&& a.len() == b.len()
    &&& a.len() > 0 ==> ctx_eq(a.drop_last(), b.drop_last()) && a.last().0 == b.last().0 && expr_eq(
        a.last().1,
        b.last().1,
    )
}

pub open spec fn opt_text_eq(a: Option<String>, b: Option<String>) -> bool {
    match (a, b) {
        (Some(x), Some(y)) => x@ == y@,
        (None, None) => true,
        _ => false,
    }
}


/// Every expression is equal to itself as a tree.
pub proof fn lemma_expr_eq_refl(e: Expression)
    ensures
        expr_eq(e, e),
    decreases e,
{
    match e {
        Expression::Literal { ty, .. } => {
            lemma_opt_expr_eq_refl(ty);
        },
        Expression::Identifier { meaning, .. } => {
            lemma_opt_decl_eq_refl(meaning);
        },
        Expression::Typeof { expr, .. } => {
            lemma_expr_eq_refl(*expr);
        },
        Expression::UnaryPlus { expr, .. } => {
            lemma_expr_eq_refl(*expr);
        },
        Expression::UnaryMinus { expr, .. } => {
            lemma_expr_eq_refl(*expr);
        },
        Expression::LogicalNot { expr, .. } => {
            lemma_expr_eq_refl(*expr);
        },
        Expression::BitwiseNot { expr, .. } => {
            lemma_expr_eq_refl(*expr);
        },
        Expression::Binary { left, right, .. } => {
            lemma_expr_eq_refl(*left);
            lemma_expr_eq_refl(*right);
        },
        Expression::Call { function, arguments, callee, .. } => {
            lemma_expr_eq_refl(*function);
            lemma_exprs_eq_refl(arguments@);
            lemma_opt_decl_eq_refl(callee);
        },
        Expression::Index { expr, index, .. } => {
            lemma_expr_eq_refl(*expr);
            lemma_expr_eq_refl(*index);
        },
        Expression::Slice { expr, start, end, .. } => {
            lemma_expr_eq_refl(*expr);
            lemma_expr_eq_refl(*start);
            lemma_expr_eq_refl(*end);
        },
        Expression::Field { expr, .. } => {
            lemma_expr_eq_refl(*expr);
        },
        Expression::Tuple { elements, .. } => {
            lemma_exprs_eq_refl(elements@);
        },
        Expression::Vector { elements, .. } => {
            lemma_exprs_eq_refl(elements@);
        },
        Expression::Concat { left, right, .. } => {
            lemma_expr_eq_refl(*left);
            lemma_expr_eq_refl(*right);
        },
        Expression::Let { type_ann, value, body, .. } => {
            lemma_opt_expr_eq_refl(type_ann);
            lemma_expr_eq_refl(*value);
            lemma_expr_eq_refl(*body);
        },
        Expression::Assign { target, value, .. } => {
            lemma_expr_eq_refl(*target);
            lemma_expr_eq_refl(*value);
        },
        Expression::Lambda { params, body, .. } => {
            lemma_exprs_eq_refl(params@);
            lemma_expr_eq_refl(*body);
        },
        Expression::IfThenElse { condition, then_branch, else_branch, .. } => {
            lemma_expr_eq_refl(*condition);
            lemma_expr_eq_refl(*then_branch);
            lemma_opt_expr_eq_refl(else_branch);
        },
        Expression::With { controller, body, .. } => {
            lemma_expr_eq_refl(*controller);
            lemma_expr_eq_refl(*body);
        },
        Expression::ForLoop { iterable, body, .. } => {
            lemma_expr_eq_refl(*iterable);
            lemma_expr_eq_refl(*body);
        },
        Expression::WhileLoop { condition, body, .. } => {
            lemma_expr_eq_refl(*condition);
            lemma_expr_eq_refl(*body);
        },
        Expression::Repeat { count, body, .. } => {
            lemma_expr_eq_refl(*count);
            lemma_expr_eq_refl(*body);
        },
        Expression::Return { expr, .. } => {
            lemma_opt_expr_eq_refl(expr);
        },
        Expression::Comma { left, right, .. } => {
            lemma_expr_eq_refl(*left);
            lemma_expr_eq_refl(*right);
        },
        Expression::Compound { statements, .. } => {
            lemma_exprs_eq_refl(statements@);
        },
        Expression::TypeAnnotation { expr, ty, .. } => {
            lemma_expr_eq_refl(*expr);
            lemma_expr_eq_refl(*ty);
        },
        Expression::Forget { variable, .. } => {
            lemma_expr_eq_refl(*variable);
        },
        Expression::Assert { condition, .. } => {
            lemma_expr_eq_refl(*condition);
        },
        Expression::Type { kind, .. } => {
            lemma_kind_eq_refl(kind);
        },
        Expression::TypeDecl(f0) => {
            lemma_decl_eq_refl(*f0);
        },
        _ => {},
    }
}

/// Every declaration is equal to itself as a tree.
pub proof fn lemma_decl_eq_refl(d: Declaration)
    ensures
        decl_eq(d, d),
    decreases d,
{
    match d {
        Declaration::VarDecl { dtype, vtype, initializer, .. } => {
            lemma_opt_expr_eq_refl(dtype);
            lemma_opt_expr_eq_refl(vtype);
            lemma_opt_expr_eq_refl(initializer);
        },
        Declaration::FunctionDef { params, return_type, body, ftype, .. } => {
            lemma_decls_eq_refl(params@);
            lemma_opt_expr_eq_refl(return_type);
            lemma_expr_eq_refl(*body);
            lemma_opt_expr_eq_refl(ftype);
        },
        Declaration::DatDecl { type_params, fields, .. } => {
            lemma_decls_eq_refl(type_params@);
            lemma_decls_eq_refl(fields@);
        },
        _ => {},
    }
}

/// Every type is equal to itself as a tree.
pub proof fn lemma_kind_eq_refl(k: TypeKind)
    ensures
        kind_eq(k, k),
    decreases k,
{
    match k {
        TypeKind::Aggregate { type_args, .. } => {
            lemma_exprs_eq_refl(type_args@);
        },
        TypeKind::Tuple(f0) => {
            lemma_exprs_eq_refl(f0@);
        },
        TypeKind::Array(f0) => {
            lemma_expr_eq_refl(*f0);
        },
        TypeKind::Vector { element, length, .. } => {
            lemma_expr_eq_refl(*element);
            lemma_expr_eq_refl(*length);
        },
        TypeKind::Product { params, domain, codomain, .. } => {
            lemma_exprs_eq_refl(params@);
            lemma_expr_eq_refl(*domain);
            lemma_expr_eq_refl(*codomain);
        },
        TypeKind::Classical(f0) => {
            lemma_expr_eq_refl(*f0);
        },
        TypeKind::Context(f0) => {
            lemma_ctx_eq_refl(f0@);
        },
        _ => {},
    }
}

proof fn lemma_opt_expr_eq_refl(o: Option<Box<Expression>>)
    ensures
        opt_expr_eq(o, o),
    decreases o,
{
    if let Some(b) = o {
        lemma_expr_eq_refl(*b);
    }
}

proof fn lemma_opt_decl_eq_refl(o: Option<Box<Declaration>>)
    ensures
        opt_decl_eq(o, o),
    decreases o,
{
    if let Some(b) = o {
        lemma_decl_eq_refl(*b);
    }
}

proof fn lemma_exprs_eq_refl(s: Seq<Expression>)
    ensures
        exprs_eq(s, s),
    decreases s,
{
    if s.len() > 0 {
        lemma_exprs_eq_refl(s.drop_last());
        lemma_expr_eq_refl(s.last());
    }
}

proof fn lemma_decls_eq_refl(s: Seq<Declaration>)
    ensures
        decls_eq(s, s),
    decreases s,
{
    if s.len() > 0 {
        lemma_decls_eq_refl(s.drop_last());
        lemma_decl_eq_refl(s.last());
    }
}

proof fn lemma_ctx_eq_refl(s: Seq<(Id, Expression)>)
    ensures
        ctx_eq(s, s),
    decreases s,
{
    if s.len() > 0 {
        lemma_ctx_eq_refl(s.drop_last());
        lemma_expr_eq_refl(s.last().1);
    }
}

/// Equality of expressions as trees is transitive.
pub proof fn lemma_expr_eq_trans(a: Expression, b: Expression, c: Expression)
    requires
        expr_eq(a, b),
        expr_eq(b, c),
    ensures
        expr_eq(a, c),
    decreases a,
{
    match (a, b, c) {
        (Expression::Literal { ty: ty1, .. }, Expression::Literal { ty: ty2, .. }, Expression::Literal { ty: ty3, .. }) => {
            lemma_opt_expr_eq_trans(ty1, ty2, ty3);
        },
        (Expression::Identifier { meaning: meaning1, .. }, Expression::Identifier { meaning: meaning2, .. }, Expression::Identifier { meaning: meaning3, .. }) => {
            lemma_opt_decl_eq_trans(meaning1, meaning2, meaning3);
        },
        (Expression::Typeof { expr: expr1, .. }, Expression::Typeof { expr: expr2, .. }, Expression::Typeof { expr: expr3, .. }) => {
            lemma_expr_eq_trans(*expr1, *expr2, *expr3);
        },
        (Expression::UnaryPlus { expr: expr1, .. }, Expression::UnaryPlus { expr: expr2, .. }, Expression::UnaryPlus { expr: expr3, .. }) => {
            lemma_expr_eq_trans(*expr1, *expr2, *expr3);
        },
        (Expression::UnaryMinus { expr: expr1, .. }, Expression::UnaryMinus { expr: expr2, .. }, Expression::UnaryMinus { expr: expr3, .. }) => {
            lemma_expr_eq_trans(*expr1, *expr2, *expr3);
        },
        (Expression::LogicalNot { expr: expr1, .. }, Expression::LogicalNot { expr: expr2, .. }, Expression::LogicalNot { expr: expr3, .. }) => {
            lemma_expr_eq_trans(*expr1, *expr2, *expr3);
        },
        (Expression::BitwiseNot { expr: expr1, .. }, Expression::BitwiseNot { expr: expr2, .. }, Expression::BitwiseNot { expr: expr3, .. }) => {
            lemma_expr_eq_trans(*expr1, *expr2, *expr3);
        },
        (Expression::Binary { left: left1, right: right1, .. }, Expression::Binary { left: left2, right: right2, .. }, Expression::Binary { left: left3, right: right3, .. }) => {
            lemma_expr_eq_trans(*left1, *left2, *left3);
            lemma_expr_eq_trans(*right1, *right2, *right3);
        },
        (Expression::Call { function: function1, arguments: arguments1, callee: callee1, .. }, Expression::Call { function: function2, arguments: arguments2, callee: callee2, .. }, Expression::Call { function: function3, arguments: arguments3, callee: callee3, .. }) => {
            lemma_expr_eq_trans(*function1, *function2, *function3);
            lemma_exprs_eq_trans(arguments1@, arguments2@, arguments3@);
            lemma_opt_decl_eq_trans(callee1, callee2, callee3);
        },
        (Expression::Index { expr: expr1, index: index1, .. }, Expression::Index { expr: expr2, index: index2, .. }, Expression::Index { expr: expr3, index: index3, .. }) => {
            lemma_expr_eq_trans(*expr1, *expr2, *expr3);
            lemma_expr_eq_trans(*index1, *index2, *index3);
        },
        (Expression::Slice { expr: expr1, start: start1, end: end1, .. }, Expression::Slice { expr: expr2, start: start2, end: end2, .. }, Expression::Slice { expr: expr3, start: start3, end: end3, .. }) => {
            lemma_expr_eq_trans(*expr1, *expr2, *expr3);
            lemma_expr_eq_trans(*start1, *start2, *start3);
            lemma_expr_eq_trans(*end1, *end2, *end3);
        },
        (Expression::Field { expr: expr1, .. }, Expression::Field { expr: expr2, .. }, Expression::Field { expr: expr3, .. }) => {
            lemma_expr_eq_trans(*expr1, *expr2, *expr3);
        },
        (Expression::Tuple { elements: elements1, .. }, Expression::Tuple { elements: elements2, .. }, Expression::Tuple { elements: elements3, .. }) => {
            lemma_exprs_eq_trans(elements1@, elements2@, elements3@);
        },
        (Expression::Vector { elements: elements1, .. }, Expression::Vector { elements: elements2, .. }, Expression::Vector { elements: elements3, .. }) => {
            lemma_exprs_eq_trans(elements1@, elements2@, elements3@);
        },
        (Expression::Concat { left: left1, right: right1, .. }, Expression::Concat { left: left2, right: right2, .. }, Expression::Concat { left: left3, right: right3, .. }) => {
            lemma_expr_eq_trans(*left1, *left2, *left3);
            lemma_expr_eq_trans(*right1, *right2, *right3);
        },
        (Expression::Let { type_ann: type_ann1, value: value1, body: body1, .. }, Expression::Let { type_ann: type_ann2, value: value2, body: body2, .. }, Expression::Let { type_ann: type_ann3, value: value3, body: body3, .. }) => {
            lemma_opt_expr_eq_trans(type_ann1, type_ann2, type_ann3);
            lemma_expr_eq_trans(*value1, *value2, *value3);
            lemma_expr_eq_trans(*body1, *body2, *body3);
        },
        (Expression::Assign { target: target1, value: value1, .. }, Expression::Assign { target: target2, value: value2, .. }, Expression::Assign { target: target3, value: value3, .. }) => {
            lemma_expr_eq_trans(*target1, *target2, *target3);
            lemma_expr_eq_trans(*value1, *value2, *value3);
        },
        (Expression::Lambda { params: params1, body: body1, .. }, Expression::Lambda { params: params2, body: body2, .. }, Expression::Lambda { params: params3, body: body3, .. }) => {
            lemma_exprs_eq_trans(params1@, params2@, params3@);
            lemma_expr_eq_trans(*body1, *body2, *body3);
        },
        (Expression::IfThenElse { condition: condition1, then_branch: then_branch1, else_branch: else_branch1, .. }, Expression::IfThenElse { condition: condition2, then_branch: then_branch2, else_branch: else_branch2, .. }, Expression::IfThenElse { condition: condition3, then_branch: then_branch3, else_branch: else_branch3, .. }) => {
            lemma_expr_eq_trans(*condition1, *condition2, *condition3);
            lemma_expr_eq_trans(*then_branch1, *then_branch2, *then_branch3);
            lemma_opt_expr_eq_trans(else_branch1, else_branch2, else_branch3);
        },
        (Expression::With { controller: controller1, body: body1, .. }, Expression::With { controller: controller2, body: body2, .. }, Expression::With { controller: controller3, body: body3, .. }) => {
            lemma_expr_eq_trans(*controller1, *controller2, *controller3);
            lemma_expr_eq_trans(*body1, *body2, *body3);
        },
        (Expression::ForLoop { iterable: iterable1, body: body1, .. }, Expression::ForLoop { iterable: iterable2, body: body2, .. }, Expression::ForLoop { iterable: iterable3, body: body3, .. }) => {
            lemma_expr_eq_trans(*iterable1, *iterable2, *iterable3);
            lemma_expr_eq_trans(*body1, *body2, *body3);
        },
        (Expression::WhileLoop { condition: condition1, body: body1, .. }, Expression::WhileLoop { condition: condition2, body: body2, .. }, Expression::WhileLoop { condition: condition3, body: body3, .. }) => {
            lemma_expr_eq_trans(*condition1, *condition2, *condition3);
            lemma_expr_eq_trans(*body1, *body2, *body3);
        },
        (Expression::Repeat { count: count1, body: body1, .. }, Expression::Repeat { count: count2, body: body2, .. }, Expression::Repeat { count: count3, body: body3, .. }) => {
            lemma_expr_eq_trans(*count1, *count2, *count3);
            lemma_expr_eq_trans(*body1, *body2, *body3);
        },
        (Expression::Return { expr: expr1, .. }, Expression::Return { expr: expr2, .. }, Expression::Return { expr: expr3, .. }) => {
            lemma_opt_expr_eq_trans(expr1, expr2, expr3);
        },
        (Expression::Comma { left: left1, right: right1, .. }, Expression::Comma { left: left2, right: right2, .. }, Expression::Comma { left: left3, right: right3, .. }) => {
            lemma_expr_eq_trans(*left1, *left2, *left3);
            lemma_expr_eq_trans(*right1, *right2, *right3);
        },
        (Expression::Compound { statements: statements1, .. }, Expression::Compound { statements: statements2, .. }, Expression::Compound { statements: statements3, .. }) => {
            lemma_exprs_eq_trans(statements1@, statements2@, statements3@);
        },
        (Expression::TypeAnnotation { expr: expr1, ty: ty1, .. }, Expression::TypeAnnotation { expr: expr2, ty: ty2, .. }, Expression::TypeAnnotation { expr: expr3, ty: ty3, .. }) => {
            lemma_expr_eq_trans(*expr1, *expr2, *expr3);
            lemma_expr_eq_trans(*ty1, *ty2, *ty3);
        },
        (Expression::Forget { variable: variable1, .. }, Expression::Forget { variable: variable2, .. }, Expression::Forget { variable: variable3, .. }) => {
            lemma_expr_eq_trans(*variable1, *variable2, *variable3);
        },
        (Expression::Assert { condition: condition1, .. }, Expression::Assert { condition: condition2, .. }, Expression::Assert { condition: condition3, .. }) => {
            lemma_expr_eq_trans(*condition1, *condition2, *condition3);
        },
        (Expression::Type { kind: kind1, .. }, Expression::Type { kind: kind2, .. }, Expression::Type { kind: kind3, .. }) => {
            lemma_kind_eq_trans(kind1, kind2, kind3);
        },
        (Expression::TypeDecl(f01), Expression::TypeDecl(f02), Expression::TypeDecl(f03)) => {
            lemma_decl_eq_trans(*f01, *f02, *f03);
        },
        _ => {},
    }
}

/// Equality of declarations as trees is transitive.
pub proof fn lemma_decl_eq_trans(a: Declaration, b: Declaration, c: Declaration)
    requires
        decl_eq(a, b),
        decl_eq(b, c),
    ensures
        decl_eq(a, c),
    decreases a,
{
    match (a, b, c) {
        (Declaration::VarDecl { dtype: dtype1, vtype: vtype1, initializer: initializer1, .. }, Declaration::VarDecl { dtype: dtype2, vtype: vtype2, initializer: initializer2, .. }, Declaration::VarDecl { dtype: dtype3, vtype: vtype3, initializer: initializer3, .. }) => {
            lemma_opt_expr_eq_trans(dtype1, dtype2, dtype3);
            lemma_opt_expr_eq_trans(vtype1, vtype2, vtype3);
            lemma_opt_expr_eq_trans(initializer1, initializer2, initializer3);
        },
        (Declaration::FunctionDef { params: params1, return_type: return_type1, body: body1, ftype: ftype1, .. }, Declaration::FunctionDef { params: params2, return_type: return_type2, body: body2, ftype: ftype2, .. }, Declaration::FunctionDef { params: params3, return_type: return_type3, body: body3, ftype: ftype3, .. }) => {
            lemma_decls_eq_trans(params1@, params2@, params3@);
            lemma_opt_expr_eq_trans(return_type1, return_type2, return_type3);
            lemma_expr_eq_trans(*body1, *body2, *body3);
            lemma_opt_expr_eq_trans(ftype1, ftype2, ftype3);
        },
        (Declaration::DatDecl { type_params: type_params1, fields: fields1, .. }, Declaration::DatDecl { type_params: type_params2, fields: fields2, .. }, Declaration::DatDecl { type_params: type_params3, fields: fields3, .. }) => {
            lemma_decls_eq_trans(type_params1@, type_params2@, type_params3@);
            lemma_decls_eq_trans(fields1@, fields2@, fields3@);
        },
        _ => {},
    }
}

/// Equality of types as trees is transitive.
pub proof fn lemma_kind_eq_trans(a: TypeKind, b: TypeKind, c: TypeKind)
    requires
        kind_eq(a, b),
        kind_eq(b, c),
    ensures
        kind_eq(a, c),
    decreases a,
{
    match (a, b, c) {
        (TypeKind::Aggregate { type_args: type_args1, .. }, TypeKind::Aggregate { type_args: type_args2, .. }, TypeKind::Aggregate { type_args: type_args3, .. }) => {
            lemma_exprs_eq_trans(type_args1@, type_args2@, type_args3@);
        },
        (TypeKind::Tuple(f01), TypeKind::Tuple(f02), TypeKind::Tuple(f03)) => {
            lemma_exprs_eq_trans(f01@, f02@, f03@);
        },
        (TypeKind::Array(f01), TypeKind::Array(f02), TypeKind::Array(f03)) => {
            lemma_expr_eq_trans(*f01, *f02, *f03);
        },
        (TypeKind::Vector { element: element1, length: length1, .. }, TypeKind::Vector { element: element2, length: length2, .. }, TypeKind::Vector { element: element3, length: length3, .. }) => {
            lemma_expr_eq_trans(*element1, *element2, *element3);
            lemma_expr_eq_trans(*length1, *length2, *length3);
        },
        (TypeKind::Product { params: params1, domain: domain1, codomain: codomain1, .. }, TypeKind::Product { params: params2, domain: domain2, codomain: codomain2, .. }, TypeKind::Product { params: params3, domain: domain3, codomain: codomain3, .. }) => {
            lemma_exprs_eq_trans(params1@, params2@, params3@);
            lemma_expr_eq_trans(*domain1, *domain2, *domain3);
            lemma_expr_eq_trans(*codomain1, *codomain2, *codomain3);
        },
        (TypeKind::Classical(f01), TypeKind::Classical(f02), TypeKind::Classical(f03)) => {
            lemma_expr_eq_trans(*f01, *f02, *f03);
        },
        (TypeKind::Context(f01), TypeKind::Context(f02), TypeKind::Context(f03)) => {
            lemma_ctx_eq_trans(f01@, f02@, f03@);
        },
        _ => {},
    }
}

proof fn lemma_opt_expr_eq_trans(a: Option<Box<Expression>>, b: Option<Box<Expression>>, c: Option<Box<Expression>>)
    requires
        opt_expr_eq(a, b),
        opt_expr_eq(b, c),
    ensures
        opt_expr_eq(a, c),
    decreases a,
{
    if let (Some(x), Some(y), Some(z)) = (a, b, c) {
        lemma_expr_eq_trans(*x, *y, *z);
    }
}

proof fn lemma_opt_decl_eq_trans(a: Option<Box<Declaration>>, b: Option<Box<Declaration>>, c: Option<Box<Declaration>>)
    requires
        opt_decl_eq(a, b),
        opt_decl_eq(b, c),
    ensures
        opt_decl_eq(a, c),
    decreases a,
{
    if let (Some(x), Some(y), Some(z)) = (a, b, c) {
        lemma_decl_eq_trans(*x, *y, *z);
    }
}

proof fn lemma_exprs_eq_trans(a: Seq<Expression>, b: Seq<Expression>, c: Seq<Expression>)
    requires
        exprs_eq(a, b),
        exprs_eq(b, c),
    ensures
        exprs_eq(a, c),
    decreases a,
{
    if a.len() > 0 {
        lemma_exprs_eq_trans(a.drop_last(), b.drop_last(), c.drop_last());
        lemma_expr_eq_trans(a.last(), b.last(), c.last());
    }
}

proof fn lemma_decls_eq_trans(a: Seq<Declaration>, b: Seq<Declaration>, c: Seq<Declaration>)
    requires
        decls_eq(a, b),
        decls_eq(b, c),
    ensures
        decls_eq(a, c),
    decreases a,
{
    if a.len() > 0 {
        lemma_decls_eq_trans(a.drop_last(), b.drop_last(), c.drop_last());
        lemma_decl_eq_trans(a.last(), b.last(), c.last());
    }
}

proof fn lemma_ctx_eq_trans(a: Seq<(Id, Expression)>, b: Seq<(Id, Expression)>, c: Seq<(Id, Expression)>)
    requires
        ctx_eq(a, b),
        ctx_eq(b, c),
    ensures
        ctx_eq(a, c),
    decreases a,
{
    if a.len() > 0 {
        lemma_ctx_eq_trans(a.drop_last(), b.drop_last(), c.drop_last());
        lemma_expr_eq_trans(a.last().1, b.last().1, c.last().1);
    }
}

// =============================================================================
// Cloning
// =============================================================================

broadcast use vstd::std_specs::vec::group_vec_axioms;

/// A copy of an expression tree.
pub fn clone_expr(e: &Expression) -> (r: Expression)
    ensures
        expr_size(r) == expr_size(*e),
        expr_eq(r, *e),
    decreases e,
{
    match e {
        Expression::Error { loc, message } => Expression::Error { loc: *loc, message: message.clone() },
        Expression::Literal { loc, value, ty } => Expression::Literal { loc: *loc, value: value.clone(), ty: clone_opt_expr(ty) },
        Expression::Identifier { loc, name, meaning, classical } => Expression::Identifier { loc: *loc, name: *name, meaning: clone_opt_decl(meaning), classical: *classical },
        Expression::Placeholder { loc } => Expression::Placeholder { loc: *loc },
        Expression::Wildcard { loc } => Expression::Wildcard { loc: *loc },
        Expression::Typeof { loc, expr } => Expression::Typeof { loc: *loc, expr: Box::new(clone_expr(expr)) },
        Expression::UnaryPlus { loc, expr } => Expression::UnaryPlus { loc: *loc, expr: Box::new(clone_expr(expr)) },
        Expression::UnaryMinus { loc, expr } => Expression::UnaryMinus { loc: *loc, expr: Box::new(clone_expr(expr)) },
        Expression::LogicalNot { loc, expr } => Expression::LogicalNot { loc: *loc, expr: Box::new(clone_expr(expr)) },
        Expression::BitwiseNot { loc, expr } => Expression::BitwiseNot { loc: *loc, expr: Box::new(clone_expr(expr)) },
        Expression::Binary { loc, op, left, right } => Expression::Binary { loc: *loc, op: *op, left: Box::new(clone_expr(left)), right: Box::new(clone_expr(right)) },
        Expression::Call { loc, function, arguments, callee } => Expression::Call { loc: *loc, function: Box::new(clone_expr(function)), arguments: clone_exprs(arguments), callee: clone_opt_decl(callee) },
        Expression::Index { loc, expr, index } => Expression::Index { loc: *loc, expr: Box::new(clone_expr(expr)), index: Box::new(clone_expr(index)) },
        Expression::Slice { loc, expr, start, end } => Expression::Slice { loc: *loc, expr: Box::new(clone_expr(expr)), start: Box::new(clone_expr(start)), end: Box::new(clone_expr(end)) },
        Expression::Field { loc, expr, field } => Expression::Field { loc: *loc, expr: Box::new(clone_expr(expr)), field: *field },
        Expression::Tuple { loc, elements } => Expression::Tuple { loc: *loc, elements: clone_exprs(elements) },
        Expression::Vector { loc, elements } => Expression::Vector { loc: *loc, elements: clone_exprs(elements) },
        Expression::Concat { loc, left, right } => Expression::Concat { loc: *loc, left: Box::new(clone_expr(left)), right: Box::new(clone_expr(right)) },
        Expression::Let { loc, name, type_ann, value, body } => Expression::Let { loc: *loc, name: *name, type_ann: clone_opt_expr(type_ann), value: Box::new(clone_expr(value)), body: Box::new(clone_expr(body)) },
        Expression::Assign { loc, target, value } => Expression::Assign { loc: *loc, target: Box::new(clone_expr(target)), value: Box::new(clone_expr(value)) },
        Expression::Lambda { loc, params, body, annotation } => Expression::Lambda { loc: *loc, params: clone_exprs(params), body: Box::new(clone_expr(body)), annotation: *annotation },
        Expression::IfThenElse { loc, condition, then_branch, else_branch } => Expression::IfThenElse { loc: *loc, condition: Box::new(clone_expr(condition)), then_branch: Box::new(clone_expr(then_branch)), else_branch: clone_opt_expr(else_branch) },
        Expression::With { loc, controller, body } => Expression::With { loc: *loc, controller: Box::new(clone_expr(controller)), body: Box::new(clone_expr(body)) },
        Expression::ForLoop { loc, variable, iterable, body } => Expression::ForLoop { loc: *loc, variable: *variable, iterable: Box::new(clone_expr(iterable)), body: Box::new(clone_expr(body)) },
        Expression::WhileLoop { loc, condition, body } => Expression::WhileLoop { loc: *loc, condition: Box::new(clone_expr(condition)), body: Box::new(clone_expr(body)) },
        Expression::Repeat { loc, count, body } => Expression::Repeat { loc: *loc, count: Box::new(clone_expr(count)), body: Box::new(clone_expr(body)) },
        Expression::Return { loc, expr } => Expression::Return { loc: *loc, expr: clone_opt_expr(expr) },
        Expression::Comma { loc, left, right } => Expression::Comma { loc: *loc, left: Box::new(clone_expr(left)), right: Box::new(clone_expr(right)) },
        Expression::Compound { loc, statements } => Expression::Compound { loc: *loc, statements: clone_exprs(statements) },
        Expression::TypeAnnotation { loc, expr, ty, kind } => Expression::TypeAnnotation { loc: *loc, expr: Box::new(clone_expr(expr)), ty: Box::new(clone_expr(ty)), kind: *kind },
        Expression::Forget { loc, variable } => Expression::Forget { loc: *loc, variable: Box::new(clone_expr(variable)) },
        Expression::Assert { loc, condition, message } => Expression::Assert { loc: *loc, condition: Box::new(clone_expr(condition)), message: match message { Some(s) => Some(s.clone()), None => None } },
        Expression::Type { loc, kind } => Expression::Type { loc: *loc, kind: clone_kind(kind) },
        Expression::TypeDecl(f0) => Expression::TypeDecl(Box::new(clone_decl(f0))),
        Expression::TypeVar { loc, index } => Expression::TypeVar { loc: *loc, index: *index },
    }
}

/// A copy of a declaration.
pub fn clone_decl(d: &Declaration) -> (r: Declaration)
    ensures
        decl_size(r) == decl_size(*d),
        decl_eq(r, *d),
    decreases d,
{
    match d {
        Declaration::VarDecl { loc, name, dtype, vtype, initializer, is_parameter, capture } => Declaration::VarDecl { loc: *loc, name: *name, dtype: clone_opt_expr(dtype), vtype: clone_opt_expr(vtype), initializer: clone_opt_expr(initializer), is_parameter: *is_parameter, capture: *capture },
        Declaration::FunctionDef { loc, name, params, return_type, body, annotation, ftype, captures, is_main, extern_name } => Declaration::FunctionDef { loc: *loc, name: *name, params: clone_decls(params), return_type: clone_opt_expr(return_type), body: Box::new(clone_expr(body)), annotation: *annotation, ftype: clone_opt_expr(ftype), captures: vstd::slice::slice_to_vec(captures.as_slice()), is_main: *is_main, extern_name: match extern_name { Some(s) => Some(s.clone()), None => None } },
        Declaration::DatDecl { loc, name, type_params, fields, is_quantum } => Declaration::DatDecl { loc: *loc, name: *name, type_params: clone_decls(type_params), fields: clone_decls(fields), is_quantum: *is_quantum },
        Declaration::Import { loc, path } => Declaration::Import { loc: *loc, path: path.clone() },
    }
}

/// A copy of an optional expression.
pub fn clone_opt_expr(o: &Option<Box<Expression>>) -> (r: Option<Box<Expression>>)
    ensures
        opt_expr_size(r) == opt_expr_size(*o),
        opt_expr_eq(r, *o),
    decreases o,
{
    match o {
        Some(b) => Some(Box::new(clone_expr(b))),
        None => None,
    }
}

/// A copy of an optional declaration.
pub fn clone_opt_decl(o: &Option<Box<Declaration>>) -> (r: Option<Box<Declaration>>)
    ensures
        opt_decl_size(r) == opt_decl_size(*o),
        opt_decl_eq(r, *o),
    decreases o,
{
    match o {
        Some(b) => Some(Box::new(clone_decl(b))),
        None => None,
    }
}

/// A copy of a type.
pub fn clone_kind(k: &TypeKind) -> (r: TypeKind)
    ensures
        kind_size(r) == kind_size(*k),
        kind_eq(r, *k),
    decreases k,
{
    match k {
        TypeKind::Numeric(f0) => TypeKind::Numeric(*f0),
        TypeKind::FixedInt(f0) => TypeKind::FixedInt(*f0),
        TypeKind::ZMod(f0) => TypeKind::ZMod(*f0),
        TypeKind::Aggregate { name, type_args } => TypeKind::Aggregate { name: *name, type_args: clone_exprs(type_args) },
        TypeKind::Unit => TypeKind::Unit,
        TypeKind::Bottom => TypeKind::Bottom,
        TypeKind::Tuple(f0) => TypeKind::Tuple(clone_exprs(f0)),
        TypeKind::Array(f0) => TypeKind::Array(Box::new(clone_expr(f0))),
        TypeKind::Vector { element, length } => TypeKind::Vector { element: Box::new(clone_expr(element)), length: Box::new(clone_expr(length)) },
        TypeKind::String => TypeKind::String,
        TypeKind::Product { params, domain, codomain, annotation } => TypeKind::Product { params: clone_exprs(params), domain: Box::new(clone_expr(domain)), codomain: Box::new(clone_expr(codomain)), annotation: *annotation },
        TypeKind::Classical(f0) => TypeKind::Classical(Box::new(clone_expr(f0))),
        TypeKind::QNumeric => TypeKind::QNumeric,
        TypeKind::TypeVar(f0) => TypeKind::TypeVar(*f0),
        TypeKind::TypeMeta { variant } => TypeKind::TypeMeta { variant: *variant },
        TypeKind::Context(f0) => TypeKind::Context(clone_context(f0)),
    }
}

/// A copy of a list of expressions.
pub fn clone_exprs(v: &Vec<Expression>) -> (r: Vec<Expression>)
    ensures
        r@.len() == v@.len(),
        exprs_size(r@) == exprs_size(v@),
        exprs_eq(r@, v@),
    decreases v,
{
    let mut r: Vec<Expression> = Vec::new();
    let mut i: usize = 0;
    while i < v.len()
        invariant
            i <= v@.len(),
            r@.len() == i,
            exprs_size(r@) == exprs_size(v@.subrange(0, i as int)),
            exprs_eq(r@, v@.subrange(0, i as int)),
        decreases v@.len() - i,
    {
        let ghost before = r@;
        r.push(clone_expr(&v[i]));
        i += 1;
        proof {
            assert(v@.subrange(0, i as int).drop_last() =~= v@.subrange(0, i - 1));
            assert(r@.drop_last() =~= before);
        }
    }
    assert(v@.subrange(0, v@.len() as int) =~= v@);
    r
}

/// A copy of a list of declarations.
pub fn clone_decls(v: &Vec<Declaration>) -> (r: Vec<Declaration>)
    ensures
        r@.len() == v@.len(),
        decls_size(r@) == decls_size(v@),
        decls_eq(r@, v@),
    decreases v,
{
    let mut r: Vec<Declaration> = Vec::new();
    let mut i: usize = 0;
    while i < v.len()
        invariant
            i <= v@.len(),
            r@.len() == i,
            decls_size(r@) == decls_size(v@.subrange(0, i as int)),
            decls_eq(r@, v@.subrange(0, i as int)),
        decreases v@.len() - i,
    {
        let ghost before = r@;
        r.push(clone_decl(&v[i]));
        i += 1;
        proof {
            assert(v@.subrange(0, i as int).drop_last() =~= v@.subrange(0, i - 1));
            assert(r@.drop_last() =~= before);
        }
    }
    assert(v@.subrange(0, v@.len() as int) =~= v@);
    r
}

/// A copy of a closure context.
pub fn clone_context(v: &Vec<(Id, Expression)>) -> (r: Vec<(Id, Expression)>)
    ensures
        r@.len() == v@.len(),
        ctx_size(r@) == ctx_size(v@),
        ctx_eq(r@, v@),
    decreases v,
{
    let mut r: Vec<(Id, Expression)> = Vec::new();
    let mut i: usize = 0;
    while i < v.len()
        invariant
            i <= v@.len(),
            r@.len() == i,
            ctx_size(r@) == ctx_size(v@.subrange(0, i as int)),
            ctx_eq(r@, v@.subrange(0, i as int)),
        decreases v@.len() - i,
    {
        let ghost before = r@;
        r.push((v[i].0, clone_expr(&v[i].1)));
        i += 1;
        proof {
            assert(v@.subrange(0, i as int).drop_last() =~= v@.subrange(0, i - 1));
            assert(r@.drop_last() =~= before);
        }
    }
    assert(v@.subrange(0, v@.len() as int) =~= v@);
    r
}

impl Clone for Expression {
    fn clone(&self) -> (r: Self)
        ensures
            expr_eq(r, *self),
    {
        clone_expr(self)
    }
}

impl Clone for Declaration {
    fn clone(&self) -> (r: Self)
        ensures
            decl_eq(r, *self),
    {
        clone_decl(self)
    }
}

impl Clone for TypeKind {
    fn clone(&self) -> (r: Self)
        ensures
            kind_eq(r, *self),
    {
        clone_kind(self)
    }
}

} // verus!
