//! The grammar of Silq: a recursive-descent, precedence-climbing parser over
//! the token stream, written as specification.
//!
//! A parse state is a position `q` in the source (the token under the cursor
//! is the one lexing from `q` gives, `token_at`) and the interned names `ns`.
//! Each function gives the tree parsed from that state (as an `ExprTree`),
//! the position after it and the names afterwards.  The functions take fuel:
//! each nested parse uses one unit, and loops run over the token measure, so
//! every function is total; with enough fuel (`fuel_for`) the result no
//! longer depends on it.  The parser in `parser` is proved to compute exactly
//! these results.

use vstd::prelude::*;
use crate::ast::{Annotation, CaptureAnnotation, Id, LitVal, TypeAnnotationKind};
use crate::errors::Location;
use crate::lexer::{lemma_lex_step_deterministic, lex_step};
use crate::parser::{annotation_of, capture_of, int_literal_value, rational_parts, strip_underscores, token_loc};
use crate::syntax::{DeclTree, ExprTree, KindTree};
use crate::token::{precedence, spec_lbp, Token, TokenType};

verus! {

/// The result of a parse: the tree, the position after it, and the interned names.
pub ghost struct Parsed<T> {
    pub tree: T,
    pub at: int,
    pub names: Seq<Seq<char>>,
}

/// The token that lexing from position `q` gives, and the position after it.
pub open spec fn step(s: Seq<u8>, q: int) -> (Token, int) {
    choose|tp: (Token, int)| lex_step(s, q, tp.1, tp.0)
}

pub open spec fn kind_at(s: Seq<u8>, q: int) -> TokenType {
    step(s, q).0.ty
}

pub open spec fn text_at(s: Seq<u8>, q: int) -> Seq<char> {
    step(s, q).0.text@
}

pub open spec fn loc_at(s: Seq<u8>, q: int) -> Location {
    token_loc(step(s, q).0)
}

/// The position from which the token after the one at `q` is lexed.
pub open spec fn next(s: Seq<u8>, q: int) -> int {
    step(s, q).1
}

/// Input left from `q`: twice the bytes after the token at `q`, plus one
/// unless that token is the end of file.
pub open spec fn meas(s: Seq<u8>, q: int) -> nat {
    if 0 <= next(s, q) <= s.len() {
        (2 * (s.len() - next(s, q)) + if kind_at(s, q) != TokenType::Eof {
            1int
        } else {
            0int
        }) as nat
    } else {
        0
    }
}

/// Less input is left at `a` than at `b`.
pub open spec fn less(s: Seq<u8>, a: int, b: int) -> bool {
    meas(s, a) < meas(s, b)
}

/// The position after consuming a token of kind `t` if it is the one at `q`.
pub open spec fn skip_if(s: Seq<u8>, q: int, t: TokenType) -> int {
    if kind_at(s, q) == t {
        next(s, q)
    } else {
        q
    }
}

/// The names after interning `t`.
pub open spec fn intern_names(ns: Seq<Seq<char>>, t: Seq<char>) -> Seq<Seq<char>> {
    if ns.contains(t) {
        ns
    } else {
        ns.push(t)
    }
}

/// The id that interning `t` gives.
pub open spec fn intern_id(ns: Seq<Seq<char>>, t: Seq<char>) -> Id {
    if ns.contains(t) {
        Id(choose|i: usize| i < ns.len() && ns[i as int] == t)
    } else {
        Id(ns.len() as usize)
    }
}

/// Fuel enough for a parse of rank `rank` from `q`.
pub open spec fn need(s: Seq<u8>, q: int, rank: nat) -> nat {
    meas(s, q) * 8 + rank
}

/// Fuel enough for parsing a whole source.
pub open spec fn fuel_for(s: Seq<u8>) -> nat {
    (2 * s.len() + 2) * 8
}

/// A result for parses without fuel (never reached with enough fuel).
pub open spec fn stuck<T>(q: int, ns: Seq<Seq<char>>) -> Parsed<T> {
    Parsed { tree: arbitrary(), at: q, names: ns }
}

pub open spec fn default_loc() -> Location {
    Location::spec_default()
}

pub open spec fn ident(loc: Location, name: Id) -> ExprTree {
    ExprTree::Identifier { loc, name, meaning: None, classical: false }
}

pub open spec fn unit_tree() -> ExprTree {
    ExprTree::Literal { loc: default_loc(), value: LitVal::Unit, ty: None }
}

/// A primary expression: the token at `q` starts it.
pub open spec fn g_primary(s: Seq<u8>, q: int, ns: Seq<Seq<char>>, f: nat) -> Parsed<ExprTree>
    decreases f, 0nat,
{
    if f == 0 {
        stuck(q, ns)
    } else {
        let g = (f - 1) as nat;
        let loc = loc_at(s, q);
        let t = kind_at(s, q);
        let txt = text_at(s, q);
        let q1 = next(s, q);
        if t == TokenType::Identifier {
            Parsed { tree: ident(loc, intern_id(ns, txt)), at: q1, names: intern_names(ns, txt) }
        } else if t == TokenType::KwTrue || t == TokenType::KwFalse {
            Parsed {
                tree: ExprTree::Literal { loc, value: LitVal::Bool(t == TokenType::KwTrue), ty: None },
                at: q1,
                names: ns,
            }
        } else if t == TokenType::IntLit {
            Parsed {
                tree: ExprTree::Literal { loc, value: LitVal::Int(int_literal_value(txt)), ty: None },
                at: q1,
                names: ns,
            }
        } else if t == TokenType::FloatLit {
            Parsed {
                tree: ExprTree::Literal { loc, value: LitVal::Float(strip_underscores(txt)), ty: None },
                at: q1,
                names: ns,
            }
        } else if t == TokenType::RationalLit {
            Parsed {
                tree: match rational_parts(txt) {
                    Some((a, b)) => ExprTree::Literal {
                        loc,
                        value: LitVal::Rational(int_literal_value(a), int_literal_value(b)),
                        ty: None,
                    },
                    None => ExprTree::Error { loc, message: "invalid rational literal: "@ + txt },
                },
                at: q1,
                names: ns,
            }
        } else if t == TokenType::StringLit {
            Parsed { tree: ExprTree::Literal { loc, value: LitVal::Str(txt), ty: None }, at: q1, names: ns }
        } else if t == TokenType::CharLit {
            Parsed {
                tree: ExprTree::Literal {
                    loc,
                    value: LitVal::Char(
                        if txt.len() > 0 {
                            txt[0]
                        } else {
                            '?'
                        },
                    ),
                    ty: None,
                },
                at: q1,
                names: ns,
            }
        } else if t == TokenType::Underscore {
            Parsed { tree: ExprTree::Wildcard { loc }, at: q1, names: ns }
        } else if t == TokenType::KwLet {
            g_let(s, q1, ns, None, g)
        } else if t == TokenType::KwLambda {
            g_lambda(s, q1, ns, loc, g)
        } else if t == TokenType::KwTypeof || t == TokenType::KwAssert || t == TokenType::KwForget {
            g_keyword_call(s, q1, ns, t, loc, g)
        } else if t == TokenType::KwIf {
            g_if(s, q1, ns, g)
        } else if t == TokenType::KwFor {
            g_for(s, q1, ns, g)
        } else if t == TokenType::KwWhile {
            g_while(s, q1, ns, g)
        } else if t == TokenType::KwRepeat {
            g_repeat(s, q1, ns, g)
        } else if t == TokenType::KwWith {
            g_with(s, q1, ns, g)
        } else if t == TokenType::KwReturn {
            if kind_at(s, q1) == TokenType::Semicolon || kind_at(s, q1) == TokenType::RBrace {
                Parsed { tree: ExprTree::Return { loc, expr: None }, at: q1, names: ns }
            } else {
                let e = g_expression(s, q1, ns, g);
                Parsed { tree: ExprTree::Return { loc, expr: Some(Box::new(e.tree)) }, at: e.at, names: e.names }
            }
        } else if t == TokenType::LParen {
            g_paren(s, q1, ns, loc, g)
        } else if t == TokenType::LBrace {
            g_compound(s, q, ns, g)
        } else if t == TokenType::LBracket {
            g_bracket(s, q1, ns, loc, g)
        } else if t == TokenType::Minus || t == TokenType::Plus || t == TokenType::Not || t
            == TokenType::Tilde {
            g_unary(s, q1, ns, t, loc, g)
        } else if t == TokenType::KwConst {
            let e = g_expression(s, q1, ns, g);
            Parsed {
                tree: ExprTree::TypeAnnotation {
                    loc,
                    expr: Box::new(e.tree),
                    ty: Box::new(ExprTree::Type { loc: default_loc(), kind: KindTree::Unit }),
                    kind: TypeAnnotationKind::Pun,
                },
                at: e.at,
                names: e.names,
            }
        } else if t == TokenType::KwMoved {
            g_expression(s, q1, ns, g)
        } else {
            Parsed { tree: ExprTree::Error { loc, message: "unexpected token"@ }, at: q1, names: ns }
        }
    }
}

/// `typeof(e)`, `assert(e)` or `forget(e)` after the keyword `t` at `loc`.
pub open spec fn g_keyword_call(
    s: Seq<u8>,
    q: int,
    ns: Seq<Seq<char>>,
    t: TokenType,
    loc: Location,
    f: nat,
) -> Parsed<ExprTree>
    decreases f, 0nat,
{
    if f == 0 {
        stuck(q, ns)
    } else {
        let e = g_expression(s, skip_if(s, q, TokenType::LParen), ns, (f - 1) as nat);
        let tree = if t == TokenType::KwTypeof {
            ExprTree::Typeof { loc, expr: Box::new(e.tree) }
        } else if t == TokenType::KwAssert {
            ExprTree::Assert { loc, condition: Box::new(e.tree), message: None }
        } else {
            ExprTree::Forget { loc, variable: Box::new(e.tree) }
        };
        Parsed { tree, at: skip_if(s, e.at, TokenType::RParen), names: e.names }
    }
}

/// After `(` at `loc`: `()` is the unit type, `(e)` is `e`, and `(e, ...)` a tuple.
pub open spec fn g_paren(s: Seq<u8>, q: int, ns: Seq<Seq<char>>, loc: Location, f: nat) -> Parsed<ExprTree>
    decreases f, 0nat,
{
    if f == 0 {
        stuck(q, ns)
    } else if kind_at(s, q) == TokenType::RParen {
        Parsed { tree: ExprTree::Type { loc: default_loc(), kind: KindTree::Unit }, at: next(s, q), names: ns }
    } else {
        let e = g_expression(s, q, ns, (f - 1) as nat);
        if kind_at(s, e.at) == TokenType::Comma {
            let l = g_more_exprs(s, e.at, e.names, seq![e.tree], TokenType::RParen, (f - 1) as nat);
            Parsed {
                tree: ExprTree::Tuple { loc, elements: l.tree },
                at: skip_if(s, l.at, TokenType::RParen),
                names: l.names,
            }
        } else {
            Parsed { tree: e.tree, at: skip_if(s, e.at, TokenType::RParen), names: e.names }
        }
    }
}

/// After `[` at `loc`: a vector of comma-separated expressions.
pub open spec fn g_bracket(s: Seq<u8>, q: int, ns: Seq<Seq<char>>, loc: Location, f: nat) -> Parsed<ExprTree>
    decreases f, 0nat,
{
    if f == 0 {
        stuck(q, ns)
    } else {
        let l = if kind_at(s, q) == TokenType::RBracket {
            Parsed { tree: Seq::empty(), at: q, names: ns }
        } else {
            let e = g_expression(s, q, ns, (f - 1) as nat);
            g_more_exprs(s, e.at, e.names, seq![e.tree], TokenType::RBracket, (f - 1) as nat)
        };
        Parsed {
            tree: ExprTree::Vector { loc, elements: l.tree },
            at: skip_if(s, l.at, TokenType::RBracket),
            names: l.names,
        }
    }
}

/// A prefix operator `t` at `loc` and its operand, which binds tighter than any infix operator.
pub open spec fn g_unary(
    s: Seq<u8>,
    q: int,
    ns: Seq<Seq<char>>,
    t: TokenType,
    loc: Location,
    f: nat,
) -> Parsed<ExprTree>
    decreases f, 0nat,
{
    if f == 0 {
        stuck(q, ns)
    } else {
        let e = g_pep(s, q, ns, 150, (f - 1) as nat);
        let x = Box::new(e.tree);
        let tree = if t == TokenType::Minus {
            ExprTree::UnaryMinus { loc, expr: x }
        } else if t == TokenType::Plus {
            ExprTree::UnaryPlus { loc, expr: x }
        } else if t == TokenType::Not {
            ExprTree::LogicalNot { loc, expr: x }
        } else {
            ExprTree::BitwiseNot { loc, expr: x }
        };
        Parsed { tree, at: e.at, names: e.names }
    }
}

/// The arguments of a call after `(`: none when `)` follows, else
/// comma-separated expressions of assignment strength.
pub open spec fn g_call_args(s: Seq<u8>, q: int, ns: Seq<Seq<char>>, f: nat) -> Parsed<Seq<ExprTree>>
    decreases f, 0nat,
{
    if f == 0 {
        stuck(q, ns)
    } else if kind_at(s, q) == TokenType::RParen {
        Parsed { tree: Seq::empty(), at: q, names: ns }
    } else {
        let x = g_pep(s, q, ns, precedence::ASSIGN, (f - 1) as nat);
        g_more_args(s, x.at, x.names, seq![x.tree], (f - 1) as nat)
    }
}

/// More elements of a parenthesised or bracketed list: while a comma follows,
/// the next expression, unless `closer` comes right after the comma.
pub open spec fn g_more_exprs(
    s: Seq<u8>,
    q: int,
    ns: Seq<Seq<char>>,
    acc: Seq<ExprTree>,
    closer: TokenType,
    f: nat,
) -> Parsed<Seq<ExprTree>>
    decreases f, meas(s, q),
{
    if kind_at(s, q) != TokenType::Comma {
        Parsed { tree: acc, at: q, names: ns }
    } else if kind_at(s, next(s, q)) == closer {
        Parsed { tree: acc, at: next(s, q), names: ns }
    } else if f == 0 {
        stuck(q, ns)
    } else {
        let e = g_expression(s, next(s, q), ns, (f - 1) as nat);
        if less(s, e.at, q) {
            g_more_exprs(s, e.at, e.names, acc.push(e.tree), closer, f)
        } else {
            stuck(q, ns)
        }
    }
}

/// A block `{ ... }`: statements up to the closing brace; stray semicolons are skipped.
pub open spec fn g_compound(s: Seq<u8>, q: int, ns: Seq<Seq<char>>, f: nat) -> Parsed<ExprTree>
    decreases f, 0nat,
{
    if f == 0 {
        stuck(q, ns)
    } else {
        let l = g_statements(s, next(s, q), ns, Seq::empty(), (f - 1) as nat);
        Parsed {
            tree: ExprTree::Compound { loc: loc_at(s, q), statements: l.tree },
            at: skip_if(s, l.at, TokenType::RBrace),
            names: l.names,
        }
    }
}

pub open spec fn g_statements(
    s: Seq<u8>,
    q: int,
    ns: Seq<Seq<char>>,
    acc: Seq<ExprTree>,
    f: nat,
) -> Parsed<Seq<ExprTree>>
    decreases f, meas(s, q),
{
    let t = kind_at(s, q);
    if t == TokenType::RBrace || t == TokenType::Eof {
        Parsed { tree: acc, at: q, names: ns }
    } else if t == TokenType::Semicolon {
        if less(s, next(s, q), q) {
            g_statements(s, next(s, q), ns, acc, f)
        } else {
            stuck(q, ns)
        }
    } else if f == 0 {
        stuck(q, ns)
    } else {
        let st = g_statement(s, q, ns, (f - 1) as nat);
        let q2 = skip_if(s, st.at, TokenType::Semicolon);
        if less(s, q2, q) {
            g_statements(s, q2, st.names, acc.push(st.tree), f)
        } else {
            stuck(q, ns)
        }
    }
}

/// A statement: a declaration, a `let`, an assignment or an expression.
pub open spec fn g_statement(s: Seq<u8>, q: int, ns: Seq<Seq<char>>, f: nat) -> Parsed<ExprTree>
    decreases f, 0nat,
{
    if f == 0 {
        stuck(q, ns)
    } else {
        let g = (f - 1) as nat;
        let loc = loc_at(s, q);
        let t = kind_at(s, q);
        let q1 = next(s, q);
        let name = intern_id(ns, text_at(s, q1));
        let ns1 = intern_names(ns, text_at(s, q1));
        let q2 = next(s, q1);
        if t == TokenType::KwDef {
            g_function_def(s, q2, ns1, name, g)
        } else if t == TokenType::KwDat {
            g_dat(s, q2, ns1, name, g)
        } else if t == TokenType::KwImport {
            Parsed {
                tree: ExprTree::TypeDecl(Box::new(DeclTree::Import { loc, path: text_at(s, q1) })),
                at: q2,
                names: ns,
            }
        } else if t == TokenType::KwLet {
            g_let(s, q2, ns1, Some(name), g)
        } else {
            let e = g_expression(s, q, ns, g);
            let a = kind_at(s, e.at);
            if a == TokenType::Assign || a == TokenType::LeftArrow {
                let aloc = loc_at(s, e.at);
                let v = g_expression(s, next(s, e.at), e.names, g);
                let tree = match e.tree {
                    ExprTree::Identifier { name, .. } => if a == TokenType::Assign {
                        ExprTree::Let {
                            loc: aloc,
                            name,
                            type_ann: None,
                            value: Box::new(v.tree),
                            body: Box::new(ident(loc, name)),
                        }
                    } else {
                        ExprTree::Assign { loc: aloc, target: Box::new(e.tree), value: Box::new(v.tree) }
                    },
                    _ => ExprTree::Assign { loc: aloc, target: Box::new(e.tree), value: Box::new(v.tree) },
                };
                Parsed { tree, at: v.at, names: v.names }
            } else {
                e
            }
        }
    }
}

/// A function definition after `def name`: parameters, annotation, return type, body.
pub open spec fn g_function_def(s: Seq<u8>, q: int, ns: Seq<Seq<char>>, name: Id, f: nat) -> Parsed<ExprTree>
    decreases f, 0nat,
{
    if f == 0 {
        stuck(q, ns)
    } else {
        let g = (f - 1) as nat;
        let q1 = skip_if(s, q, TokenType::LParen);
        let ps = if kind_at(s, q1) == TokenType::RParen {
            Parsed { tree: Seq::empty(), at: q1, names: ns }
        } else {
            let p = g_parameter(s, q1, ns, g);
            g_more_params(s, p.at, p.names, seq![p.tree], g)
        };
        let q2 = skip_if(s, ps.at, TokenType::RParen);
        let ann = annotation_of(kind_at(s, q2));
        let q3 = if ann != Annotation::NoAnnotation {
            next(s, q2)
        } else {
            q2
        };
        let rt = if kind_at(s, q3) == TokenType::Colon {
            let r = g_expression(s, next(s, q3), ps.names, g);
            Parsed { tree: Some(Box::new(r.tree)), at: r.at, names: r.names }
        } else {
            Parsed { tree: None, at: q3, names: ps.names }
        };
        let b = g_body(s, rt.at, rt.names, g);
        Parsed {
            tree: ExprTree::TypeDecl(
                Box::new(
                    DeclTree::FunctionDef {
                        loc: loc_at(s, q),
                        name,
                        params: ps.tree,
                        return_type: rt.tree,
                        body: Box::new(b.tree),
                        annotation: ann,
                        ftype: None,
                        captures: Seq::empty(),
                        is_main: false,
                        extern_name: None,
                    },
                ),
            ),
            at: b.at,
            names: b.names,
        }
    }
}

pub open spec fn g_more_params(
    s: Seq<u8>,
    q: int,
    ns: Seq<Seq<char>>,
    acc: Seq<DeclTree>,
    f: nat,
) -> Parsed<Seq<DeclTree>>
    decreases f, meas(s, q),
{
    if kind_at(s, q) != TokenType::Comma {
        Parsed { tree: acc, at: q, names: ns }
    } else if kind_at(s, next(s, q)) == TokenType::RParen {
        Parsed { tree: acc, at: next(s, q), names: ns }
    } else if f == 0 {
        stuck(q, ns)
    } else {
        let p = g_parameter(s, next(s, q), ns, (f - 1) as nat);
        if less(s, p.at, q) {
            g_more_params(s, p.at, p.names, acc.push(p.tree), f)
        } else {
            stuck(q, ns)
        }
    }
}

/// A parameter: `[const|moved] name [: type]`.
pub open spec fn g_parameter(s: Seq<u8>, q: int, ns: Seq<Seq<char>>, f: nat) -> Parsed<DeclTree>
    decreases f, 0nat,
{
    if f == 0 {
        stuck(q, ns)
    } else {
        let t = kind_at(s, q);
        let q1 = if t == TokenType::KwConst || t == TokenType::KwMoved {
            next(s, q)
        } else {
            q
        };
        let name = intern_id(ns, text_at(s, q1));
        let ns1 = intern_names(ns, text_at(s, q1));
        let q2 = next(s, q1);
        let dt = if kind_at(s, q2) == TokenType::Colon {
            let d = g_expression(s, next(s, q2), ns1, (f - 1) as nat);
            Parsed { tree: Some(Box::new(d.tree)), at: d.at, names: d.names }
        } else {
            Parsed { tree: None, at: q2, names: ns1 }
        };
        Parsed {
            tree: DeclTree::VarDecl {
                loc: loc_at(s, q),
                name,
                dtype: dt.tree,
                vtype: None,
                initializer: None,
                is_parameter: true,
                capture: capture_of(t),
            },
            at: dt.at,
            names: dt.names,
        }
    }
}

/// A function body: `;` (abstract), `=> expr`, a block, or an expression.
pub open spec fn g_body(s: Seq<u8>, q: int, ns: Seq<Seq<char>>, f: nat) -> Parsed<ExprTree>
    decreases f, 0nat,
{
    if f == 0 {
        stuck(q, ns)
    } else {
        let t = kind_at(s, q);
        if t == TokenType::Semicolon {
            Parsed { tree: unit_tree(), at: next(s, q), names: ns }
        } else if t == TokenType::FatArrow {
            g_expression(s, next(s, q), ns, (f - 1) as nat)
        } else if t == TokenType::LBrace {
            g_compound(s, q, ns, (f - 1) as nat)
        } else {
            g_expression(s, q, ns, (f - 1) as nat)
        }
    }
}

/// A data type declaration after `dat name`: `[params]`, `quantum`, `{ fields }`.
pub open spec fn g_dat(s: Seq<u8>, q: int, ns: Seq<Seq<char>>, name: Id, f: nat) -> Parsed<ExprTree>
    decreases f, 0nat,
{
    if f == 0 {
        stuck(q, ns)
    } else {
        let g = (f - 1) as nat;
        let tp = if kind_at(s, q) == TokenType::LBracket {
            let p = g_type_params(s, next(s, q), ns, g);
            Parsed { tree: p.tree, at: skip_if(s, p.at, TokenType::RBracket), names: p.names }
        } else {
            Parsed { tree: Seq::empty(), at: q, names: ns }
        };
        let quantum = kind_at(s, tp.at) == TokenType::KwQuantum;
        let q2 = skip_if(s, tp.at, TokenType::KwQuantum);
        let fs = g_fields(s, skip_if(s, q2, TokenType::LBrace), tp.names, Seq::empty(), g);
        Parsed {
            tree: ExprTree::TypeDecl(
                Box::new(
                    DeclTree::DatDecl {
                        loc: loc_at(s, q),
                        name,
                        type_params: tp.tree,
                        fields: fs.tree,
                        is_quantum: quantum,
                    },
                ),
            ),
            at: skip_if(s, fs.at, TokenType::RBrace),
            names: fs.names,
        }
    }
}

/// The fields of a data type, up to the closing brace: parameters, each
/// optionally followed by a semicolon.
pub open spec fn g_fields(
    s: Seq<u8>,
    q: int,
    ns: Seq<Seq<char>>,
    acc: Seq<DeclTree>,
    f: nat,
) -> Parsed<Seq<DeclTree>>
    decreases f, meas(s, q),
{
    let t = kind_at(s, q);
    if t == TokenType::RBrace || t == TokenType::Eof {
        Parsed { tree: acc, at: q, names: ns }
    } else if t == TokenType::Semicolon {
        if less(s, next(s, q), q) {
            g_fields(s, next(s, q), ns, acc, f)
        } else {
            stuck(q, ns)
        }
    } else if f == 0 {
        stuck(q, ns)
    } else {
        let p = g_parameter(s, q, ns, (f - 1) as nat);
        let q2 = skip_if(s, p.at, TokenType::Semicolon);
        if less(s, q2, q) {
            g_fields(s, q2, p.names, acc.push(p.tree), f)
        } else {
            stuck(q, ns)
        }
    }
}

/// Type parameters `T1, T2: type, ...` (at least one).
pub open spec fn g_type_params(s: Seq<u8>, q: int, ns: Seq<Seq<char>>, f: nat) -> Parsed<Seq<DeclTree>>
    decreases f, 0nat,
{
    if f == 0 {
        stuck(q, ns)
    } else {
        g_more_type_params(s, q, ns, Seq::empty(), (f - 1) as nat)
    }
}

pub open spec fn g_more_type_params(
    s: Seq<u8>,
    q: int,
    ns: Seq<Seq<char>>,
    acc: Seq<DeclTree>,
    f: nat,
) -> Parsed<Seq<DeclTree>>
    decreases f, meas(s, q),
{
    let name = intern_id(ns, text_at(s, q));
    let ns1 = intern_names(ns, text_at(s, q));
    let q1 = next(s, q);
    if kind_at(s, q1) == TokenType::Colon && f == 0 {
        stuck(q, ns)
    } else {
        let dt = if kind_at(s, q1) == TokenType::Colon {
            let d = g_expression(s, next(s, q1), ns1, (f - 1) as nat);
            Parsed { tree: Some(Box::new(d.tree)), at: d.at, names: d.names }
        } else {
            Parsed { tree: None, at: q1, names: ns1 }
        };
        let p = DeclTree::VarDecl {
            loc: default_loc(),
            name,
            dtype: dt.tree,
            vtype: None,
            initializer: None,
            is_parameter: true,
            capture: CaptureAnnotation::Const,
        };
        if kind_at(s, dt.at) != TokenType::Comma {
            Parsed { tree: acc.push(p), at: dt.at, names: dt.names }
        } else if less(s, next(s, dt.at), q) {
            g_more_type_params(s, next(s, dt.at), dt.names, acc.push(p), f)
        } else {
            stuck(q, ns)
        }
    }
}

/// A `let` after the keyword (or after the name, when `name` is given):
/// `name [: type] := value`; the body is the unit literal.
pub open spec fn g_let(s: Seq<u8>, q: int, ns: Seq<Seq<char>>, name: Option<Id>, f: nat) -> Parsed<ExprTree>
    decreases f, 0nat,
{
    if f == 0 {
        stuck(q, ns)
    } else {
        let g = (f - 1) as nat;
        let (nm, q1, ns1) = match name {
            Some(n) => (n, q, ns),
            None => (intern_id(ns, text_at(s, q)), next(s, q), intern_names(ns, text_at(s, q))),
        };
        let ta = if kind_at(s, q1) == TokenType::Colon {
            let t = g_expression(s, next(s, q1), ns1, g);
            Parsed { tree: Some(Box::new(t.tree)), at: t.at, names: t.names }
        } else {
            Parsed { tree: None, at: q1, names: ns1 }
        };
        let v = g_expression(s, skip_if(s, ta.at, TokenType::Assign), ta.names, g);
        Parsed {
            tree: ExprTree::Let {
                loc: loc_at(s, q),
                name: nm,
                type_ann: ta.tree,
                value: Box::new(v.tree),
                body: Box::new(unit_tree()),
            },
            at: v.at,
            names: v.names,
        }
    }
}

/// An `if` after the keyword: condition, optional `then`, branch, optional `else` branch.
pub open spec fn g_if(s: Seq<u8>, q: int, ns: Seq<Seq<char>>, f: nat) -> Parsed<ExprTree>
    decreases f, 0nat,
{
    if f == 0 {
        stuck(q, ns)
    } else {
        let g = (f - 1) as nat;
        let c = g_expression(s, q, ns, g);
        let q1 = skip_if(s, c.at, TokenType::KwThen);
        let t = if kind_at(s, q1) == TokenType::LBrace {
            g_compound(s, q1, c.names, g)
        } else {
            g_expression(s, q1, c.names, g)
        };
        let e = if kind_at(s, t.at) == TokenType::KwElse {
            let q2 = next(s, t.at);
            let b = if kind_at(s, q2) == TokenType::KwIf {
                g_if(s, next(s, q2), t.names, g)
            } else if kind_at(s, q2) == TokenType::LBrace {
                g_compound(s, q2, t.names, g)
            } else {
                g_expression(s, q2, t.names, g)
            };
            Parsed { tree: Some(Box::new(b.tree)), at: b.at, names: b.names }
        } else {
            Parsed { tree: None, at: t.at, names: t.names }
        };
        Parsed {
            tree: ExprTree::IfThenElse {
                loc: loc_at(s, q),
                condition: Box::new(c.tree),
                then_branch: Box::new(t.tree),
                else_branch: e.tree,
            },
            at: e.at,
            names: e.names,
        }
    }
}

/// A `for` after the keyword: `name in iterable body`.
pub open spec fn g_for(s: Seq<u8>, q: int, ns: Seq<Seq<char>>, f: nat) -> Parsed<ExprTree>
    decreases f, 0nat,
{
    if f == 0 {
        stuck(q, ns)
    } else {
        let g = (f - 1) as nat;
        let var = intern_id(ns, text_at(s, q));
        let ns1 = intern_names(ns, text_at(s, q));
        let it = g_expression(s, skip_if(s, next(s, q), TokenType::KwIn), ns1, g);
        let b = if kind_at(s, it.at) == TokenType::LBrace {
            g_compound(s, it.at, it.names, g)
        } else {
            g_expression(s, skip_if(s, it.at, TokenType::KwDo), it.names, g)
        };
        Parsed {
            tree: ExprTree::ForLoop {
                loc: loc_at(s, q),
                variable: var,
                iterable: Box::new(it.tree),
                body: Box::new(b.tree),
            },
            at: b.at,
            names: b.names,
        }
    }
}

/// A `while` after the keyword: condition and body.
pub open spec fn g_while(s: Seq<u8>, q: int, ns: Seq<Seq<char>>, f: nat) -> Parsed<ExprTree>
    decreases f, 0nat,
{
    if f == 0 {
        stuck(q, ns)
    } else {
        let g = (f - 1) as nat;
        let c = g_expression(s, q, ns, g);
        let b = if kind_at(s, c.at) == TokenType::LBrace {
            g_compound(s, c.at, c.names, g)
        } else {
            g_expression(s, skip_if(s, c.at, TokenType::KwDo), c.names, g)
        };
        Parsed {
            tree: ExprTree::WhileLoop { loc: loc_at(s, q), condition: Box::new(c.tree), body: Box::new(b.tree) },
            at: b.at,
            names: b.names,
        }
    }
}

/// A `repeat` after the keyword: count and block.
pub open spec fn g_repeat(s: Seq<u8>, q: int, ns: Seq<Seq<char>>, f: nat) -> Parsed<ExprTree>
    decreases f, 0nat,
{
    if f == 0 {
        stuck(q, ns)
    } else {
        let g = (f - 1) as nat;
        let c = g_expression(s, q, ns, g);
        let b = g_compound(s, c.at, c.names, g);
        Parsed {
            tree: ExprTree::Repeat { loc: loc_at(s, q), count: Box::new(c.tree), body: Box::new(b.tree) },
            at: b.at,
            names: b.names,
        }
    }
}

/// A `with` after the keyword: controller, `do`, block.
pub open spec fn g_with(s: Seq<u8>, q: int, ns: Seq<Seq<char>>, f: nat) -> Parsed<ExprTree>
    decreases f, 0nat,
{
    if f == 0 {
        stuck(q, ns)
    } else {
        let g = (f - 1) as nat;
        let c = g_expression(s, q, ns, g);
        let b = g_compound(s, skip_if(s, c.at, TokenType::KwDo), c.names, g);
        Parsed {
            tree: ExprTree::With { loc: loc_at(s, q), controller: Box::new(c.tree), body: Box::new(b.tree) },
            at: b.at,
            names: b.names,
        }
    }
}

/// A lambda after the keyword (at `loc`): parameters, annotation, body.
pub open spec fn g_lambda(s: Seq<u8>, q: int, ns: Seq<Seq<char>>, loc: Location, f: nat) -> Parsed<ExprTree>
    decreases f, 0nat,
{
    if f == 0 {
        stuck(q, ns)
    } else {
        let g = (f - 1) as nat;
        let ps = g_lambda_params(s, q, ns, g);
        let ann = annotation_of(kind_at(s, ps.at));
        let q1 = if ann != Annotation::NoAnnotation {
            next(s, ps.at)
        } else {
            ps.at
        };
        let t = kind_at(s, q1);
        let q2 = next(s, q1);
        let b = if t == TokenType::Dot && kind_at(s, q2) == TokenType::LBrace {
            g_compound(s, q2, ps.names, g)
        } else if t == TokenType::Dot || t == TokenType::FatArrow {
            g_expression(s, q2, ps.names, g)
        } else if t == TokenType::LBrace {
            g_compound(s, q1, ps.names, g)
        } else {
            g_expression(s, q1, ps.names, g)
        };
        Parsed {
            tree: ExprTree::Lambda { loc, params: ps.tree, body: Box::new(b.tree), annotation: ann },
            at: b.at,
            names: b.names,
        }
    }
}

/// Lambda parameters: one bare name, or `( ... )`.
pub open spec fn g_lambda_params(s: Seq<u8>, q: int, ns: Seq<Seq<char>>, f: nat) -> Parsed<Seq<ExprTree>>
    decreases f, 0nat,
{
    if f == 0 {
        stuck(q, ns)
    } else if kind_at(s, q) != TokenType::LParen {
        if kind_at(s, q) == TokenType::Identifier {
            Parsed {
                tree: seq![ident(loc_at(s, q), intern_id(ns, text_at(s, q)))],
                at: next(s, q),
                names: intern_names(ns, text_at(s, q)),
            }
        } else {
            Parsed { tree: Seq::empty(), at: q, names: ns }
        }
    } else {
        let q1 = next(s, q);
        let l = if kind_at(s, q1) == TokenType::RParen {
            Parsed { tree: Seq::empty(), at: q1, names: ns }
        } else {
            let p = g_lambda_param(s, q1, ns, (f - 1) as nat);
            g_more_lambda_params(s, p.at, p.names, seq![p.tree], (f - 1) as nat)
        };
        Parsed { tree: l.tree, at: skip_if(s, l.at, TokenType::RParen), names: l.names }
    }
}

pub open spec fn g_more_lambda_params(
    s: Seq<u8>,
    q: int,
    ns: Seq<Seq<char>>,
    acc: Seq<ExprTree>,
    f: nat,
) -> Parsed<Seq<ExprTree>>
    decreases f, meas(s, q),
{
    if kind_at(s, q) != TokenType::Comma {
        Parsed { tree: acc, at: q, names: ns }
    } else if kind_at(s, next(s, q)) == TokenType::RParen {
        Parsed { tree: acc, at: next(s, q), names: ns }
    } else if f == 0 {
        stuck(q, ns)
    } else {
        let p = g_lambda_param(s, next(s, q), ns, (f - 1) as nat);
        if less(s, p.at, q) {
            g_more_lambda_params(s, p.at, p.names, acc.push(p.tree), f)
        } else {
            stuck(q, ns)
        }
    }
}

/// A lambda parameter `[const] name [: type]`; the type is read and dropped.
pub open spec fn g_lambda_param(s: Seq<u8>, q: int, ns: Seq<Seq<char>>, f: nat) -> Parsed<ExprTree>
    decreases f, 0nat,
{
    if f == 0 {
        stuck(q, ns)
    } else {
        let q1 = skip_if(s, q, TokenType::KwConst);
        let name = intern_id(ns, text_at(s, q1));
        let ns1 = intern_names(ns, text_at(s, q1));
        let q2 = next(s, q1);
        let tree = ident(loc_at(s, q1), name);
        if kind_at(s, q2) == TokenType::Colon {
            let t = g_expression(s, next(s, q2), ns1, (f - 1) as nat);
            Parsed { tree, at: t.at, names: t.names }
        } else {
            Parsed { tree, at: q2, names: ns1 }
        }
    }
}

/// The right part of an infix expression: `left` and the operator `op` at
/// `loc` have been read, `q` is just after the operator.
pub open spec fn g_infix(
    s: Seq<u8>,
    q: int,
    ns: Seq<Seq<char>>,
    left: ExprTree,
    op: TokenType,
    loc: Location,
    f: nat,
) -> Parsed<ExprTree>
    decreases f, 0nat,
{
    if f == 0 {
        stuck(q, ns)
    } else {
        let g = (f - 1) as nat;
        let l = Box::new(left);
        if op == TokenType::Colon || op == TokenType::KwAs || op == TokenType::KwCoerce || op
            == TokenType::KwPun {
            let t = g_expression(s, q, ns, g);
            let kind = if op == TokenType::Colon {
                TypeAnnotationKind::Colon
            } else if op == TokenType::KwAs {
                TypeAnnotationKind::As
            } else if op == TokenType::KwCoerce {
                TypeAnnotationKind::Coerce
            } else {
                TypeAnnotationKind::Pun
            };
            Parsed { tree: ExprTree::TypeAnnotation { loc, expr: l, ty: Box::new(t.tree), kind }, at: t.at, names: t.names }
        } else if op == TokenType::Arrow {
            let r = g_pep(s, q, ns, spec_lbp(op), g);
            Parsed {
                tree: ExprTree::Type {
                    loc: default_loc(),
                    kind: KindTree::Product {
                        params: Seq::empty(),
                        domain: l,
                        codomain: Box::new(r.tree),
                        annotation: Annotation::NoAnnotation,
                    },
                },
                at: r.at,
                names: r.names,
            }
        } else if op == TokenType::Question {
            let t = g_expression(s, q, ns, g);
            let e = g_expression(s, skip_if(s, t.at, TokenType::KwElse), t.names, g);
            Parsed {
                tree: ExprTree::IfThenElse {
                    loc,
                    condition: l,
                    then_branch: Box::new(t.tree),
                    else_branch: Some(Box::new(e.tree)),
                },
                at: e.at,
                names: e.names,
            }
        } else if op == TokenType::LParen {
            let a = g_call_args(s, q, ns, g);
            Parsed {
                tree: ExprTree::Call { loc, function: l, arguments: a.tree, callee: None },
                at: skip_if(s, a.at, TokenType::RParen),
                names: a.names,
            }
        } else if op == TokenType::LBracket {
            let i = g_expression(s, q, ns, g);
            Parsed {
                tree: ExprTree::Index { loc, expr: l, index: Box::new(i.tree) },
                at: skip_if(s, i.at, TokenType::RBracket),
                names: i.names,
            }
        } else if op == TokenType::Dot {
            Parsed {
                tree: ExprTree::Field { loc, expr: l, field: intern_id(ns, text_at(s, q)) },
                at: next(s, q),
                names: intern_names(ns, text_at(s, q)),
            }
        } else if op == TokenType::Assign || op == TokenType::LeftArrow || op == TokenType::PlusAssign
            || op == TokenType::MinusAssign || op == TokenType::MulAssign || op == TokenType::DivAssign
            || op == TokenType::ModAssign {
            let v = g_pep(s, q, ns, precedence::ASSIGN, g);
            let tree = match left {
                ExprTree::Identifier { name, .. } => if op == TokenType::Assign {
                    ExprTree::Let {
                        loc,
                        name,
                        type_ann: None,
                        value: Box::new(v.tree),
                        body: Box::new(ident(default_loc(), name)),
                    }
                } else {
                    ExprTree::Assign { loc, target: l, value: Box::new(v.tree) }
                },
                _ => ExprTree::Assign { loc, target: l, value: Box::new(v.tree) },
            };
            Parsed { tree, at: v.at, names: v.names }
        } else {
            let r = g_pep(s, q, ns, (spec_lbp(op) + 1) as u8, g);
            Parsed { tree: ExprTree::Binary { loc, op, left: l, right: Box::new(r.tree) }, at: r.at, names: r.names }
        }
    }
}

/// More call arguments: while a comma follows, the next argument (of
/// assignment strength), unless `)` comes right after the comma.
pub open spec fn g_more_args(
    s: Seq<u8>,
    q: int,
    ns: Seq<Seq<char>>,
    acc: Seq<ExprTree>,
    f: nat,
) -> Parsed<Seq<ExprTree>>
    decreases f, meas(s, q),
{
    if kind_at(s, q) != TokenType::Comma {
        Parsed { tree: acc, at: q, names: ns }
    } else if kind_at(s, next(s, q)) == TokenType::RParen {
        Parsed { tree: acc, at: next(s, q), names: ns }
    } else if f == 0 {
        stuck(q, ns)
    } else {
        let x = g_pep(s, next(s, q), ns, precedence::ASSIGN, (f - 1) as nat);
        if less(s, x.at, q) {
            g_more_args(s, x.at, x.names, acc.push(x.tree), f)
        } else {
            stuck(q, ns)
        }
    }
}

/// An expression whose operators bind at least `min_bp`: a primary
/// expression, then infix operators while they bind that tightly.
pub open spec fn g_pep(s: Seq<u8>, q: int, ns: Seq<Seq<char>>, min_bp: u8, f: nat) -> Parsed<ExprTree>
    decreases f, 0nat,
{
    if f == 0 {
        stuck(q, ns)
    } else {
        let p = g_primary(s, q, ns, (f - 1) as nat);
        g_led(s, p.at, p.names, p.tree, min_bp, (f - 1) as nat)
    }
}

/// The infix operators after `left`, while they bind at least `min_bp`;
/// each takes `left` as its left operand.
pub open spec fn g_led(
    s: Seq<u8>,
    q: int,
    ns: Seq<Seq<char>>,
    left: ExprTree,
    min_bp: u8,
    f: nat,
) -> Parsed<ExprTree>
    decreases f, meas(s, q),
{
    let op = kind_at(s, q);
    if spec_lbp(op) < min_bp || spec_lbp(op) == 0 {
        Parsed { tree: left, at: q, names: ns }
    } else if f == 0 {
        stuck(q, ns)
    } else {
        let r = g_infix(s, next(s, q), ns, left, op, loc_at(s, q), (f - 1) as nat);
        if less(s, r.at, q) {
            g_led(s, r.at, r.names, r.tree, min_bp, f)
        } else {
            stuck(q, ns)
        }
    }
}

/// A full expression.
pub open spec fn g_expression(s: Seq<u8>, q: int, ns: Seq<Seq<char>>, f: nat) -> Parsed<ExprTree>
    decreases f, 0nat,
{
    if f == 0 {
        stuck(q, ns)
    } else {
        g_pep(s, q, ns, 0, (f - 1) as nat)
    }
}

/// The top-level declarations up to the end of the input: stray semicolons
/// are skipped, and so is a semicolon or a closing brace after a declaration.
pub open spec fn g_program(
    s: Seq<u8>,
    q: int,
    ns: Seq<Seq<char>>,
    acc: Seq<ExprTree>,
    f: nat,
) -> Parsed<Seq<ExprTree>>
    decreases f, meas(s, q),
{
    let t = kind_at(s, q);
    if t == TokenType::Eof {
        Parsed { tree: acc, at: q, names: ns }
    } else if t == TokenType::Semicolon {
        if less(s, next(s, q), q) {
            g_program(s, next(s, q), ns, acc, f)
        } else {
            stuck(q, ns)
        }
    } else if f == 0 {
        stuck(q, ns)
    } else {
        let st = g_statement(s, q, ns, (f - 1) as nat);
        let q3 = skip_if(s, skip_if(s, st.at, TokenType::Semicolon), TokenType::RBrace);
        if less(s, q3, q) {
            g_program(s, q3, st.names, acc.push(st.tree), f)
        } else {
            stuck(q, ns)
        }
    }
}

/// The program that parsing the source `s` yields, with `ns` interned before.
pub open spec fn parse_source(s: Seq<u8>, ns: Seq<Seq<char>>) -> Parsed<Seq<ExprTree>> {
    g_program(s, 0, ns, Seq::empty(), fuel_for(s))
}

/// Lexing is a function of the position: a step from `q` gives the token
/// (by kind, text and location) and the position that `step` names.
pub proof fn lemma_step(s: Seq<u8>, q: int, p: int, t: Token)
    requires
        lex_step(s, q, p, t),
    ensures
        next(s, q) == p,
        kind_at(s, q) == t.ty,
        text_at(s, q) == t.text@,
        loc_at(s, q) == token_loc(t),
{
    let w = step(s, q);
    assert(lex_step(s, q, (t, p).1, (t, p).0));
    lemma_lex_step_deterministic(s, q, p, t, w.1, w.0);
}

} // verus!
