//! Parser for the Silq programming language.
//!
//! A Pratt-style precedence-climbing parser: it pulls tokens from a `Lexer`
//! and builds `Expression` trees, interning names as it goes.
//!
//! Every parsing method keeps the parser well formed and never lets the
//! measure (`Parser::measure`) grow; a method that starts on a token other
//! than end-of-file consumes input.  This is what makes the mutual recursion
//! of the parsing methods terminate.

use vstd::prelude::*;
use crate::ast::{
    lemma_interned_is_function, Annotation, CaptureAnnotation, Declaration, Expression, Id,
    Interner, LiteralValue, TypeAnnotationKind, TypeKind,
};
use crate::grammar::{
    g_body, g_bracket, g_call_args, g_compound, g_dat, g_expression, g_fields, g_for,
    g_function_def, g_if, g_infix, g_keyword_call, g_lambda, g_lambda_param, g_lambda_params,
    g_led, g_let, g_more_args, g_more_exprs, g_more_lambda_params, g_more_params,
    g_more_type_params, g_paren, g_parameter, g_pep, g_primary, g_program, g_repeat,
    g_statement, g_statements, g_type_params, g_unary, g_while, g_with, intern_id, intern_names,
    default_loc, ident, kind_at, lemma_step, less, loc_at, meas, need, next, skip_if, text_at, unit_tree, Parsed,
};
use crate::syntax::{
    decl_tree, decls_tree, expr_tree, exprs_tree, kind_tree, opt_expr_tree, lemma_decls_tree_push, lemma_decls_tree_single,
    lemma_exprs_tree_push, lemma_exprs_tree_single, lemma_tree_basics, lemma_trees_empty, DeclTree,
    ExprTree, KindTree,
};
use crate::bignum::{parse_bytes, spec_parse_int, BigNum};
use crate::errors::Location;
use crate::lexer::{lemma_only_semicolons_step, lex_step, only_semicolons, next_token_post, Lexer};
use crate::text::push_char;
use crate::token::{get_lbp, lemma_lbp_range, precedence, spec_lbp, spec_token_type_str, Token, TokenType};
use vstd::string::{StrSliceExecFns, StringExecFns};
use vstd::slice::slice_subrange;
use vstd::utf8::encode_utf8;

verus! {

/// A diagnostic recorded by the parser: the line of the offending token and the message.
pub struct ParseDiagnostic {
    pub line: u32,
    pub message: String,
}

/// The message of a failed `expect`.
pub open spec fn expected_message(want: TokenType, found: TokenType) -> Seq<char> {
    "expected "@ + spec_token_type_str(want) + ", found "@ + spec_token_type_str(found)
}

/// `longer` starts with `shorter`.
pub open spec fn seq_extends<A>(longer: Seq<A>, shorter: Seq<A>) -> bool {
    &&& shorter.len() <= longer.len()
    &&& forall|i: int| 0 <= i < shorter.len() ==> #[trigger] longer[i] == shorter[i]
}

/// The location of a token.
pub open spec fn token_loc(t: Token) -> Location {
    Location { line: t.line, col: t.col, offset: t.offset }
}

/// `id` is the id of the name `s` in the interned names.
pub open spec fn names_id(names: Seq<Seq<char>>, id: Id, s: Seq<char>) -> bool {
    id.0 < names.len() && names[id.0 as int] == s
}

/// The message for a token no expression can start with.
pub open spec fn unexpected_message(t: TokenType) -> Seq<char> {
    "unexpected token: "@ + spec_token_type_str(t)
}

/// The function annotation a keyword token stands for.
pub open spec fn annotation_of(t: TokenType) -> Annotation {
    if t == TokenType::KwQfree {
        Annotation::Qfree
    } else if t == TokenType::KwMfree {
        Annotation::Mfree
    } else if t == TokenType::KwLifted {
        Annotation::Lifted
    } else if t == TokenType::KwWild {
        Annotation::Wild
    } else {
        Annotation::NoAnnotation
    }
}

/// The parameter capture annotation a leading keyword token stands for.
pub open spec fn capture_of(t: TokenType) -> CaptureAnnotation {
    if t == TokenType::KwConst {
        CaptureAnnotation::Const
    } else if t == TokenType::KwMoved {
        CaptureAnnotation::Moved
    } else {
        CaptureAnnotation::NoCapture
    }
}

/// Tokens at which error recovery stops: the starts of statements.
pub open spec fn is_sync_keyword(t: TokenType) -> bool {
    t == TokenType::KwDef || t == TokenType::KwIf || t == TokenType::KwFor || t == TokenType::KwWhile
        || t == TokenType::KwReturn || t == TokenType::KwImport || t == TokenType::KwDat || t
        == TokenType::KwLet || t == TokenType::KwRepeat || t == TokenType::KwWith
}

/// Tokens no expression can start with.
pub open spec fn starts_no_expression(t: TokenType) -> bool {
    !(t == TokenType::Identifier || t == TokenType::KwTrue || t == TokenType::KwFalse || t
        == TokenType::IntLit || t == TokenType::FloatLit || t == TokenType::RationalLit || t
        == TokenType::StringLit || t == TokenType::CharLit || t == TokenType::Underscore || t
        == TokenType::KwLet || t == TokenType::KwLambda || t == TokenType::KwTypeof || t
        == TokenType::KwIf || t == TokenType::KwFor || t == TokenType::KwWhile || t
        == TokenType::KwRepeat || t == TokenType::KwWith || t == TokenType::KwReturn || t
        == TokenType::KwAssert || t == TokenType::KwForget || t == TokenType::LParen || t
        == TokenType::LBrace || t == TokenType::LBracket || t == TokenType::Minus || t
        == TokenType::Plus || t == TokenType::Not || t == TokenType::Tilde || t
        == TokenType::KwConst || t == TokenType::KwMoved)
}

/// The unit literal at the default location (the body of an abstract function, the
/// continuation of a `let`).
pub open spec fn unit_literal() -> Expression {
    Expression::Literal { loc: Location::spec_default(), value: LiteralValue::Unit, ty: None }
}

/// Is `t` one of the assignment tokens that build an `Assign` node?
pub open spec fn is_update_op(t: TokenType) -> bool {
    t == TokenType::LeftArrow || t == TokenType::PlusAssign || t == TokenType::MinusAssign || t
        == TokenType::MulAssign || t == TokenType::DivAssign || t == TokenType::ModAssign
}

/// The type-annotation kind an infix keyword builds.
pub open spec fn annotation_kind_of(t: TokenType) -> Option<TypeAnnotationKind> {
    if t == TokenType::Colon {
        Some(TypeAnnotationKind::Colon)
    } else if t == TokenType::KwAs {
        Some(TypeAnnotationKind::As)
    } else if t == TokenType::KwCoerce {
        Some(TypeAnnotationKind::Coerce)
    } else if t == TokenType::KwPun {
        Some(TypeAnnotationKind::Pun)
    } else {
        None
    }
}

/// The token `next` that follows the right operand of the infix operator
/// `op`: a type annotation takes a whole expression, an assignment an
/// expression of assignment strength, an arrow every operator that binds at
/// least as tightly as itself, and a binary operator every operator that
/// binds more tightly (so operators of equal strength group to the left).
pub open spec fn infix_stops_at(op: TokenType, next: TokenType) -> bool {
    if annotation_kind_of(op) is Some {
        spec_lbp(next) == 0
    } else if op == TokenType::Assign || is_update_op(op) {
        spec_lbp(next) < precedence::ASSIGN || spec_lbp(next) == 0
    } else if op == TokenType::Question || op == TokenType::LParen || op == TokenType::LBracket
        || op == TokenType::Dot {
        true
    } else if op == TokenType::Arrow {
        spec_lbp(next) < spec_lbp(op) || spec_lbp(next) == 0
    } else {
        spec_lbp(next) <= spec_lbp(op) || spec_lbp(next) == 0
    }
}

/// The Parser converts a token stream into an AST.
pub struct Parser<'a> {
    lexer: &'a mut Lexer,
    interner: &'a mut Interner,
    /// Current token.
    current: Token,
    /// Previous token.
    previous: Token,
    /// Whether we're in a panic mode (recovering from errors).
    panic_mode: bool,
    /// Errors reported so far.
    diagnostics: Vec<ParseDiagnostic>,
    /// The source position the current token was lexed from.
    from: Ghost<int>,
}

impl<'a> Parser<'a> {
    /// The token under the cursor.
    pub closed spec fn cur(&self) -> Token {
        self.current
    }

    /// The token consumed last.
    pub closed spec fn prev(&self) -> Token {
        self.previous
    }

    pub closed spec fn in_panic(&self) -> bool {
        self.panic_mode
    }

    /// The source position the current token was lexed from.
    pub closed spec fn from(&self) -> int {
        self.from@
    }

    /// `p` ends where `self` stands, with `self`'s names, and its tree is `tree`.
    pub open spec fn yields<T>(&self, p: Parsed<T>, tree: T) -> bool {
        &&& p.tree == tree
        &&& p.at == self.from()
        &&& p.names == self.names()
    }

    /// The lexer state.
    pub closed spec fn lex(&self) -> Lexer {
        *self.lexer
    }

    /// The interned names.
    pub closed spec fn names(&self) -> Seq<Seq<char>> {
        self.interner.names()
    }

    /// The diagnostics reported so far, as (line, message) pairs.
    pub closed spec fn diags(&self) -> Seq<(u32, Seq<char>)> {
        self.diagnostics@.map_values(|d: ParseDiagnostic| (d.line, d.message@))
    }

    /// Well-formedness: the lexer and the interner are well formed, the lexer
    /// holds no token back, and at end-of-file all input is consumed.
    pub closed spec fn wf(&self) -> bool {
        &&& self.lexer.wf()
        &&& self.interner.wf()
        &&& self.lexer.pending() is None
        &&& self.current.ty == TokenType::Eof ==> self.lexer.cur() == self.lexer.src().len()
        &&& lex_step(self.lexer.src(), self.from@, self.lexer.cur() as int, self.current)
    }

    /// Input still to be parsed: the lexer's remaining input, plus one while
    /// the current token is not end-of-file.
    pub closed spec fn measure(&self) -> nat {
        self.lexer.remaining() + if self.current.ty != TokenType::Eof {
            1nat
        } else {
            0nat
        }
    }

    /// What every parsing step keeps: `self` is a well-formed parser reached
    /// from `p0` over the same source, with no less input consumed (and still
    /// at end-of-file if `p0` was), names only added to the interner and
    /// diagnostics only appended.
    pub open spec fn follows(&self, p0: &Self) -> bool {
        &&& self.wf()
        &&& self.lex().src() == p0.lex().src()
        &&& self.measure() <= p0.measure()
        &&& p0.cur().ty == TokenType::Eof ==> self.cur().ty == TokenType::Eof
        &&& seq_extends(self.names(), p0.names())
        &&& seq_extends(self.diags(), p0.diags())
    }

    /// From the current token on, the input holds nothing but semicolons.
    pub open spec fn rest_only_semicolons(&self) -> bool {
        self.cur().ty == TokenType::Eof || (self.cur().ty == TokenType::Semicolon
            && only_semicolons(self.lex().src(), self.lex().cur() as int))
    }

    /// `self` follows `p0` and, when `p0` was not at end-of-file, consumed input.
    pub open spec fn progressed(&self, p0: &Self) -> bool {
        &&& self.follows(p0)
        &&& p0.cur().ty != TokenType::Eof ==> self.measure() < p0.measure()
    }

    /// `self` is `p0` moved by one token.
    pub open spec fn advanced(&self, p0: &Self) -> bool {
        &&& self.wf()
        &&& next_token_post(p0.lex(), self.lex(), self.cur())
        &&& self.prev() == p0.cur()
        &&& self.from() == p0.lex().cur()
        &&& self.names() == p0.names()
        &&& self.diags() == p0.diags()
        &&& self.in_panic() == p0.in_panic()
    }

    /// `self` is `p0` with nothing changed.
    pub open spec fn same(&self, p0: &Self) -> bool {
        &&& self.lex() == p0.lex()
        &&& self.cur() == p0.cur()
        &&& self.prev() == p0.prev()
        &&& self.from() == p0.from()
        &&& self.names() == p0.names()
        &&& self.diags() == p0.diags()
        &&& self.in_panic() == p0.in_panic()
    }

    proof fn lemma_advanced_follows(&self, p0: &Self)
        requires
            p0.wf(),
            self.advanced(p0),
        ensures
            self.progressed(p0),
    {
    }

    /// The token under the cursor is the one the grammar reads at `from`,
    /// and the measure is the grammar's.
    pub proof fn lemma_here(&self)
        requires
            self.wf(),
        ensures
            next(self.lex().src(), self.from()) == self.lex().cur(),
            kind_at(self.lex().src(), self.from()) == self.cur().ty,
            text_at(self.lex().src(), self.from()) == self.cur().text@,
            loc_at(self.lex().src(), self.from()) == token_loc(self.cur()),
            meas(self.lex().src(), self.from()) == self.measure(),
    {
        lemma_step(self.lexer.src(), self.from@, self.lexer.cur() as int, self.current);
        self.lexer.lemma_remaining();
    }

    /// Create a new parser wrapping a lexer.
    pub fn new(lexer: &'a mut Lexer, interner: &'a mut Interner) -> (r: Self)
        requires
            old(lexer).wf(),
        ensures
            r.wf(),
            next_token_post(*old(lexer), r.lex(), r.cur()),
            r.prev().ty == TokenType::Eof,
            r.names() == old(interner).names(),
            r.diags().len() == 0,
            !r.in_panic(),
            old(lexer).pending() is None ==> r.from() == old(lexer).cur(),
    {
        proof {
            use_type_invariant(&*interner);
        }
        let ghost start = match old(lexer).pending() {
            Some(t) => choose|p0: int| lex_step(old(lexer).src(), p0, old(lexer).cur() as int, t),
            None => old(lexer).cur() as int,
        };
        let current = lexer.next_token();
        let previous = Token::new(TokenType::Eof, String::new(), 0, 0, 0);
        let p = Parser {
            lexer,
            interner,
            current,
            previous,
            panic_mode: false,
            diagnostics: Vec::new(),
            from: Ghost(start),
        };
        assert(p.diags() =~= Seq::<(u32, Seq<char>)>::empty());
        p
    }

    /// The diagnostics reported so far.
    pub fn diagnostics(&self) -> (r: &Vec<ParseDiagnostic>)
        ensures
            r@.map_values(|d: ParseDiagnostic| (d.line, d.message@)) == self.diags(),
    {
        &self.diagnostics
    }

    // ---- Token management ----

    /// Advance to the next token.
    fn advance(&mut self)
        requires
            old(self).wf(),
        ensures
            final(self).advanced(old(self)),
            final(self).progressed(old(self)),
    {
        self.previous = self.current.clone();
        let ghost at = self.lexer.cur() as int;
        self.current = self.lexer.next_token();
        self.from = Ghost(at);
        proof {
            self.lemma_advanced_follows(old(self));
        }
    }

    /// Check if the current token matches the expected type.
    fn check(&self, ty: TokenType) -> (r: bool)
        ensures
            r == (self.cur().ty == ty),
    {
        self.current.ty == ty
    }

    /// Consume the current token if it matches the expected type.
    fn matches(&mut self, ty: TokenType) -> (r: bool)
        requires
            old(self).wf(),
        ensures
            r == (old(self).cur().ty == ty),
            r ==> final(self).advanced(old(self)),
            r ==> final(self).progressed(old(self)),
            !r ==> final(self).same(old(self)),
            final(self).follows(old(self)),
    {
        if self.check(ty) {
            self.advance();
            true
        } else {
            false
        }
    }

    /// Expect the current token to be of the given type, advancing.
    /// If it's not, report an error and enter panic mode.
    fn expect(&mut self, ty: TokenType) -> (r: Result<(), String>)
        requires
            old(self).wf(),
        ensures
            r is Ok <==> old(self).cur().ty == ty,
            r is Ok ==> final(self).advanced(old(self)),
            r is Ok ==> final(self).progressed(old(self)),
            r matches Err(msg) ==> {
                &&& msg@ == expected_message(ty, old(self).cur().ty)
                &&& final(self).lex() == old(self).lex()
                &&& final(self).cur() == old(self).cur()
                &&& final(self).prev() == old(self).prev()
                &&& final(self).from() == old(self).from()
                &&& final(self).names() == old(self).names()
                &&& final(self).diags() == old(self).diags().push((old(self).cur().line, msg@))
                &&& final(self).in_panic()
            },
            final(self).follows(old(self)),
    {
        if self.check(ty) {
            self.advance();
            Ok(())
        } else {
            let mut msg = String::new();
            msg.append("expected ");
            msg.append(ty.as_static_str());
            msg.append(", found ");
            msg.append(self.current.ty.as_static_str());
            proof {
                reveal_strlit("expected ");
                reveal_strlit(", found ");
                assert(msg@ =~= expected_message(ty, old(self).cur().ty));
            }
            let m2 = msg.clone();
            self.error(m2);
            Err(msg)
        }
    }

    /// Consume a semicolon if there is one (missing semicolons are no error).
    fn expect_semicolon(&mut self)
        requires
            old(self).wf(),
        ensures
            old(self).cur().ty == TokenType::Semicolon ==> final(self).advanced(old(self)),
            old(self).cur().ty != TokenType::Semicolon ==> final(self).same(old(self)),
            final(self).follows(old(self)),
    {
        if self.check(TokenType::Semicolon) {
            self.advance();
        }
    }

    /// Report an error at the current token.
    fn error(&mut self, msg: String)
        requires
            old(self).wf(),
        ensures
            final(self).lex() == old(self).lex(),
            final(self).cur() == old(self).cur(),
            final(self).prev() == old(self).prev(),
            final(self).from() == old(self).from(),
            final(self).names() == old(self).names(),
            final(self).diags() == old(self).diags().push((old(self).cur().line, msg@)),
            final(self).in_panic(),
            final(self).follows(old(self)),
    {
        let line = self.current.line;
        self.diagnostics.push(ParseDiagnostic { line, message: msg });
        self.panic_mode = true;
        proof {
            assert(self.diags() =~= old(self).diags().push((old(self).cur().line, msg@)));
        }
    }

    /// Get the location of the previous token.
    fn prev_location(&self) -> (r: Location)
        ensures
            r == token_loc(self.prev()),
    {
        Location { line: self.previous.line, col: self.previous.col, offset: self.previous.offset }
    }

    /// Get the location of the current token.
    fn cur_location(&self) -> (r: Location)
        ensures
            r == token_loc(self.cur()),
    {
        Location { line: self.current.line, col: self.current.col, offset: self.current.offset }
    }
}

impl<'a> Parser<'a> {
    /// Interns the text of the current token.
    fn intern_current(&mut self) -> (r: Id)
        requires
            old(self).wf(),
        ensures
            final(self).follows(old(self)),
            final(self).lex() == old(self).lex(),
            final(self).cur() == old(self).cur(),
            final(self).prev() == old(self).prev(),
            final(self).from() == old(self).from(),
            final(self).diags() == old(self).diags(),
            final(self).in_panic() == old(self).in_panic(),
            final(self).measure() == old(self).measure(),
            names_id(final(self).names(), r, old(self).cur().text@),
            r == intern_id(old(self).names(), old(self).cur().text@),
            final(self).names() == intern_names(old(self).names(), old(self).cur().text@),
    {
        let ghost i0 = *self.interner;
        let r = self.interner.intern(self.current.text.as_str());
        proof {
            use_type_invariant(&*self.interner);
            lemma_interned_is_function(i0, *self.interner, old(self).cur().text@, r);
        }
        r
    }

    /// Check if the current token matches any of the given types.
    fn check_any(&self, types: &[TokenType]) -> (r: bool)
        ensures
            r == types@.contains(self.cur().ty),
    {
        let mut i: usize = 0;
        while i < types.len()
            invariant
                i <= types@.len(),
                forall|j: int| 0 <= j < i ==> types@[j] != self.cur().ty,
            decreases types@.len() - i,
        {
            if types[i] == self.current.ty {
                return true;
            }
            i += 1;
        }
        false
    }

    // ---- Synchronization for error recovery ----

    /// Skip tokens up to a known recovery point: end of file, just after a
    /// semicolon, or the keyword that starts a statement.
    fn synchronize(&mut self)
        requires
            old(self).wf(),
        ensures
            final(self).follows(old(self)),
            !final(self).in_panic(),
            final(self).cur().ty == TokenType::Eof || final(self).prev().ty == TokenType::Semicolon
                || is_sync_keyword(final(self).cur().ty),
    {
        self.panic_mode = false;
        while !self.check(TokenType::Eof)
            invariant
                self.follows(old(self)),
                !self.in_panic(),
            decreases self.measure(),
        {
            // If we hit a known statement boundary, stop.
            if self.previous.ty == TokenType::Semicolon {
                return;
            }
            match self.current.ty {
                TokenType::KwDef | TokenType::KwIf | TokenType::KwFor | TokenType::KwWhile
                | TokenType::KwReturn | TokenType::KwImport | TokenType::KwDat | TokenType::KwLet
                | TokenType::KwRepeat | TokenType::KwWith => return,
                _ => {
                    self.advance();
                },
            }
        }
    }

    // ---- Primary expressions (nud - null denotation) ----

    /// Parse a primary expression (identifier, literal, parenthesized expr, etc.).
    #[verifier::rlimit(100)]
    #[verifier::spinoff_prover]
    fn primary(&mut self) -> (r: Expression)
        requires
            old(self).wf(),
        ensures
            forall|f: nat|
                f >= need(old(self).lex().src(), old(self).from(), 2) ==> final(self).yields(
                    #[trigger] g_primary(old(self).lex().src(), old(self).from(), old(self).names(), f),
                    expr_tree(r),
                ),
            final(self).progressed(old(self)),
            starts_no_expression(old(self).cur().ty) ==> final(self).diags() == old(self).diags().push(
                (old(self).cur().line, unexpected_message(old(self).cur().ty)),
            ),
        decreases old(self).measure(), 2nat,
    {
        let ghost p0 = *self;
        let ghost s = p0.lex().src();
        proof {
            p0.lemma_here();
        }
        let loc = self.cur_location();
        let t = self.current.ty;
        let r = match t {
            TokenType::Identifier => {
                let name = self.intern_current();
                self.advance();
                Expression::new_identifier(loc, name)
            },
            TokenType::KwTrue | TokenType::KwFalse => {
                self.advance();
                Expression::new_literal(loc, LiteralValue::Bool(t == TokenType::KwTrue))
            },
            TokenType::IntLit => {
                let text = self.current.text.clone();
                self.advance();
                // Parse the integer value
                let int_val = parse_int_literal(text.as_str());
                Expression::new_literal(loc, LiteralValue::Int(int_val))
            },
            TokenType::FloatLit => {
                let text = self.current.text.clone();
                self.advance();
                let spelled = remove_underscores(text.as_str());
                Expression::new_literal(loc, LiteralValue::Float(spelled))
            },
            TokenType::RationalLit => {
                let text = self.current.text.clone();
                self.advance();
                if let Some((num, den)) = parse_rational(text.as_str()) {
                    Expression::new_literal(loc, LiteralValue::Rational(num, den))
                } else {
                    let mut msg = String::new();
                    msg.append("invalid rational literal: ");
                    msg.append(text.as_str());
                    proof {
                        reveal_strlit("invalid rational literal: ");
                    }
                    let ghost m = msg@;
                    let e = Expression::new_error(loc, msg);
                    proof {
                        assert(m == "invalid rational literal: "@ + text@);
                        assert(expr_tree(e) == ExprTree::Error { loc, message: m });
                    }
                    e
                }
            },
            TokenType::StringLit => {
                let text = self.current.text.clone();
                self.advance();
                Expression::new_literal(loc, LiteralValue::String(text))
            },
            TokenType::CharLit => {
                let text = self.current.text.clone();
                self.advance();
                let ch = if text.as_str().unicode_len() > 0 {
                    text.as_str().get_char(0)
                } else {
                    '?'
                };
                Expression::new_literal(loc, LiteralValue::Char(ch))
            },
            TokenType::Underscore => {
                self.advance();
                Expression::Wildcard { loc }
            },
            TokenType::KwLet => {
                self.advance();
                let ghost pa = *self;
                proof {
                    self.lemma_here();
                    assert(meas(s, next(s, p0.from())) < meas(s, p0.from()));
                }
                let e = self.parse_let(None);
                proof {
                    assert forall|f: nat| f >= need(s, p0.from(), 2) implies self.yields(
                        g_primary(s, p0.from(), p0.names(), f),
                        expr_tree(e),
                    ) by {
                        let g = (f - 1) as nat;
                        assert(pa.from() == next(s, p0.from()) && pa.names() == p0.names());
                        assert(g >= need(s, pa.from(), 5));
                        assert(self.yields(g_let(s, pa.from(), pa.names(), None, g), expr_tree(e)));
                    }
                }
                e
            },
            TokenType::KwLambda => {
                self.advance();
                let ghost pa = *self;
                proof {
                    self.lemma_here();
                    assert(meas(s, next(s, p0.from())) < meas(s, p0.from()));
                }
                let e = self.parse_lambda(loc);
                proof {
                    assert forall|f: nat| f >= need(s, p0.from(), 2) implies self.yields(
                        g_primary(s, p0.from(), p0.names(), f),
                        expr_tree(e),
                    ) by {
                        let g = (f - 1) as nat;
                        assert(pa.from() == next(s, p0.from()) && pa.names() == p0.names());
                        assert(g >= need(s, pa.from(), 7));
                        assert(self.yields(g_lambda(s, pa.from(), pa.names(), loc, g), expr_tree(e)));
                    }
                }
                e
            },
            TokenType::KwTypeof | TokenType::KwAssert | TokenType::KwForget => {
                self.advance();
                let ghost pa = *self;
                proof {
                    self.lemma_here();
                    assert(meas(s, next(s, p0.from())) < meas(s, p0.from()));
                }
                let e = self.parse_keyword_call(t, loc);
                proof {
                    assert forall|f: nat| f >= need(s, p0.from(), 2) implies self.yields(
                        g_primary(s, p0.from(), p0.names(), f),
                        expr_tree(e),
                    ) by {
                        let g = (f - 1) as nat;
                        assert(pa.from() == next(s, p0.from()) && pa.names() == p0.names());
                        assert(g >= need(s, pa.from(), 5));
                        assert(self.yields(g_keyword_call(s, pa.from(), pa.names(), t, loc, g), expr_tree(e)));
                    }
                }
                e
            },
            TokenType::KwIf => {
                self.advance();
                let ghost pa = *self;
                proof {
                    self.lemma_here();
                    assert(meas(s, next(s, p0.from())) < meas(s, p0.from()));
                }
                let e = self.parse_if_expr();
                proof {
                    assert forall|f: nat| f >= need(s, p0.from(), 2) implies self.yields(
                        g_primary(s, p0.from(), p0.names(), f),
                        expr_tree(e),
                    ) by {
                        let g = (f - 1) as nat;
                        assert(pa.from() == next(s, p0.from()) && pa.names() == p0.names());
                        assert(g >= need(s, pa.from(), 5));
                        assert(self.yields(g_if(s, pa.from(), pa.names(), g), expr_tree(e)));
                    }
                }
                e
            },
            TokenType::KwFor => {
                self.advance();
                let ghost pa = *self;
                proof {
                    self.lemma_here();
                    assert(meas(s, next(s, p0.from())) < meas(s, p0.from()));
                }
                let e = self.parse_for_expr();
                proof {
                    assert forall|f: nat| f >= need(s, p0.from(), 2) implies self.yields(
                        g_primary(s, p0.from(), p0.names(), f),
                        expr_tree(e),
                    ) by {
                        let g = (f - 1) as nat;
                        assert(pa.from() == next(s, p0.from()) && pa.names() == p0.names());
                        assert(g >= need(s, pa.from(), 5));
                        assert(self.yields(g_for(s, pa.from(), pa.names(), g), expr_tree(e)));
                    }
                }
                e
            },
            TokenType::KwWhile => {
                self.advance();
                let ghost pa = *self;
                proof {
                    self.lemma_here();
                    assert(meas(s, next(s, p0.from())) < meas(s, p0.from()));
                }
                let e = self.parse_while_expr();
                proof {
                    assert forall|f: nat| f >= need(s, p0.from(), 2) implies self.yields(
                        g_primary(s, p0.from(), p0.names(), f),
                        expr_tree(e),
                    ) by {
                        let g = (f - 1) as nat;
                        assert(pa.from() == next(s, p0.from()) && pa.names() == p0.names());
                        assert(g >= need(s, pa.from(), 5));
                        assert(self.yields(g_while(s, pa.from(), pa.names(), g), expr_tree(e)));
                    }
                }
                e
            },
            TokenType::KwRepeat => {
                self.advance();
                let ghost pa = *self;
                proof {
                    self.lemma_here();
                    assert(meas(s, next(s, p0.from())) < meas(s, p0.from()));
                }
                let e = self.parse_repeat_expr();
                proof {
                    assert forall|f: nat| f >= need(s, p0.from(), 2) implies self.yields(
                        g_primary(s, p0.from(), p0.names(), f),
                        expr_tree(e),
                    ) by {
                        let g = (f - 1) as nat;
                        assert(pa.from() == next(s, p0.from()) && pa.names() == p0.names());
                        assert(g >= need(s, pa.from(), 5));
                        assert(self.yields(g_repeat(s, pa.from(), pa.names(), g), expr_tree(e)));
                    }
                }
                e
            },
            TokenType::KwWith => {
                self.advance();
                let ghost pa = *self;
                proof {
                    self.lemma_here();
                    assert(meas(s, next(s, p0.from())) < meas(s, p0.from()));
                }
                let e = self.parse_with_expr();
                proof {
                    assert forall|f: nat| f >= need(s, p0.from(), 2) implies self.yields(
                        g_primary(s, p0.from(), p0.names(), f),
                        expr_tree(e),
                    ) by {
                        let g = (f - 1) as nat;
                        assert(pa.from() == next(s, p0.from()) && pa.names() == p0.names());
                        assert(g >= need(s, pa.from(), 5));
                        assert(self.yields(g_with(s, pa.from(), pa.names(), g), expr_tree(e)));
                    }
                }
                e
            },
            TokenType::KwReturn => {
                self.advance();
                let ghost pa = *self;
                proof {
                    self.lemma_here();
                    assert(meas(s, next(s, p0.from())) < meas(s, p0.from()));
                    assert(pa.from() == next(s, p0.from()) && pa.names() == p0.names());
                }
                if self.check(TokenType::Semicolon) || self.check(TokenType::RBrace) {
                    let e = Expression::Return { loc, expr: None };
                    proof {
                        lemma_tree_basics();
                        assert(expr_tree(e) == ExprTree::Return { loc, expr: None });
                    assert forall|f: nat| f >= need(s, p0.from(), 2) implies self.yields(
                        g_primary(s, p0.from(), p0.names(), f),
                        expr_tree(e),
                    ) by {
                        assert(self.from() == pa.from());
                    }
                    }
                    e
                } else {
                    let expr = self.parse_expression();
                    let ghost te = expr_tree(expr);
                    let ghost ge = expr;
                    let e = Expression::Return { loc, expr: Some(Box::new(expr)) };
                    proof {
                        lemma_tree_basics();
                        assert(opt_expr_tree(Some(Box::new(ge))) == Some(Box::new(te)));
                        assert(expr_tree(e) == ExprTree::Return { loc, expr: Some(Box::new(te)) });
                    assert forall|f: nat| f >= need(s, p0.from(), 2) implies self.yields(
                        g_primary(s, p0.from(), p0.names(), f),
                        expr_tree(e),
                    ) by {
                        let g = (f - 1) as nat;
                        assert(g >= need(s, pa.from(), 4));
                        assert(self.yields(g_expression(s, pa.from(), pa.names(), g), te));
                    }
                    }
                    e
                }
            },
            TokenType::LParen => {
                self.advance();
                let ghost pa = *self;
                proof {
                    self.lemma_here();
                    assert(meas(s, next(s, p0.from())) < meas(s, p0.from()));
                }
                let e = self.parse_paren(loc);
                proof {
                    assert forall|f: nat| f >= need(s, p0.from(), 2) implies self.yields(
                        g_primary(s, p0.from(), p0.names(), f),
                        expr_tree(e),
                    ) by {
                        let g = (f - 1) as nat;
                        assert(pa.from() == next(s, p0.from()) && pa.names() == p0.names());
                        assert(g >= need(s, pa.from(), 5));
                        assert(self.yields(g_paren(s, pa.from(), pa.names(), loc, g), expr_tree(e)));
                    }
                }
                e
            },
            TokenType::LBrace => {
                let e = self.parse_compound();
                proof {
                    assert forall|f: nat| f >= need(s, p0.from(), 2) implies self.yields(
                        g_primary(s, p0.from(), p0.names(), f),
                        expr_tree(e),
                    ) by {
                        let g = (f - 1) as nat;
                        assert(g >= need(s, p0.from(), 1));
                        assert(self.yields(g_compound(s, p0.from(), p0.names(), g), expr_tree(e)));
                    }
                }
                e
            },
            TokenType::LBracket => {
                self.advance();
                let ghost pa = *self;
                proof {
                    self.lemma_here();
                    assert(meas(s, next(s, p0.from())) < meas(s, p0.from()));
                }
                let e = self.parse_bracket(loc);
                proof {
                    assert forall|f: nat| f >= need(s, p0.from(), 2) implies self.yields(
                        g_primary(s, p0.from(), p0.names(), f),
                        expr_tree(e),
                    ) by {
                        let g = (f - 1) as nat;
                        assert(pa.from() == next(s, p0.from()) && pa.names() == p0.names());
                        assert(g >= need(s, pa.from(), 5));
                        assert(self.yields(g_bracket(s, pa.from(), pa.names(), loc, g), expr_tree(e)));
                    }
                }
                e
            },
            // Unary operators
            TokenType::Minus | TokenType::Plus | TokenType::Not | TokenType::Tilde => {
                self.advance();
                let ghost pa = *self;
                proof {
                    self.lemma_here();
                    assert(meas(s, next(s, p0.from())) < meas(s, p0.from()));
                }
                let e = self.parse_unary(t, loc);
                proof {
                    assert forall|f: nat| f >= need(s, p0.from(), 2) implies self.yields(
                        g_primary(s, p0.from(), p0.names(), f),
                        expr_tree(e),
                    ) by {
                        let g = (f - 1) as nat;
                        assert(pa.from() == next(s, p0.from()) && pa.names() == p0.names());
                        assert(g >= need(s, pa.from(), 5));
                        assert(self.yields(g_unary(s, pa.from(), pa.names(), t, loc, g), expr_tree(e)));
                    }
                }
                e
            },
            TokenType::KwConst => {
                self.advance();
                let ghost pa = *self;
                proof {
                    self.lemma_here();
                    assert(meas(s, next(s, p0.from())) < meas(s, p0.from()));
                    assert(pa.from() == next(s, p0.from()) && pa.names() == p0.names());
                }
                let cls = self.parse_expression();
                let ghost tc = expr_tree(cls);
                let unit = Expression::unit_type();
                let ghost gu = unit;
                // Wrap as const annotation
                let e = Expression::TypeAnnotation {
                    loc,
                    expr: Box::new(cls),
                    ty: Box::new(unit),
                    kind: TypeAnnotationKind::Pun,
                };
                proof {
                    lemma_tree_basics();
                    assert(expr_tree(gu) == ExprTree::Type { loc: default_loc(), kind: KindTree::Unit });
                    assert(expr_tree(e) == ExprTree::TypeAnnotation {
                        loc,
                        expr: Box::new(tc),
                        ty: Box::new(expr_tree(gu)),
                        kind: TypeAnnotationKind::Pun,
                    });
                    assert forall|f: nat| f >= need(s, p0.from(), 2) implies self.yields(
                        g_primary(s, p0.from(), p0.names(), f),
                        expr_tree(e),
                    ) by {
                        let g = (f - 1) as nat;
                        assert(g >= need(s, pa.from(), 4));
                        assert(self.yields(g_expression(s, pa.from(), pa.names(), g), tc));
                    }
                }
                e
            },
            TokenType::KwMoved => {
                self.advance();
                let ghost pa = *self;
                proof {
                    self.lemma_here();
                    assert(meas(s, next(s, p0.from())) < meas(s, p0.from()));
                    assert(pa.from() == next(s, p0.from()) && pa.names() == p0.names());
                }
                let e = self.parse_expression();
                proof {
                    assert forall|f: nat| f >= need(s, p0.from(), 2) implies self.yields(
                        g_primary(s, p0.from(), p0.names(), f),
                        expr_tree(e),
                    ) by {
                        let g = (f - 1) as nat;
                        assert(g >= need(s, pa.from(), 4));
                        assert(self.yields(g_expression(s, pa.from(), pa.names(), g), expr_tree(e)));
                    }
                }
                e
            },
            _ => {
                let mut msg = String::new();
                msg.append("unexpected token: ");
                msg.append(self.current.ty.as_static_str());
                proof {
                    reveal_strlit("unexpected token: ");
                }
                self.error(msg);
                self.advance();
                let e = Expression::new_error(loc, "unexpected token".to_owned());
                proof {
                    reveal_strlit("unexpected token");
                    assert(expr_tree(e) == ExprTree::Error { loc, message: "unexpected token"@ });
                }
                e
            },
        };
        proof {
            self.lemma_here();
            assert forall|f: nat| f >= need(s, p0.from(), 2) implies self.yields(
                g_primary(s, p0.from(), p0.names(), f),
                expr_tree(r),
            ) by {
                lemma_tree_basics();
                let g = (f - 1) as nat;
                let q1 = next(s, p0.from());
                assert(g >= need(s, p0.from(), 1));
                assert(meas(s, q1) < meas(s, p0.from()) ==> g >= need(s, q1, 7));
                if t == TokenType::Identifier {
                    assert(self.yields(g_primary(s, p0.from(), p0.names(), f), expr_tree(r)));
                } else if t == TokenType::KwTrue || t == TokenType::KwFalse {
                    assert(self.yields(g_primary(s, p0.from(), p0.names(), f), expr_tree(r)));
                } else if t == TokenType::IntLit {
                    assert(self.yields(g_primary(s, p0.from(), p0.names(), f), expr_tree(r)));
                } else if t == TokenType::FloatLit {
                    assert(self.yields(g_primary(s, p0.from(), p0.names(), f), expr_tree(r)));
                } else if t == TokenType::RationalLit {
                    assert(self.yields(g_primary(s, p0.from(), p0.names(), f), expr_tree(r)));
                } else if t == TokenType::StringLit {
                    assert(self.yields(g_primary(s, p0.from(), p0.names(), f), expr_tree(r)));
                } else if t == TokenType::CharLit {
                    assert(self.yields(g_primary(s, p0.from(), p0.names(), f), expr_tree(r)));
                } else if t == TokenType::Underscore {
                    assert(self.yields(g_primary(s, p0.from(), p0.names(), f), expr_tree(r)));
                } else if t == TokenType::KwLet {
                    assert(self.yields(g_primary(s, p0.from(), p0.names(), f), expr_tree(r)));
                } else if t == TokenType::KwLambda {
                    assert(self.yields(g_primary(s, p0.from(), p0.names(), f), expr_tree(r)));
                } else if t == TokenType::KwTypeof || t == TokenType::KwAssert || t == TokenType::KwForget {
                    assert(self.yields(g_primary(s, p0.from(), p0.names(), f), expr_tree(r)));
                } else if t == TokenType::KwIf {
                    assert(self.yields(g_primary(s, p0.from(), p0.names(), f), expr_tree(r)));
                } else if t == TokenType::KwFor {
                    assert(self.yields(g_primary(s, p0.from(), p0.names(), f), expr_tree(r)));
                } else if t == TokenType::KwWhile {
                    assert(self.yields(g_primary(s, p0.from(), p0.names(), f), expr_tree(r)));
                } else if t == TokenType::KwRepeat {
                    assert(self.yields(g_primary(s, p0.from(), p0.names(), f), expr_tree(r)));
                } else if t == TokenType::KwWith {
                    assert(self.yields(g_primary(s, p0.from(), p0.names(), f), expr_tree(r)));
                } else if t == TokenType::KwReturn {
                    assert(self.yields(g_primary(s, p0.from(), p0.names(), f), expr_tree(r)));
                } else if t == TokenType::LParen {
                    assert(self.yields(g_primary(s, p0.from(), p0.names(), f), expr_tree(r)));
                } else if t == TokenType::LBrace {
                    assert(self.yields(g_primary(s, p0.from(), p0.names(), f), expr_tree(r)));
                } else if t == TokenType::LBracket {
                    assert(self.yields(g_primary(s, p0.from(), p0.names(), f), expr_tree(r)));
                } else if t == TokenType::Minus || t == TokenType::Plus || t == TokenType::Not || t == TokenType::Tilde {
                    assert(self.yields(g_primary(s, p0.from(), p0.names(), f), expr_tree(r)));
                } else if t == TokenType::KwConst {
                    assert(self.yields(g_primary(s, p0.from(), p0.names(), f), expr_tree(r)));
                } else if t == TokenType::KwMoved {
                    assert(self.yields(g_primary(s, p0.from(), p0.names(), f), expr_tree(r)));
                } else {
                    assert(self.yields(g_primary(s, p0.from(), p0.names(), f), expr_tree(r)));
                }
            }
        }
        r
    }

    // ---- Parse specific statement types ----

    /// `typeof(e)`, `assert(e)` or `forget(e)`, after the keyword `t` at `loc`.
    fn parse_keyword_call(&mut self, t: TokenType, loc: Location) -> (r: Expression)
        requires
            old(self).wf(),
        ensures
            forall|f: nat|
                f >= need(old(self).lex().src(), old(self).from(), 5) ==> final(self).yields(
                    #[trigger] g_keyword_call(old(self).lex().src(), old(self).from(), old(self).names(), t, loc, f),
                    expr_tree(r),
                ),
            final(self).follows(old(self)),
        decreases old(self).measure(), 5nat,
    {
        let ghost p0 = *self;
        let ghost s = p0.lex().src();
        proof {
            p0.lemma_here();
        }
        let _ = self.expect(TokenType::LParen);
        let ghost p1 = *self;
        proof {
            p1.lemma_here();
        }
        let e = self.parse_expression();
        let ghost p2 = *self;
        proof {
            p2.lemma_here();
        }
        let _ = self.expect(TokenType::RParen);
        let ghost te = expr_tree(e);
        let r = match t {
            TokenType::KwTypeof => Expression::Typeof { loc, expr: Box::new(e) },
            TokenType::KwAssert => Expression::Assert { loc, condition: Box::new(e), message: None },
            _ => Expression::Forget { loc, variable: Box::new(e) },
        };
        proof {
            self.lemma_here();
            assert forall|f: nat| f >= need(s, p0.from(), 5) implies self.yields(
                g_keyword_call(s, p0.from(), p0.names(), t, loc, f),
                expr_tree(r),
            ) by {
                let g = (f - 1) as nat;
                assert(g >= need(s, p1.from(), 4));
                assert(p1.from() == skip_if(s, p0.from(), TokenType::LParen));
                assert(p2.yields(g_expression(s, p1.from(), p1.names(), g), te));
                assert(self.from() == skip_if(s, p2.from(), TokenType::RParen));
            }
        }
        r
    }

    /// After `(` at `loc`: `()` is the unit type, `(e)` is `e`, `(e, ...)` a tuple.
    fn parse_paren(&mut self, loc: Location) -> (r: Expression)
        requires
            old(self).wf(),
        ensures
            forall|f: nat|
                f >= need(old(self).lex().src(), old(self).from(), 5) ==> final(self).yields(
                    #[trigger] g_paren(old(self).lex().src(), old(self).from(), old(self).names(), loc, f),
                    expr_tree(r),
                ),
            final(self).follows(old(self)),
        decreases old(self).measure(), 5nat,
    {
        let ghost p0 = *self;
        let ghost s = p0.lex().src();
        proof {
            p0.lemma_here();
        }
        // Check if empty parens
        if self.check(TokenType::RParen) {
            self.advance();
            let r = Expression::unit_type();
            proof {
                assert forall|f: nat| f >= need(s, p0.from(), 5) implies self.yields(
                    g_paren(s, p0.from(), p0.names(), loc, f),
                    expr_tree(r),
                ) by {
                    lemma_tree_basics();
                    assert(expr_tree(r) == ExprTree::Type { loc: default_loc(), kind: KindTree::Unit });
                }
            }
            return r;
        }
        let e = self.parse_expression();
        let ghost te = expr_tree(e);
        let ghost p1 = *self;
        proof {
            p1.lemma_here();
        }
        // Check for tuple (comma separated)
        if self.check(TokenType::Comma) {
            let mut first = Vec::new();
            first.push(e);
            proof {
                assert(first@ =~= seq![e]);
                lemma_exprs_tree_single(e);
            }
            let elements = self.parse_more_exprs(first, TokenType::RParen);
            let ghost p2 = *self;
            proof {
                p2.lemma_here();
            }
            let _ = self.expect(TokenType::RParen);
            let r = Expression::Tuple { loc, elements };
            proof {
                self.lemma_here();
                assert forall|f: nat| f >= need(s, p0.from(), 5) implies self.yields(
                    g_paren(s, p0.from(), p0.names(), loc, f),
                    expr_tree(r),
                ) by {
                    let g = (f - 1) as nat;
                    assert(g >= need(s, p0.from(), 4));
                    assert(p1.yields(g_expression(s, p0.from(), p0.names(), g), te));
                    assert(g >= need(s, p1.from(), 1));
                    assert(p2.yields(
                        g_more_exprs(s, p1.from(), p1.names(), seq![te], TokenType::RParen, g),
                        exprs_tree(elements@),
                    ));
                }
            }
            return r;
        }
        let _ = self.expect(TokenType::RParen);
        proof {
            self.lemma_here();
            assert forall|f: nat| f >= need(s, p0.from(), 5) implies self.yields(
                g_paren(s, p0.from(), p0.names(), loc, f),
                expr_tree(e),
            ) by {
                let g = (f - 1) as nat;
                assert(g >= need(s, p0.from(), 4));
                assert(p1.yields(g_expression(s, p0.from(), p0.names(), g), te));
            }
        }
        e
    }

    /// After `[` at `loc`: a vector of comma-separated expressions.
    fn parse_bracket(&mut self, loc: Location) -> (r: Expression)
        requires
            old(self).wf(),
        ensures
            forall|f: nat|
                f >= need(old(self).lex().src(), old(self).from(), 5) ==> final(self).yields(
                    #[trigger] g_bracket(old(self).lex().src(), old(self).from(), old(self).names(), loc, f),
                    expr_tree(r),
                ),
            final(self).follows(old(self)),
        decreases old(self).measure(), 5nat,
    {
        let ghost p0 = *self;
        let ghost s = p0.lex().src();
        proof {
            p0.lemma_here();
        }
        let ghost mut p1 = p0;
        let ghost mut te = unit_tree();
        let elements = if self.check(TokenType::RBracket) {
            proof {
                lemma_trees_empty();
            }
            Vec::new()
        } else {
            let e = self.parse_expression();
            proof {
                p1 = *self;
                te = expr_tree(e);
                self.lemma_here();
            }
            let mut first = Vec::new();
            first.push(e);
            proof {
                assert(first@ =~= seq![e]);
                lemma_exprs_tree_single(e);
            }
            self.parse_more_exprs(first, TokenType::RBracket)
        };
        let ghost p2 = *self;
        proof {
            p2.lemma_here();
        }
        let _ = self.expect(TokenType::RBracket);
        let r = Expression::Vector { loc, elements };
        proof {
            self.lemma_here();
            assert forall|f: nat| f >= need(s, p0.from(), 5) implies self.yields(
                g_bracket(s, p0.from(), p0.names(), loc, f),
                expr_tree(r),
            ) by {
                let g = (f - 1) as nat;
                if kind_at(s, p0.from()) != TokenType::RBracket {
                    assert(g >= need(s, p0.from(), 4));
                    assert(p1.yields(g_expression(s, p0.from(), p0.names(), g), te));
                    assert(g >= need(s, p1.from(), 1));
                    assert(p2.yields(
                        g_more_exprs(s, p1.from(), p1.names(), seq![te], TokenType::RBracket, g),
                        exprs_tree(elements@),
                    ));
                }
            }
        }
        r
    }

    /// A prefix operator `t` at `loc` and its operand, which binds tighter than any infix operator.
    fn parse_unary(&mut self, t: TokenType, loc: Location) -> (r: Expression)
        requires
            old(self).wf(),
        ensures
            forall|f: nat|
                f >= need(old(self).lex().src(), old(self).from(), 5) ==> final(self).yields(
                    #[trigger] g_unary(old(self).lex().src(), old(self).from(), old(self).names(), t, loc, f),
                    expr_tree(r),
                ),
            final(self).follows(old(self)),
        decreases old(self).measure(), 5nat,
    {
        let ghost p0 = *self;
        let ghost s = p0.lex().src();
        proof {
            p0.lemma_here();
        }
        let expr = self.parse_expression_precedence(150);  // High precedence for unary
        let ghost te = expr_tree(expr);
        let r = match t {
            TokenType::Minus => Expression::UnaryMinus { loc, expr: Box::new(expr) },
            TokenType::Plus => Expression::UnaryPlus { loc, expr: Box::new(expr) },
            TokenType::Not => Expression::LogicalNot { loc, expr: Box::new(expr) },
            _ => Expression::BitwiseNot { loc, expr: Box::new(expr) },
        };
        proof {
            assert forall|f: nat| f >= need(s, p0.from(), 5) implies self.yields(
                g_unary(s, p0.from(), p0.names(), t, loc, f),
                expr_tree(r),
            ) by {
                let g = (f - 1) as nat;
                assert(g >= need(s, p0.from(), 3));
                assert(self.yields(g_pep(s, p0.from(), p0.names(), 150, g), te));
            }
        }
        r
    }

    /// More elements of a list: while a comma follows, the next expression,
    /// unless `closer` comes right after the comma.
    fn parse_more_exprs(&mut self, acc: Vec<Expression>, closer: TokenType) -> (r: Vec<Expression>)
        requires
            old(self).wf(),
        ensures
            forall|f: nat|
                f >= need(old(self).lex().src(), old(self).from(), 1) ==> final(self).yields(
                    #[trigger] g_more_exprs(old(self).lex().src(), old(self).from(), old(self).names(), exprs_tree(acc@), closer, f),
                    exprs_tree(r@),
                ),
            final(self).follows(old(self)),
        decreases old(self).measure(), 1nat,
    {
        let ghost p0 = *self;
        let ghost s = p0.lex().src();
        proof {
            p0.lemma_here();
        }
        if !self.matches(TokenType::Comma) {
            proof {
                self.lemma_here();
                assert forall|f: nat| f >= need(s, p0.from(), 1) implies self.yields(
                    g_more_exprs(s, p0.from(), p0.names(), exprs_tree(acc@), closer, f),
                    exprs_tree(acc@),
                ) by {
                }
            }
            return acc;
        }
        let ghost p1 = *self;
        proof {
            p1.lemma_here();
        }
        if self.check(closer) {
            proof {
                self.lemma_here();
                assert forall|f: nat| f >= need(s, p0.from(), 1) implies self.yields(
                    g_more_exprs(s, p0.from(), p0.names(), exprs_tree(acc@), closer, f),
                    exprs_tree(acc@),
                ) by {
                }
            }
            return acc;
        }
        let e = self.parse_expression();
        let ghost te = expr_tree(e);
        let ghost before = acc@;
        let mut acc = acc;
        acc.push(e);
        proof {
            lemma_exprs_tree_push(before, e);
        }
        let ghost p2 = *self;
        proof {
            p2.lemma_here();
        }
        let r = self.parse_more_exprs(acc, closer);
        proof {
            assert forall|f: nat| f >= need(s, p0.from(), 1) implies self.yields(
                g_more_exprs(s, p0.from(), p0.names(), exprs_tree(before), closer, f),
                exprs_tree(r@),
            ) by {
                assert((f - 1) as nat >= need(s, p1.from(), 4));
                assert(p2.yields(g_expression(s, p1.from(), p1.names(), (f - 1) as nat), te));
                assert(less(s, p2.from(), p0.from()));
                assert(f >= need(s, p2.from(), 1));
                assert(self.yields(g_more_exprs(s, p2.from(), p2.names(), exprs_tree(acc@), closer, f), exprs_tree(r@)));
                assert(exprs_tree(acc@) == exprs_tree(before).push(te));
            }
        }
        r
    }

    /// The arguments of a call after `(`: none when `)` follows, else
    /// comma-separated expressions of assignment strength.
    fn parse_call_args(&mut self) -> (r: Vec<Expression>)
        requires
            old(self).wf(),
        ensures
            forall|f: nat|
                f >= need(old(self).lex().src(), old(self).from(), 4) ==> final(self).yields(
                    #[trigger] g_call_args(old(self).lex().src(), old(self).from(), old(self).names(), f),
                    exprs_tree(r@),
                ),
            final(self).follows(old(self)),
            old(self).cur().ty != TokenType::RParen ==> final(self).progressed(old(self)),
            old(self).cur().ty == TokenType::RParen ==> final(self).same(old(self)),
        decreases old(self).measure(), 4nat,
    {
        let ghost p0 = *self;
        let ghost s = p0.lex().src();
        proof {
            p0.lemma_here();
        }
        if self.check(TokenType::RParen) {
            let r = Vec::new();
            proof {
                lemma_trees_empty();
                assert forall|f: nat| f >= need(s, p0.from(), 4) implies self.yields(
                    g_call_args(s, p0.from(), p0.names(), f),
                    exprs_tree(r@),
                ) by {
                }
            }
            return r;
        }
        // Use high precedence to prevent comma from being consumed
        let x = self.parse_expression_precedence(precedence::ASSIGN);
        let ghost tx = expr_tree(x);
        let ghost p1 = *self;
        proof {
            p1.lemma_here();
        }
        let mut first = Vec::new();
        first.push(x);
        proof {
            assert(first@ =~= seq![x]);
            lemma_exprs_tree_single(x);
        }
        let r = self.parse_more_args(first);
        proof {
            assert forall|f: nat| f >= need(s, p0.from(), 4) implies self.yields(
                g_call_args(s, p0.from(), p0.names(), f),
                exprs_tree(r@),
            ) by {
                let g = (f - 1) as nat;
                assert(g >= need(s, p0.from(), 3));
                assert(p1.yields(g_pep(s, p0.from(), p0.names(), precedence::ASSIGN, g), tx));
                assert(g >= need(s, p1.from(), 1));
                assert(self.yields(g_more_args(s, p1.from(), p1.names(), seq![tx], g), exprs_tree(r@)));
            }
        }
        r
    }

    /// More call arguments: while a comma follows, the next argument, unless `)` comes right after it.
    fn parse_more_args(&mut self, acc: Vec<Expression>) -> (r: Vec<Expression>)
        requires
            old(self).wf(),
        ensures
            forall|f: nat|
                f >= need(old(self).lex().src(), old(self).from(), 1) ==> final(self).yields(
                    #[trigger] g_more_args(old(self).lex().src(), old(self).from(), old(self).names(), exprs_tree(acc@), f),
                    exprs_tree(r@),
                ),
            final(self).follows(old(self)),
        decreases old(self).measure(), 1nat,
    {
        let ghost p0 = *self;
        let ghost s = p0.lex().src();
        proof {
            p0.lemma_here();
        }
        if !self.matches(TokenType::Comma) {
            proof {
                self.lemma_here();
                assert forall|f: nat| f >= need(s, p0.from(), 1) implies self.yields(
                    g_more_args(s, p0.from(), p0.names(), exprs_tree(acc@), f),
                    exprs_tree(acc@),
                ) by {
                }
            }
            return acc;
        }
        let ghost p1 = *self;
        proof {
            p1.lemma_here();
        }
        if self.check(TokenType::RParen) {
            proof {
                self.lemma_here();
                assert forall|f: nat| f >= need(s, p0.from(), 1) implies self.yields(
                    g_more_args(s, p0.from(), p0.names(), exprs_tree(acc@), f),
                    exprs_tree(acc@),
                ) by {
                }
            }
            return acc;
        }
        let x = self.parse_expression_precedence(precedence::ASSIGN);
        let ghost tx = expr_tree(x);
        let ghost before = acc@;
        let mut acc = acc;
        acc.push(x);
        proof {
            lemma_exprs_tree_push(before, x);
        }
        let ghost p2 = *self;
        proof {
            p2.lemma_here();
        }
        let r = self.parse_more_args(acc);
        proof {
            assert forall|f: nat| f >= need(s, p0.from(), 1) implies self.yields(
                g_more_args(s, p0.from(), p0.names(), exprs_tree(before), f),
                exprs_tree(r@),
            ) by {
                assert((f - 1) as nat >= need(s, p1.from(), 3));
                assert(p2.yields(g_pep(s, p1.from(), p1.names(), precedence::ASSIGN, (f - 1) as nat), tx));
                assert(less(s, p2.from(), p0.from()));
                assert(f >= need(s, p2.from(), 1));
                assert(self.yields(g_more_args(s, p2.from(), p2.names(), exprs_tree(acc@), f), exprs_tree(r@)));
                assert(exprs_tree(acc@) == exprs_tree(before).push(tx));
            }
        }
        r
    }

    /// Parse a compound statement: { stmt1; stmt2; ... }
    fn parse_compound(&mut self) -> (r: Expression)
        requires
            old(self).wf(),
        ensures
            forall|f: nat|
                f >= need(old(self).lex().src(), old(self).from(), 1) ==> final(self).yields(
                    #[trigger] g_compound(old(self).lex().src(), old(self).from(), old(self).names(), f),
                    expr_tree(r),
                ),
            final(self).progressed(old(self)),
        decreases old(self).measure(), 1nat,
    {
        let ghost p0 = *self;
        let ghost s = p0.lex().src();
        proof {
            p0.lemma_here();
        }
        let loc = self.cur_location();
        self.advance();  // {
        let ghost p1 = *self;
        proof {
            p1.lemma_here();
        }
        let statements = if self.check(TokenType::Eof) {
            proof {
                lemma_trees_empty();
            }
            Vec::new()
        } else {
            proof {
                lemma_trees_empty();
            }
            self.parse_statements(Vec::new())
        };
        let ghost p2 = *self;
        proof {
            p2.lemma_here();
        }
        let _ = self.expect(TokenType::RBrace);
        let r = Expression::new_compound(loc, statements);
        proof {
            self.lemma_here();
            assert forall|f: nat| f >= need(s, p0.from(), 1) implies self.yields(
                g_compound(s, p0.from(), p0.names(), f),
                expr_tree(r),
            ) by {
                let g = (f - 1) as nat;
                lemma_tree_basics();
                if kind_at(s, p1.from()) != TokenType::Eof {
                    assert(g >= need(s, p1.from(), 6));
                    assert(p2.yields(
                        g_statements(s, p1.from(), p1.names(), exprs_tree(Seq::<Expression>::empty()), g),
                        exprs_tree(statements@),
                    ));
                } else {
                    assert(g_statements(s, p1.from(), p1.names(), Seq::<ExprTree>::empty(), g)
                        == Parsed { tree: Seq::<ExprTree>::empty(), at: p1.from(), names: p1.names() });
                    assert(exprs_tree(statements@) == Seq::<ExprTree>::empty());
                }
                assert(self.from() == skip_if(s, p2.from(), TokenType::RBrace));
                assert(expr_tree(r) == ExprTree::Compound { loc: loc_at(s, p0.from()), statements: exprs_tree(statements@) });
            }
        }
        r
    }

    /// Statements up to the closing brace (or the end of the input); stray
    /// semicolons are skipped, and so is a semicolon after a statement.
    fn parse_statements(&mut self, acc: Vec<Expression>) -> (r: Vec<Expression>)
        requires
            old(self).wf(),
        ensures
            forall|f: nat|
                f >= need(old(self).lex().src(), old(self).from(), 6) ==> final(self).yields(
                    #[trigger] g_statements(old(self).lex().src(), old(self).from(), old(self).names(), exprs_tree(acc@), f),
                    exprs_tree(r@),
                ),
            final(self).follows(old(self)),
        decreases old(self).measure(), 6nat,
    {
        let ghost p0 = *self;
        let ghost s = p0.lex().src();
        proof {
            p0.lemma_here();
        }
        if self.check(TokenType::RBrace) || self.check(TokenType::Eof) {
            proof {
                self.lemma_here();
                assert forall|f: nat| f >= need(s, p0.from(), 6) implies self.yields(
                    g_statements(s, p0.from(), p0.names(), exprs_tree(acc@), f),
                    exprs_tree(acc@),
                ) by {
                }
            }
            return acc;
        }
        if self.check(TokenType::Semicolon) {
            self.advance();
            let ghost p1 = *self;
            proof {
                p1.lemma_here();
            }
            let r = self.parse_statements(acc);
            proof {
                assert forall|f: nat| f >= need(s, p0.from(), 6) implies self.yields(
                    g_statements(s, p0.from(), p0.names(), exprs_tree(acc@), f),
                    exprs_tree(r@),
                ) by {
                    assert(less(s, p1.from(), p0.from()));
                    assert(f >= need(s, p1.from(), 6));
                    assert(self.yields(g_statements(s, p1.from(), p1.names(), exprs_tree(acc@), f), exprs_tree(r@)));
                    assert(g_statements(s, p0.from(), p0.names(), exprs_tree(acc@), f)
                        == g_statements(s, p1.from(), p1.names(), exprs_tree(acc@), f));
                }
            }
            return r;
        }
        let st = self.parse_statement();
        let ghost tt = expr_tree(st);
        let ghost p1 = *self;
        proof {
            p1.lemma_here();
        }
        let ghost before = acc@;
        let mut acc = acc;
        acc.push(st);
        proof {
            lemma_exprs_tree_push(before, st);
        }
        // Semicolons are optional after some constructs
        if self.check(TokenType::Semicolon) {
            self.advance();
        }
        let ghost p2 = *self;
        proof {
            p2.lemma_here();
        }
        let r = self.parse_statements(acc);
        proof {
            assert forall|f: nat| f >= need(s, p0.from(), 6) implies self.yields(
                g_statements(s, p0.from(), p0.names(), exprs_tree(before), f),
                exprs_tree(r@),
            ) by {
                assert((f - 1) as nat >= need(s, p0.from(), 5));
                assert(p1.yields(g_statement(s, p0.from(), p0.names(), (f - 1) as nat), tt));
                assert(p2.from() == skip_if(s, p1.from(), TokenType::Semicolon));
                assert(less(s, p2.from(), p0.from()));
                assert(f >= need(s, p2.from(), 6));
                assert(self.yields(g_statements(s, p2.from(), p2.names(), exprs_tree(acc@), f), exprs_tree(r@)));
                assert(exprs_tree(acc@) == exprs_tree(before).push(tt));
            }
        }
        r
    }

    /// Parse a single statement or declaration.
    #[verifier::rlimit(100)]
    #[verifier::spinoff_prover]
    fn parse_statement(&mut self) -> (r: Expression)
        requires
            old(self).wf(),
        ensures
            forall|f: nat|
                f >= need(old(self).lex().src(), old(self).from(), 5) ==> final(self).yields(
                    #[trigger] g_statement(old(self).lex().src(), old(self).from(), old(self).names(), f),
                    expr_tree(r),
                ),
            final(self).progressed(old(self)),
        decreases old(self).measure(), 5nat,
    {
        let ghost p0 = *self;
        let ghost s = p0.lex().src();
        proof {
            p0.lemma_here();
        }
        let loc = self.cur_location();
        let t = self.current.ty;
        if t == TokenType::KwDef || t == TokenType::KwDat || t == TokenType::KwLet {
            self.advance();
            let ghost p1 = *self;
            proof {
                p1.lemma_here();
            }
            let name = self.intern_current();
            self.advance();
            let ghost p2 = *self;
            proof {
                p2.lemma_here();
            }
            let r = if t == TokenType::KwDef {
                self.parse_function_def(name)
            } else if t == TokenType::KwDat {
                self.parse_dat_decl(name)
            } else {
                self.parse_let(Some(name))
            };
            proof {
                assert forall|f: nat| f >= need(s, p0.from(), 5) implies self.yields(
                    g_statement(s, p0.from(), p0.names(), f),
                    expr_tree(r),
                ) by {
                    let g = (f - 1) as nat;
                    assert(meas(s, p2.from()) < meas(s, p0.from()));
                    assert(g >= need(s, p2.from(), 7));
                    assert(p2.from() == next(s, p1.from()));
                    assert(p1.from() == next(s, p0.from()));
                    assert(name == intern_id(p0.names(), text_at(s, p1.from())));
                    assert(p2.names() == intern_names(p0.names(), text_at(s, p1.from())));
                    if t == TokenType::KwDef {
                        assert(self.yields(g_function_def(s, p2.from(), p2.names(), name, g), expr_tree(r)));
                    } else if t == TokenType::KwDat {
                        assert(self.yields(g_dat(s, p2.from(), p2.names(), name, g), expr_tree(r)));
                    } else {
                        assert(g >= need(s, p2.from(), 5));
                        assert(self.yields(g_let(s, p2.from(), p2.names(), Some(name), g), expr_tree(r)));
                    }
                }
            }
            return r;
        }
        if t == TokenType::KwImport {
            self.advance();
            let ghost p1 = *self;
            proof {
                p1.lemma_here();
            }
            let path = self.current.text.clone();
            let ghost tpath = path@;
            self.advance();
            let d = Declaration::Import { loc, path };
            let ghost gd = d;
            let r = Expression::TypeDecl(Box::new(d));
            proof {
                self.lemma_here();
                assert(tpath == text_at(s, p1.from()));
                assert(decl_tree(gd) == DeclTree::Import { loc, path: tpath });
                assert(expr_tree(r) == ExprTree::TypeDecl(Box::new(DeclTree::Import { loc, path: tpath })));
                assert forall|f: nat| f >= need(s, p0.from(), 5) implies self.yields(
                    g_statement(s, p0.from(), p0.names(), f),
                    expr_tree(r),
                ) by {
                    assert(self.from() == next(s, p1.from()));
                    assert(p1.from() == next(s, p0.from()));
                    assert(loc == loc_at(s, p0.from()));
                }
            }
            return r;
        }
        // Assignment or expression statement
        let expr = self.parse_expression();
        let ghost te = expr_tree(expr);
        let ghost p1 = *self;
        proof {
            p1.lemma_here();
        }
        // Check for assignment: x := y  or  x <- y  or  e[i] := y
        if self.check(TokenType::Assign) || self.check(TokenType::LeftArrow) {
            let assign_ty = self.current.ty;
            let assign_loc = self.cur_location();
            self.advance();
            let ghost p2 = *self;
            proof {
                p2.lemma_here();
            }
            let value = self.parse_expression();
            let ghost tv = expr_tree(value);
            let target_name = match &expr {
                Expression::Identifier { name, .. } => Some(*name),
                _ => None,
            };
            let r = if assign_ty == TokenType::Assign && target_name.is_some() {
                // := is a define (let with implicit name from expr)
                let name = target_name.unwrap();
                Expression::new_let(
                    assign_loc,
                    name,
                    None,
                    value,
                    Expression::Identifier { loc, name, meaning: None, classical: false },
                )
            } else {
                // Left arrow, or a non-identifier target (e.g., vec[i] := x): an assignment
                Expression::Assign { loc: assign_loc, target: Box::new(expr), value: Box::new(value) }
            };
            proof {
                assert forall|f: nat| f >= need(s, p0.from(), 5) implies self.yields(
                    g_statement(s, p0.from(), p0.names(), f),
                    expr_tree(r),
                ) by {
                    let g = (f - 1) as nat;
                    assert(g >= need(s, p0.from(), 4));
                    assert(p1.yields(g_expression(s, p0.from(), p0.names(), g), te));
                    assert(g >= need(s, p2.from(), 4));
                    assert(self.yields(g_expression(s, p2.from(), p2.names(), g), tv));
                }
            }
            return r;
        }
        proof {
            assert forall|f: nat| f >= need(s, p0.from(), 5) implies self.yields(
                g_statement(s, p0.from(), p0.names(), f),
                expr_tree(expr),
            ) by {
                let g = (f - 1) as nat;
                assert(g >= need(s, p0.from(), 4));
                assert(p1.yields(g_expression(s, p0.from(), p0.names(), g), te));
            }
        }
        expr
    }

    /// Parse a function definition: name(params) [annotation] [: return_type] body
    #[verifier::rlimit(100)]
    #[verifier::spinoff_prover]
    fn parse_function_def(&mut self, name: Id) -> (r: Expression)
        requires
            old(self).wf(),
        ensures
            forall|f: nat|
                f >= need(old(self).lex().src(), old(self).from(), 7) ==> final(self).yields(
                    #[trigger] g_function_def(old(self).lex().src(), old(self).from(), old(self).names(), name, f),
                    expr_tree(r),
                ),
            final(self).follows(old(self)),
        decreases old(self).measure(), 7nat,
    {
        let ghost p0 = *self;
        let ghost s = p0.lex().src();
        proof {
            p0.lemma_here();
        }
        let loc = self.cur_location();
        let _ = self.expect(TokenType::LParen);
        let ghost p1 = *self;
        proof {
            p1.lemma_here();
        }
        // Parse parameters
        let ghost mut p2 = p1;
        let ghost mut tp: DeclTree = arbitrary();
        let params = if self.check(TokenType::RParen) {
            proof {
                lemma_trees_empty();
            }
            Vec::new()
        } else {
            let first = self.parse_parameter();
            proof {
                p2 = *self;
                tp = decl_tree(first);
                self.lemma_here();
            }
            let mut ps = Vec::new();
            ps.push(first);
            proof {
                assert(ps@ =~= seq![first]);
                lemma_decls_tree_single(first);
            }
            self.parse_more_params(ps)
        };
        let ghost p3 = *self;
        proof {
            p3.lemma_here();
        }
        let _ = self.expect(TokenType::RParen);
        let ghost p4 = *self;
        proof {
            p4.lemma_here();
        }
        // Optional annotation
        let annotation = self.parse_annotation();
        let ghost p5 = *self;
        proof {
            p5.lemma_here();
        }
        // Optional return type
        let ghost mut p6 = p5;
        let return_type = if self.check(TokenType::Colon) {
            self.advance();
            proof {
                p6 = *self;
                self.lemma_here();
            }
            Some(self.parse_expression())
        } else {
            None
        };
        let ghost p7 = *self;
        proof {
            p7.lemma_here();
        }
        // Body
        let body = self.parse_body();
        let ghost tb = expr_tree(body);
        let ghost trt = match &return_type {
            Some(t) => Some(Box::new(expr_tree(*t))),
            None => None,
        };
        let ghost tps = decls_tree(params@);
        let decl = Declaration::new_function(loc, name, params, return_type, body, annotation);
        let ghost gd = decl;
        let r = Expression::TypeDecl(Box::new(decl));
        proof {
            lemma_tree_basics();
            let tree = DeclTree::FunctionDef {
                loc: loc_at(s, p0.from()),
                name,
                params: tps,
                return_type: trt,
                body: Box::new(tb),
                annotation: annotation_of(kind_at(s, p4.from())),
                ftype: None,
                captures: Seq::empty(),
                is_main: false,
                extern_name: None,
            };
            match gd {
                Declaration::FunctionDef { captures, .. } => {
                    assert(captures@ =~= Seq::<Id>::empty());
                },
                _ => {},
            }
            assert(decl_tree(gd) == tree);
            assert(expr_tree(r) == ExprTree::TypeDecl(Box::new(tree)));
            assert(p1.from() == skip_if(s, p0.from(), TokenType::LParen));
            assert(p4.from() == skip_if(s, p3.from(), TokenType::RParen));
            assert(p4.names() == p3.names() && p5.names() == p3.names());
            assert forall|f: nat| f >= need(s, p0.from(), 7) implies self.yields(
                g_function_def(s, p0.from(), p0.names(), name, f),
                expr_tree(r),
            ) by {
                let g = (f - 1) as nat;
                if kind_at(s, p1.from()) != TokenType::RParen {
                    assert(g >= need(s, p1.from(), 5));
                    assert(p2.yields(g_parameter(s, p1.from(), p1.names(), g), tp));
                    assert(g >= need(s, p2.from(), 1));
                    assert(p3.yields(g_more_params(s, p2.from(), p2.names(), seq![tp], g), tps));
                } else {
                    assert(p3 == p1);
                    assert(tps == Seq::<DeclTree>::empty());
                }
                if kind_at(s, p5.from()) == TokenType::Colon {
                    assert(g >= need(s, p6.from(), 4));
                    assert(p6.from() == next(s, p5.from()));
                    assert(p7.yields(g_expression(s, p6.from(), p6.names(), g), *trt.unwrap()));
                }
                assert(g >= need(s, p7.from(), 5));
                assert(self.yields(g_body(s, p7.from(), p7.names(), g), tb));
            }
        }
        r
    }

    /// More parameters: while a comma follows, the next parameter, unless `)` comes right after it.
    fn parse_more_params(&mut self, acc: Vec<Declaration>) -> (r: Vec<Declaration>)
        requires
            old(self).wf(),
        ensures
            forall|f: nat|
                f >= need(old(self).lex().src(), old(self).from(), 1) ==> final(self).yields(
                    #[trigger] g_more_params(old(self).lex().src(), old(self).from(), old(self).names(), decls_tree(acc@), f),
                    decls_tree(r@),
                ),
            final(self).follows(old(self)),
        decreases old(self).measure(), 1nat,
    {
        let ghost p0 = *self;
        let ghost s = p0.lex().src();
        proof {
            p0.lemma_here();
        }
        if !self.matches(TokenType::Comma) {
            proof {
                self.lemma_here();
                assert forall|f: nat| f >= need(s, p0.from(), 1) implies self.yields(
                    g_more_params(s, p0.from(), p0.names(), decls_tree(acc@), f),
                    decls_tree(acc@),
                ) by {
                }
            }
            return acc;
        }
        let ghost p1 = *self;
        proof {
            p1.lemma_here();
        }
        if self.check(TokenType::RParen) {
            proof {
                self.lemma_here();
                assert forall|f: nat| f >= need(s, p0.from(), 1) implies self.yields(
                    g_more_params(s, p0.from(), p0.names(), decls_tree(acc@), f),
                    decls_tree(acc@),
                ) by {
                }
            }
            return acc;
        }
        let x = self.parse_parameter();
        let ghost tx = decl_tree(x);
        let ghost before = acc@;
        let mut acc = acc;
        acc.push(x);
        proof {
            lemma_decls_tree_push(before, x);
        }
        let ghost p2 = *self;
        proof {
            p2.lemma_here();
        }
        let r = self.parse_more_params(acc);
        proof {
            assert forall|f: nat| f >= need(s, p0.from(), 1) implies self.yields(
                g_more_params(s, p0.from(), p0.names(), decls_tree(before), f),
                decls_tree(r@),
            ) by {
                assert((f - 1) as nat >= need(s, p1.from(), 5));
                assert(p2.yields(g_parameter(s, p1.from(), p1.names(), (f - 1) as nat), tx));
                assert(less(s, p2.from(), p0.from()));
                assert(f >= need(s, p2.from(), 1));
                assert(self.yields(g_more_params(s, p2.from(), p2.names(), decls_tree(acc@), f), decls_tree(r@)));
                assert(decls_tree(acc@) == decls_tree(before).push(tx));
            }
        }
        r
    }

    /// Parse a parameter declaration: `[const|moved] name [: type]`.
    fn parse_parameter(&mut self) -> (r: Declaration)
        requires
            old(self).wf(),
        ensures
            forall|f: nat|
                f >= need(old(self).lex().src(), old(self).from(), 5) ==> final(self).yields(
                    #[trigger] g_parameter(old(self).lex().src(), old(self).from(), old(self).names(), f),
                    decl_tree(r),
                ),
            final(self).progressed(old(self)),
        decreases old(self).measure(), 5nat,
    {
        let ghost p0 = *self;
        let ghost s = p0.lex().src();
        proof {
            p0.lemma_here();
        }
        let loc = self.cur_location();
        // Optional const/moved annotation
        let capture = match self.current.ty {
            TokenType::KwConst => {
                self.advance();
                CaptureAnnotation::Const
            },
            TokenType::KwMoved => {
                self.advance();
                CaptureAnnotation::Moved
            },
            _ => CaptureAnnotation::NoCapture,
        };
        let ghost p1 = *self;
        proof {
            p1.lemma_here();
        }
        let name = self.intern_current();
        self.advance();
        let ghost p2 = *self;
        proof {
            p2.lemma_here();
        }
        // Optional type annotation
        let ghost mut p3 = p2;
        let dtype = if self.matches(TokenType::Colon) {
            proof {
                p3 = *self;
                self.lemma_here();
            }
            Some(self.parse_expression())
        } else {
            None
        };
        let ghost td = match &dtype {
            Some(t) => Some(Box::new(expr_tree(*t))),
            None => None,
        };
        let r = Declaration::new_var(loc, name, dtype, None, true, capture);
        proof {
            lemma_tree_basics();
            assert(capture == capture_of(kind_at(s, p0.from())));
            assert(loc == loc_at(s, p0.from()));
            assert(name == intern_id(p0.names(), text_at(s, p1.from())));
            assert(p2.names() == intern_names(p0.names(), text_at(s, p1.from())));
            assert(p2.from() == next(s, p1.from()));
            assert(decl_tree(r) == DeclTree::VarDecl {
                loc,
                name,
                dtype: td,
                vtype: None,
                initializer: None,
                is_parameter: true,
                capture,
            });
            assert forall|f: nat| f >= need(s, p0.from(), 5) implies self.yields(
                g_parameter(s, p0.from(), p0.names(), f),
                decl_tree(r),
            ) by {
                let g = (f - 1) as nat;
                if kind_at(s, p2.from()) == TokenType::Colon {
                    assert(p3.from() == next(s, p2.from()));
                    assert(g >= need(s, p3.from(), 4));
                    assert(self.yields(g_expression(s, p3.from(), p3.names(), g), *td.unwrap()));
                }
            }
        }
        r
    }

    /// Parse a function annotation (qfree, mfree, lifted, wild).
    fn parse_annotation(&mut self) -> (r: Annotation)
        requires
            old(self).wf(),
        ensures
            r == annotation_of(old(self).cur().ty),
            r != Annotation::NoAnnotation ==> final(self).advanced(old(self)),
            r == Annotation::NoAnnotation ==> final(self).same(old(self)),
            final(self).follows(old(self)),
    {
        match self.current.ty {
            TokenType::KwQfree => {
                self.advance();
                Annotation::Qfree
            },
            TokenType::KwMfree => {
                self.advance();
                Annotation::Mfree
            },
            TokenType::KwLifted => {
                self.advance();
                Annotation::Lifted
            },
            TokenType::KwWild => {
                self.advance();
                Annotation::Wild
            },
            _ => Annotation::NoAnnotation,
        }
    }

    /// Parse a function body: `{ ... }` or `=> expr` or `;` (abstract).
    fn parse_body(&mut self) -> (r: Expression)
        requires
            old(self).wf(),
        ensures
            forall|f: nat|
                f >= need(old(self).lex().src(), old(self).from(), 5) ==> final(self).yields(
                    #[trigger] g_body(old(self).lex().src(), old(self).from(), old(self).names(), f),
                    expr_tree(r),
                ),
            final(self).progressed(old(self)),
        decreases old(self).measure(), 5nat,
    {
        let ghost p0 = *self;
        let ghost s = p0.lex().src();
        proof {
            p0.lemma_here();
        }
        if self.check(TokenType::Semicolon) {
            self.advance();  // Abstract function (no body)
            let r = Expression::new_literal(Location::default(), LiteralValue::Unit);
            proof {
                self.lemma_here();
                lemma_tree_basics();
                assert(expr_tree(r) == unit_tree());
                assert forall|f: nat| f >= need(s, p0.from(), 5) implies self.yields(
                    g_body(s, p0.from(), p0.names(), f),
                    expr_tree(r),
                ) by {
                }
            }
            return r;
        }
        if self.check(TokenType::FatArrow) {
            self.advance();  // =>
            let ghost p1 = *self;
            proof {
                p1.lemma_here();
            }
            let expr = self.parse_expression();
            proof {
                assert forall|f: nat| f >= need(s, p0.from(), 5) implies self.yields(
                    g_body(s, p0.from(), p0.names(), f),
                    expr_tree(expr),
                ) by {
                    let g = (f - 1) as nat;
                    assert(g >= need(s, p1.from(), 4));
                    assert(self.yields(g_expression(s, p1.from(), p1.names(), g), expr_tree(expr)));
                    assert(g_body(s, p0.from(), p0.names(), f) == g_expression(s, p1.from(), p0.names(), g));
                }
            }
            return expr;
        }
        if self.check(TokenType::LBrace) {
            let r = self.parse_compound();
            proof {
                assert forall|f: nat| f >= need(s, p0.from(), 5) implies self.yields(
                    g_body(s, p0.from(), p0.names(), f),
                    expr_tree(r),
                ) by {
                    let g = (f - 1) as nat;
                    assert(g >= need(s, p0.from(), 1));
                    assert(self.yields(g_compound(s, p0.from(), p0.names(), g), expr_tree(r)));
                    assert(g_body(s, p0.from(), p0.names(), f) == g_compound(s, p0.from(), p0.names(), g));
                }
            }
            return r;
        }
        // Implicit single expression body
        let r = self.parse_expression();
        proof {
            assert forall|f: nat| f >= need(s, p0.from(), 5) implies self.yields(
                g_body(s, p0.from(), p0.names(), f),
                expr_tree(r),
            ) by {
                let g = (f - 1) as nat;
                assert(g >= need(s, p0.from(), 4));
                assert(self.yields(g_expression(s, p0.from(), p0.names(), g), expr_tree(r)));
                assert(g_body(s, p0.from(), p0.names(), f) == g_expression(s, p0.from(), p0.names(), g));
            }
        }
        r
    }

    /// Parse a data type declaration: dat Name [params] ["quantum"] { fields... }
    fn parse_dat_decl(&mut self, name: Id) -> (r: Expression)
        requires
            old(self).wf(),
        ensures
            forall|f: nat|
                f >= need(old(self).lex().src(), old(self).from(), 7) ==> final(self).yields(
                    #[trigger] g_dat(old(self).lex().src(), old(self).from(), old(self).names(), name, f),
                    expr_tree(r),
                ),
            final(self).follows(old(self)),
        decreases old(self).measure(), 7nat,
    {
        let ghost p0 = *self;
        let ghost s = p0.lex().src();
        proof {
            p0.lemma_here();
        }
        let loc = self.cur_location();
        // Type parameters
        let ghost mut p1 = p0;
        let ghost mut p2 = p0;
        let type_params = if self.matches(TokenType::LBracket) {
            proof {
                p1 = *self;
                self.lemma_here();
            }
            let params = self.parse_type_params();
            proof {
                p2 = *self;
                self.lemma_here();
            }
            let _ = self.expect(TokenType::RBracket);
            params
        } else {
            proof {
                lemma_trees_empty();
            }
            Vec::new()
        };
        let ghost p3 = *self;
        proof {
            p3.lemma_here();
        }
        // Optional quantum keyword
        let is_quantum = self.matches(TokenType::KwQuantum);
        let ghost p4 = *self;
        proof {
            p4.lemma_here();
        }
        // Body: { field1; field2; ... }
        let _ = self.expect(TokenType::LBrace);
        let ghost p5 = *self;
        proof {
            p5.lemma_here();
        }
        proof {
            lemma_trees_empty();
        }
        let fields = self.parse_fields(Vec::new());
        let ghost p6 = *self;
        proof {
            p6.lemma_here();
        }
        let _ = self.expect(TokenType::RBrace);
        let ghost ttp = decls_tree(type_params@);
        let ghost tfs = decls_tree(fields@);
        let decl = Declaration::new_dat(loc, name, type_params, fields, is_quantum);
        let ghost gd = decl;
        let r = Expression::TypeDecl(Box::new(decl));
        proof {
            self.lemma_here();
            lemma_tree_basics();
            let tree = DeclTree::DatDecl { loc, name, type_params: ttp, fields: tfs, is_quantum };
            assert(decl_tree(gd) == tree);
            assert(expr_tree(r) == ExprTree::TypeDecl(Box::new(tree)));
            assert(loc == loc_at(s, p0.from()));
            assert(is_quantum == (kind_at(s, p3.from()) == TokenType::KwQuantum));
            assert(self.from() == skip_if(s, p6.from(), TokenType::RBrace));
            if kind_at(s, p0.from()) != TokenType::LBracket {
                assert(p3.from() == p0.from() && p3.names() == p0.names());
                assert(ttp == Seq::<DeclTree>::empty());
            }
            assert forall|f: nat| f >= need(s, p0.from(), 7) implies self.yields(
                g_dat(s, p0.from(), p0.names(), name, f),
                expr_tree(r),
            ) by {
                let g = (f - 1) as nat;
                if kind_at(s, p0.from()) == TokenType::LBracket {
                    assert(g >= need(s, p1.from(), 5));
                    assert(p2.yields(g_type_params(s, p1.from(), p1.names(), g), decls_tree(type_params@)));
                    assert(p3.from() == skip_if(s, p2.from(), TokenType::RBracket));
                }
                assert(p4.from() == skip_if(s, p3.from(), TokenType::KwQuantum));
                assert(p5.from() == skip_if(s, p4.from(), TokenType::LBrace));
                assert(g >= need(s, p5.from(), 6));
                assert(p6.yields(g_fields(s, p5.from(), p5.names(), decls_tree(Seq::<Declaration>::empty()), g), tfs));
            }
        }
        r
    }

    /// The fields of a data type, up to the closing brace: parameters, each
    /// optionally followed by a semicolon.
    fn parse_fields(&mut self, acc: Vec<Declaration>) -> (r: Vec<Declaration>)
        requires
            old(self).wf(),
        ensures
            forall|f: nat|
                f >= need(old(self).lex().src(), old(self).from(), 6) ==> final(self).yields(
                    #[trigger] g_fields(old(self).lex().src(), old(self).from(), old(self).names(), decls_tree(acc@), f),
                    decls_tree(r@),
                ),
            final(self).follows(old(self)),
        decreases old(self).measure(), 6nat,
    {
        let ghost p0 = *self;
        let ghost s = p0.lex().src();
        proof {
            p0.lemma_here();
        }
        if self.check(TokenType::RBrace) || self.check(TokenType::Eof) {
            proof {
                self.lemma_here();
                assert forall|f: nat| f >= need(s, p0.from(), 6) implies self.yields(
                    g_fields(s, p0.from(), p0.names(), decls_tree(acc@), f),
                    decls_tree(acc@),
                ) by {
                }
            }
            return acc;
        }
        if self.check(TokenType::Semicolon) {
            self.advance();
            let ghost p1 = *self;
            proof {
                p1.lemma_here();
            }
            let r = self.parse_fields(acc);
            proof {
                assert forall|f: nat| f >= need(s, p0.from(), 6) implies self.yields(
                    g_fields(s, p0.from(), p0.names(), decls_tree(acc@), f),
                    decls_tree(r@),
                ) by {
                    assert(less(s, p1.from(), p0.from()));
                    assert(f >= need(s, p1.from(), 6));
                    assert(self.yields(g_fields(s, p1.from(), p1.names(), decls_tree(acc@), f), decls_tree(r@)));
                    assert(g_fields(s, p0.from(), p0.names(), decls_tree(acc@), f)
                        == g_fields(s, p1.from(), p1.names(), decls_tree(acc@), f));
                }
            }
            return r;
        }
        let x = self.parse_parameter();
        let ghost tx = decl_tree(x);
        let ghost p1 = *self;
        proof {
            p1.lemma_here();
        }
        let ghost before = acc@;
        let mut acc = acc;
        acc.push(x);
        proof {
            lemma_decls_tree_push(before, x);
        }
        self.expect_semicolon();
        let ghost p2 = *self;
        proof {
            p2.lemma_here();
        }
        let r = self.parse_fields(acc);
        proof {
            assert forall|f: nat| f >= need(s, p0.from(), 6) implies self.yields(
                g_fields(s, p0.from(), p0.names(), decls_tree(before), f),
                decls_tree(r@),
            ) by {
                assert((f - 1) as nat >= need(s, p0.from(), 5));
                assert(p1.yields(g_parameter(s, p0.from(), p0.names(), (f - 1) as nat), tx));
                assert(p2.from() == skip_if(s, p1.from(), TokenType::Semicolon));
                assert(less(s, p2.from(), p0.from()));
                assert(f >= need(s, p2.from(), 6));
                assert(self.yields(g_fields(s, p2.from(), p2.names(), decls_tree(acc@), f), decls_tree(r@)));
                assert(decls_tree(acc@) == decls_tree(before).push(tx));
            }
        }
        r
    }

    /// Parse type parameters: [T1, T2: *, ...]
    fn parse_type_params(&mut self) -> (r: Vec<Declaration>)
        requires
            old(self).wf(),
        ensures
            forall|f: nat|
                f >= need(old(self).lex().src(), old(self).from(), 5) ==> final(self).yields(
                    #[trigger] g_type_params(old(self).lex().src(), old(self).from(), old(self).names(), f),
                    decls_tree(r@),
                ),
            final(self).follows(old(self)),
        decreases old(self).measure(), 5nat,
    {
        let ghost p0 = *self;
        let ghost s = p0.lex().src();
        proof {
            p0.lemma_here();
        }
        proof {
            lemma_trees_empty();
        }
        let r = self.parse_type_params_from(Vec::new());
        proof {
            assert forall|f: nat| f >= need(s, p0.from(), 5) implies self.yields(
                g_type_params(s, p0.from(), p0.names(), f),
                decls_tree(r@),
            ) by {
                let g = (f - 1) as nat;
                assert(g >= need(s, p0.from(), 4));
                assert(self.yields(g_more_type_params(s, p0.from(), p0.names(), Seq::empty(), g), decls_tree(r@)));
                assert(g_type_params(s, p0.from(), p0.names(), f) == g_more_type_params(s, p0.from(), p0.names(), Seq::empty(), g));
            }
        }
        r
    }

    /// Type parameters after those in `acc`: a name, an optional type, and more after a comma.
    fn parse_type_params_from(&mut self, acc: Vec<Declaration>) -> (r: Vec<Declaration>)
        requires
            old(self).wf(),
        ensures
            forall|f: nat|
                f >= need(old(self).lex().src(), old(self).from(), 4) ==> final(self).yields(
                    #[trigger] g_more_type_params(old(self).lex().src(), old(self).from(), old(self).names(), decls_tree(acc@), f),
                    decls_tree(r@),
                ),
            final(self).follows(old(self)),
        decreases old(self).measure(), 4nat,
    {
        let ghost p0 = *self;
        let ghost s = p0.lex().src();
        proof {
            p0.lemma_here();
        }
        let name = self.intern_current();
        self.advance();
        let ghost p1 = *self;
        proof {
            p1.lemma_here();
        }
        let ghost mut p1b = p1;
        let dtype = if self.matches(TokenType::Colon) {
            proof {
                p1b = *self;
                self.lemma_here();
            }
            Some(self.parse_expression())
        } else {
            None
        };
        let ghost p2 = *self;
        proof {
            p2.lemma_here();
        }
        let ghost tdt = match &dtype {
            Some(t) => Some(Box::new(expr_tree(*t))),
            None => None,
        };
        let x = Declaration::new_var(Location::default(), name, dtype, None, true, CaptureAnnotation::Const);
        let ghost tx = decl_tree(x);
        proof {
            lemma_tree_basics();
            assert(tx == DeclTree::VarDecl {
                loc: default_loc(),
                name,
                dtype: tdt,
                vtype: None,
                initializer: None,
                is_parameter: true,
                capture: CaptureAnnotation::Const,
            });
        }
        let ghost before = acc@;
        let mut acc = acc;
        acc.push(x);
        proof {
            lemma_decls_tree_push(before, x);
        }
        if !self.matches(TokenType::Comma) {
            proof {
                assert forall|f: nat| f >= need(s, p0.from(), 4) implies self.yields(
                    g_more_type_params(s, p0.from(), p0.names(), decls_tree(before), f),
                    decls_tree(acc@),
                ) by {
                    lemma_tree_basics();
                    assert(p1.from() == next(s, p0.from()));
                    assert(name == intern_id(p0.names(), text_at(s, p0.from())));
                    assert(p1.names() == intern_names(p0.names(), text_at(s, p0.from())));
                    assert(kind_at(s, p2.from()) != TokenType::Comma);
                    if kind_at(s, p1.from()) == TokenType::Colon {
                        assert(p1b.from() == next(s, p1.from()));
                        assert((f - 1) as nat >= need(s, p1b.from(), 4));
                        assert(p2.yields(g_expression(s, p1b.from(), p1b.names(), (f - 1) as nat), *tdt.unwrap()));
                    } else {
                        assert(p2.from() == p1.from() && p2.names() == p1.names());
                    }
                    assert(tx == DeclTree::VarDecl {
                        loc: default_loc(),
                        name,
                        dtype: tdt,
                        vtype: None,
                        initializer: None,
                        is_parameter: true,
                        capture: CaptureAnnotation::Const,
                    });
                }
            }
            return acc;
        }
        let ghost p3 = *self;
        proof {
            p3.lemma_here();
        }
        let r = self.parse_type_params_from(acc);
        proof {
            assert forall|f: nat| f >= need(s, p0.from(), 4) implies self.yields(
                g_more_type_params(s, p0.from(), p0.names(), decls_tree(before), f),
                decls_tree(r@),
            ) by {
                lemma_tree_basics();
                assert(p1.from() == next(s, p0.from()));
                assert(name == intern_id(p0.names(), text_at(s, p0.from())));
                assert(p1.names() == intern_names(p0.names(), text_at(s, p0.from())));
                assert(p3.from() == next(s, p2.from()));
                if kind_at(s, p1.from()) == TokenType::Colon {
                    assert(p1b.from() == next(s, p1.from()));
                    assert((f - 1) as nat >= need(s, p1b.from(), 4));
                    assert(p2.yields(g_expression(s, p1b.from(), p1b.names(), (f - 1) as nat), *tdt.unwrap()));
                } else {
                    assert(p2.from() == p1.from() && p2.names() == p1.names());
                }
                assert(tx == DeclTree::VarDecl {
                    loc: default_loc(),
                    name,
                    dtype: tdt,
                    vtype: None,
                    initializer: None,
                    is_parameter: true,
                    capture: CaptureAnnotation::Const,
                });
                assert(less(s, p3.from(), p0.from()));
                assert(f >= need(s, p3.from(), 4));
                assert(self.yields(g_more_type_params(s, p3.from(), p3.names(), decls_tree(acc@), f), decls_tree(r@)));
            }
        }
        r
    }

    /// Parse a let expression: let name [:type] := value (the body is the unit literal).
    #[verifier::rlimit(100)]
    #[verifier::spinoff_prover]
    fn parse_let(&mut self, name: Option<Id>) -> (r: Expression)
        requires
            old(self).wf(),
        ensures
            forall|f: nat|
                f >= need(old(self).lex().src(), old(self).from(), 5) ==> final(self).yields(
                    #[trigger] g_let(old(self).lex().src(), old(self).from(), old(self).names(), name, f),
                    expr_tree(r),
                ),
            final(self).follows(old(self)),
        decreases old(self).measure(), 5nat,
    {
        let ghost p0 = *self;
        let ghost s = p0.lex().src();
        proof {
            p0.lemma_here();
        }
        let ghost given = name;
        let loc = self.cur_location();
        let name = match name {
            Some(n) => n,
            None => {
                let n = self.intern_current();
                self.advance();
                n
            },
        };
        let ghost p1 = *self;
        proof {
            p1.lemma_here();
        }
        // Optional type annotation
        let ghost mut p2 = p1;
        let type_ann = if self.matches(TokenType::Colon) {
            proof {
                p2 = *self;
                self.lemma_here();
            }
            Some(self.parse_expression())
        } else {
            None
        };
        let ghost tta = match &type_ann {
            Some(t) => Some(Box::new(expr_tree(*t))),
            None => None,
        };
        let ghost p3 = *self;
        proof {
            p3.lemma_here();
        }
        // Assignment
        let _ = self.expect(TokenType::Assign);
        let ghost p4 = *self;
        proof {
            p4.lemma_here();
        }
        let value = self.parse_expression();
        let ghost tv = expr_tree(value);
        let ghost gta = type_ann;
        let unit = Expression::new_literal(Location::default(), LiteralValue::Unit);
        let ghost gu = unit;
        proof {
            lemma_tree_basics();
            assert(expr_tree(gu) == unit_tree());
        }
        let r = Expression::new_let(loc, name, type_ann, value, unit);
        proof {
            lemma_tree_basics();
            assert(expr_tree(r) == ExprTree::Let {
                loc,
                name,
                type_ann: opt_expr_tree(match gta {
                    Some(t) => Some(Box::new(t)),
                    None => None,
                }),
                value: Box::new(tv),
                body: Box::new(expr_tree(gu)),
            });
            match gta {
                Some(e) => {
                    assert(opt_expr_tree(Some(Box::new(e))) == Some(Box::new(expr_tree(e))));
                },
                None => {},
            }
            assert(expr_tree(r) == ExprTree::Let {
                loc,
                name,
                type_ann: tta,
                value: Box::new(tv),
                body: Box::new(unit_tree()),
            });
            assert forall|f: nat| f >= need(s, p0.from(), 5) implies self.yields(
                g_let(s, p0.from(), p0.names(), given, f),
                expr_tree(r),
            ) by {
                let g = (f - 1) as nat;
                lemma_tree_basics();
                if kind_at(s, p1.from()) == TokenType::Colon {
                    assert(g >= need(s, p2.from(), 4));
                    assert(p3.yields(g_expression(s, p2.from(), p2.names(), g), *tta.unwrap()));
                } else {
                    assert(p3.from() == p1.from() && p3.names() == p1.names());
                }
                assert(p4.from() == skip_if(s, p3.from(), TokenType::Assign));
                assert(g >= need(s, p4.from(), 4));
                assert(self.yields(g_expression(s, p4.from(), p4.names(), g), tv));
            }
        }
        r
    }

    /// Parse an if expression: if cond then e1 else e2
    #[verifier::rlimit(100)]
    #[verifier::spinoff_prover]
    fn parse_if_expr(&mut self) -> (r: Expression)
        requires
            old(self).wf(),
        ensures
            forall|f: nat|
                f >= need(old(self).lex().src(), old(self).from(), 5) ==> final(self).yields(
                    #[trigger] g_if(old(self).lex().src(), old(self).from(), old(self).names(), f),
                    expr_tree(r),
                ),
            final(self).follows(old(self)),
            r matches Expression::IfThenElse { loc, .. } && loc == token_loc(old(self).cur()),
        decreases old(self).measure(), 5nat,
    {
        let ghost p0 = *self;
        let ghost s = p0.lex().src();
        proof {
            p0.lemma_here();
        }
        let loc = self.cur_location();
        let cond = self.parse_expression();
        let ghost p1 = *self;
        proof {
            p1.lemma_here();
        }
        // `then` is optional, can also use { }
        let _ = self.matches(TokenType::KwThen);
        let ghost p2 = *self;
        proof {
            p2.lemma_here();
        }
        let then_br = if self.check(TokenType::LBrace) {
            self.parse_compound()
        } else {
            self.parse_expression()
        };
        let ghost p3 = *self;
        proof {
            p3.lemma_here();
        }
        let has_else = self.matches(TokenType::KwElse);
        let ghost p4 = *self;
        proof {
            p4.lemma_here();
        }
        let ghost mut p5 = p4;
        let else_br = if has_else {
            if self.check(TokenType::KwIf) {
                self.advance();
                proof {
                    p5 = *self;
                    self.lemma_here();
                }
                Some(self.parse_if_expr())
            } else if self.check(TokenType::LBrace) {
                Some(self.parse_compound())
            } else {
                Some(self.parse_expression())
            }
        } else {
            None
        };
        let ghost tc = expr_tree(cond);
        let ghost tt = expr_tree(then_br);
        let ghost te = match &else_br {
            Some(e) => Some(Box::new(expr_tree(*e))),
            None => None,
        };
        let ghost geb = else_br;
        let r = Expression::new_if(loc, cond, then_br, else_br);
        proof {
            lemma_tree_basics();
            match geb {
                Some(e) => {
                    assert(opt_expr_tree(Some(Box::new(e))) == Some(Box::new(expr_tree(e))));
                },
                None => {},
            }
            assert(expr_tree(r) == ExprTree::IfThenElse {
                loc,
                condition: Box::new(tc),
                then_branch: Box::new(tt),
                else_branch: te,
            });
            assert(loc == loc_at(s, p0.from()));
            assert(p2.from() == skip_if(s, p1.from(), TokenType::KwThen));
            assert(has_else == (kind_at(s, p3.from()) == TokenType::KwElse));
            assert forall|f: nat| f >= need(s, p0.from(), 5) implies self.yields(
                g_if(s, p0.from(), p0.names(), f),
                expr_tree(r),
            ) by {
                let g = (f - 1) as nat;
                assert(g >= need(s, p0.from(), 4));
                assert(p1.yields(g_expression(s, p0.from(), p0.names(), g), tc));
                assert(g >= need(s, p2.from(), 4));
                if kind_at(s, p2.from()) == TokenType::LBrace {
                    assert(p3.yields(g_compound(s, p2.from(), p2.names(), g), tt));
                } else {
                    assert(p3.yields(g_expression(s, p2.from(), p2.names(), g), tt));
                }
                assert(g >= need(s, p4.from(), 4));
                if has_else {
                    assert(p4.from() == next(s, p3.from()));
                    if kind_at(s, p4.from()) == TokenType::KwIf {
                        assert(p5.from() == next(s, p4.from()));
                        assert(g >= need(s, p5.from(), 5));
                        assert(self.yields(g_if(s, p5.from(), p5.names(), g), *te.unwrap()));
                    } else if kind_at(s, p4.from()) == TokenType::LBrace {
                        assert(self.yields(g_compound(s, p4.from(), p4.names(), g), *te.unwrap()));
                    } else {
                        assert(self.yields(g_expression(s, p4.from(), p4.names(), g), *te.unwrap()));
                    }
                } else {
                    assert(te is None);
                }
            }
        }
        r
    }

    /// Parse a for loop expression.
    fn parse_for_expr(&mut self) -> (r: Expression)
        requires
            old(self).wf(),
        ensures
            forall|f: nat|
                f >= need(old(self).lex().src(), old(self).from(), 5) ==> final(self).yields(
                    #[trigger] g_for(old(self).lex().src(), old(self).from(), old(self).names(), f),
                    expr_tree(r),
                ),
            final(self).follows(old(self)),
        decreases old(self).measure(), 5nat,
    {
        let ghost p0 = *self;
        let ghost s = p0.lex().src();
        proof {
            p0.lemma_here();
        }
        let loc = self.cur_location();
        let var = self.intern_current();
        self.advance();
        let ghost p1 = *self;
        proof {
            p1.lemma_here();
        }
        let _ = self.expect(TokenType::KwIn);
        let ghost p2 = *self;
        proof {
            p2.lemma_here();
        }
        let iterable = self.parse_expression();
        let ghost ti = expr_tree(iterable);
        let ghost p3 = *self;
        proof {
            p3.lemma_here();
        }
        let ghost mut p4 = p3;
        let body = if self.check(TokenType::LBrace) {
            self.parse_compound()
        } else {
            let _ = self.matches(TokenType::KwDo);
            proof {
                p4 = *self;
                self.lemma_here();
            }
            self.parse_expression()
        };
        let ghost tb = expr_tree(body);
        let r = Expression::ForLoop { loc, variable: var, iterable: Box::new(iterable), body: Box::new(body) };
        proof {
            assert forall|f: nat| f >= need(s, p0.from(), 5) implies self.yields(
                g_for(s, p0.from(), p0.names(), f),
                expr_tree(r),
            ) by {
                let g = (f - 1) as nat;
                assert(p2.from() == skip_if(s, p1.from(), TokenType::KwIn));
                assert(g >= need(s, p2.from(), 4));
                assert(p3.yields(g_expression(s, p2.from(), p2.names(), g), ti));
                if kind_at(s, p3.from()) == TokenType::LBrace {
                    assert(g >= need(s, p3.from(), 1));
                    assert(self.yields(g_compound(s, p3.from(), p3.names(), g), tb));
                } else {
                    assert(p4.from() == skip_if(s, p3.from(), TokenType::KwDo));
                    assert(g >= need(s, p4.from(), 4));
                    assert(self.yields(g_expression(s, p4.from(), p4.names(), g), tb));
                }
            }
        }
        r
    }

    /// Parse a while loop expression.
    fn parse_while_expr(&mut self) -> (r: Expression)
        requires
            old(self).wf(),
        ensures
            forall|f: nat|
                f >= need(old(self).lex().src(), old(self).from(), 5) ==> final(self).yields(
                    #[trigger] g_while(old(self).lex().src(), old(self).from(), old(self).names(), f),
                    expr_tree(r),
                ),
            final(self).follows(old(self)),
        decreases old(self).measure(), 5nat,
    {
        let ghost p0 = *self;
        let ghost s = p0.lex().src();
        proof {
            p0.lemma_here();
        }
        let loc = self.cur_location();
        let cond = self.parse_expression();
        let ghost tc = expr_tree(cond);
        let ghost p3 = *self;
        proof {
            p3.lemma_here();
        }
        let ghost mut p4 = p3;
        let body = if self.check(TokenType::LBrace) {
            self.parse_compound()
        } else {
            let _ = self.matches(TokenType::KwDo);
            proof {
                p4 = *self;
                self.lemma_here();
            }
            self.parse_expression()
        };
        let ghost tb = expr_tree(body);
        let r = Expression::WhileLoop { loc, condition: Box::new(cond), body: Box::new(body) };
        proof {
            assert forall|f: nat| f >= need(s, p0.from(), 5) implies self.yields(
                g_while(s, p0.from(), p0.names(), f),
                expr_tree(r),
            ) by {
                let g = (f - 1) as nat;
                assert(g >= need(s, p0.from(), 4));
                assert(p3.yields(g_expression(s, p0.from(), p0.names(), g), tc));
                if kind_at(s, p3.from()) == TokenType::LBrace {
                    assert(g >= need(s, p3.from(), 1));
                    assert(self.yields(g_compound(s, p3.from(), p3.names(), g), tb));
                } else {
                    assert(p4.from() == skip_if(s, p3.from(), TokenType::KwDo));
                    assert(g >= need(s, p4.from(), 4));
                    assert(self.yields(g_expression(s, p4.from(), p4.names(), g), tb));
                }
            }
        }
        r
    }

    /// Parse a repeat expression.
    fn parse_repeat_expr(&mut self) -> (r: Expression)
        requires
            old(self).wf(),
        ensures
            forall|f: nat|
                f >= need(old(self).lex().src(), old(self).from(), 5) ==> final(self).yields(
                    #[trigger] g_repeat(old(self).lex().src(), old(self).from(), old(self).names(), f),
                    expr_tree(r),
                ),
            final(self).follows(old(self)),
        decreases old(self).measure(), 5nat,
    {
        let ghost p0 = *self;
        let ghost s = p0.lex().src();
        proof {
            p0.lemma_here();
        }
        let loc = self.cur_location();
        let count = self.parse_expression();
        let ghost tc = expr_tree(count);
        let ghost p3 = *self;
        proof {
            p3.lemma_here();
        }
        let body = self.parse_compound();
        let ghost tb = expr_tree(body);
        let r = Expression::Repeat { loc, count: Box::new(count), body: Box::new(body) };
        proof {
            assert forall|f: nat| f >= need(s, p0.from(), 5) implies self.yields(
                g_repeat(s, p0.from(), p0.names(), f),
                expr_tree(r),
            ) by {
                let g = (f - 1) as nat;
                assert(g >= need(s, p0.from(), 4));
                assert(p3.yields(g_expression(s, p0.from(), p0.names(), g), tc));
                assert(g >= need(s, p3.from(), 1));
                assert(self.yields(g_compound(s, p3.from(), p3.names(), g), tb));
            }
        }
        r
    }

    /// Parse a with expression (quantum-controlled execution).
    fn parse_with_expr(&mut self) -> (r: Expression)
        requires
            old(self).wf(),
        ensures
            forall|f: nat|
                f >= need(old(self).lex().src(), old(self).from(), 5) ==> final(self).yields(
                    #[trigger] g_with(old(self).lex().src(), old(self).from(), old(self).names(), f),
                    expr_tree(r),
                ),
            final(self).follows(old(self)),
        decreases old(self).measure(), 5nat,
    {
        let ghost p0 = *self;
        let ghost s = p0.lex().src();
        proof {
            p0.lemma_here();
        }
        let loc = self.cur_location();
        let controller = self.parse_expression();
        let ghost tc = expr_tree(controller);
        let ghost p3 = *self;
        proof {
            p3.lemma_here();
        }
        let _ = self.expect(TokenType::KwDo);
        let ghost p4 = *self;
        proof {
            p4.lemma_here();
        }
        let body = self.parse_compound();
        let ghost tb = expr_tree(body);
        let r = Expression::With { loc, controller: Box::new(controller), body: Box::new(body) };
        proof {
            assert forall|f: nat| f >= need(s, p0.from(), 5) implies self.yields(
                g_with(s, p0.from(), p0.names(), f),
                expr_tree(r),
            ) by {
                let g = (f - 1) as nat;
                assert(g >= need(s, p0.from(), 4));
                assert(p3.yields(g_expression(s, p0.from(), p0.names(), g), tc));
                assert(p4.from() == skip_if(s, p3.from(), TokenType::KwDo));
                assert(g >= need(s, p4.from(), 1));
                assert(self.yields(g_compound(s, p4.from(), p4.names(), g), tb));
            }
        }
        r
    }

    /// Parse a lambda expression: λ(const x1: τ1, ...). body
    #[verifier::rlimit(100)]
    #[verifier::spinoff_prover]
    fn parse_lambda(&mut self, loc: Location) -> (r: Expression)
        requires
            old(self).wf(),
        ensures
            forall|f: nat|
                f >= need(old(self).lex().src(), old(self).from(), 7) ==> final(self).yields(
                    #[trigger] g_lambda(old(self).lex().src(), old(self).from(), old(self).names(), loc, f),
                    expr_tree(r),
                ),
            final(self).follows(old(self)),
        decreases old(self).measure(), 7nat,
    {
        let ghost p0 = *self;
        let ghost s = p0.lex().src();
        proof {
            p0.lemma_here();
        }
        // Parse parameters: (const x1: τ1, ..., const xn: τn)
        let params = self.parse_lambda_params();
        let ghost p1 = *self;
        proof {
            p1.lemma_here();
        }
        let annotation = self.parse_annotation();
        let ghost p2 = *self;
        proof {
            p2.lemma_here();
        }
        // Body separator: `.` block, `=>` expr, or `{` block
        let ghost mut p3 = p2;
        let body = if self.matches(TokenType::Dot) {
            proof {
                p3 = *self;
                self.lemma_here();
            }
            if self.check(TokenType::LBrace) {
                self.parse_compound()
            } else {
                self.parse_expression()
            }
        } else if self.matches(TokenType::FatArrow) {
            proof {
                p3 = *self;
                self.lemma_here();
            }
            self.parse_expression()
        } else if self.check(TokenType::LBrace) {
            self.parse_compound()
        } else {
            self.parse_expression()
        };
        let ghost tb = expr_tree(body);
        let ghost tp = exprs_tree(params@);
        let ghost ann = annotation;
        let r = Expression::new_lambda(loc, params, body, annotation);
        proof {
            assert(expr_tree(r) == ExprTree::Lambda { loc, params: tp, body: Box::new(tb), annotation: ann });
            assert(ann == annotation_of(kind_at(s, p1.from())));
            if ann != Annotation::NoAnnotation {
                assert(p2.from() == next(s, p1.from()));
            } else {
                assert(p2.from() == p1.from());
            }
            assert(p2.names() == p1.names());
            assert forall|f: nat| f >= need(s, p0.from(), 7) implies self.yields(
                g_lambda(s, p0.from(), p0.names(), loc, f),
                expr_tree(r),
            ) by {
                let g = (f - 1) as nat;
                assert(g >= need(s, p0.from(), 6));
                assert(p1.yields(g_lambda_params(s, p0.from(), p0.names(), g), tp));
                assert(g >= need(s, p2.from(), 4));
                assert(g >= need(s, p3.from(), 4));
                let k = kind_at(s, p2.from());
                if k == TokenType::Dot || k == TokenType::FatArrow {
                    assert(p3.from() == next(s, p2.from()) && p3.names() == p2.names());
                } else {
                    assert(p3.from() == p2.from() && p3.names() == p2.names());
                }
                if k == TokenType::Dot && kind_at(s, p3.from()) == TokenType::LBrace {
                    assert(self.yields(g_compound(s, p3.from(), p3.names(), g), tb));
                } else if k == TokenType::Dot || k == TokenType::FatArrow {
                    assert(self.yields(g_expression(s, p3.from(), p3.names(), g), tb));
                } else if k == TokenType::LBrace {
                    assert(self.yields(g_compound(s, p2.from(), p2.names(), g), tb));
                } else {
                    assert(self.yields(g_expression(s, p2.from(), p2.names(), g), tb));
                }
            }
        }
        r
    }

    /// Parse lambda parameter list: (const x1: τ1, ...), or one bare name.
    fn parse_lambda_params(&mut self) -> (r: Vec<Expression>)
        requires
            old(self).wf(),
        ensures
            forall|f: nat|
                f >= need(old(self).lex().src(), old(self).from(), 6) ==> final(self).yields(
                    #[trigger] g_lambda_params(old(self).lex().src(), old(self).from(), old(self).names(), f),
                    exprs_tree(r@),
                ),
            final(self).follows(old(self)),
        decreases old(self).measure(), 6nat,
    {
        let ghost p0 = *self;
        let ghost s = p0.lex().src();
        proof {
            p0.lemma_here();
        }
        if !self.check(TokenType::LParen) {
            // Single untyped parameter without parens: λx. body
            if self.check(TokenType::Identifier) {
                let name = self.intern_current();
                let loc = self.cur_location();
                self.advance();
                let x = Expression::new_identifier(loc, name);
                let mut v = Vec::new();
                v.push(x);
                proof {
                    assert(v@ =~= seq![x]);
                    lemma_exprs_tree_single(x);
                    self.lemma_here();
                    lemma_tree_basics();
                    assert(expr_tree(x) == ident(loc_at(s, p0.from()), intern_id(p0.names(), text_at(s, p0.from()))));
                    assert forall|f: nat| f >= need(s, p0.from(), 6) implies self.yields(
                        g_lambda_params(s, p0.from(), p0.names(), f),
                        exprs_tree(v@),
                    ) by {
                        assert(self.from() == next(s, p0.from()));
                    }
                }
                return v;
            }
            let r = Vec::new();
            proof {
                lemma_trees_empty();
                assert forall|f: nat| f >= need(s, p0.from(), 6) implies self.yields(
                    g_lambda_params(s, p0.from(), p0.names(), f),
                    exprs_tree(r@),
                ) by {
                }
            }
            return r;
        }
        self.advance();  // skip (
        let ghost p1 = *self;
        proof {
            p1.lemma_here();
        }
        let ghost mut p2 = p1;
        let ghost mut tx = unit_tree();
        let params = if self.check(TokenType::RParen) {
            proof {
                lemma_trees_empty();
            }
            Vec::new()
        } else {
            let first = self.parse_lambda_param();
            proof {
                p2 = *self;
                tx = expr_tree(first);
                self.lemma_here();
            }
            let mut v = Vec::new();
            v.push(first);
            proof {
                assert(v@ =~= seq![first]);
                lemma_exprs_tree_single(first);
            }
            self.parse_more_lambda_params(v)
        };
        let ghost p3 = *self;
        proof {
            p3.lemma_here();
        }
        let _ = self.expect(TokenType::RParen);
        proof {
            self.lemma_here();
            assert forall|f: nat| f >= need(s, p0.from(), 6) implies self.yields(
                g_lambda_params(s, p0.from(), p0.names(), f),
                exprs_tree(params@),
            ) by {
                let g = (f - 1) as nat;
                if kind_at(s, p1.from()) != TokenType::RParen {
                    assert(g >= need(s, p1.from(), 5));
                    assert(p2.yields(g_lambda_param(s, p1.from(), p1.names(), g), tx));
                    assert(g >= need(s, p2.from(), 1));
                    assert(p3.yields(g_more_lambda_params(s, p2.from(), p2.names(), seq![tx], g), exprs_tree(params@)));
                } else {
                    assert(p3.from() == p1.from() && p3.names() == p1.names());
                    assert(exprs_tree(params@) == Seq::<ExprTree>::empty());
                }
                assert(self.from() == skip_if(s, p3.from(), TokenType::RParen));
            }
        }
        params
    }

    /// More lambda parameters: while a comma follows, the next one, unless `)` comes right after it.
    fn parse_more_lambda_params(&mut self, acc: Vec<Expression>) -> (r: Vec<Expression>)
        requires
            old(self).wf(),
        ensures
            forall|f: nat|
                f >= need(old(self).lex().src(), old(self).from(), 1) ==> final(self).yields(
                    #[trigger] g_more_lambda_params(old(self).lex().src(), old(self).from(), old(self).names(), exprs_tree(acc@), f),
                    exprs_tree(r@),
                ),
            final(self).follows(old(self)),
        decreases old(self).measure(), 1nat,
    {
        let ghost p0 = *self;
        let ghost s = p0.lex().src();
        proof {
            p0.lemma_here();
        }
        if !self.matches(TokenType::Comma) {
            proof {
                self.lemma_here();
                assert forall|f: nat| f >= need(s, p0.from(), 1) implies self.yields(
                    g_more_lambda_params(s, p0.from(), p0.names(), exprs_tree(acc@), f),
                    exprs_tree(acc@),
                ) by {
                }
            }
            return acc;
        }
        let ghost p1 = *self;
        proof {
            p1.lemma_here();
        }
        if self.check(TokenType::RParen) {
            proof {
                self.lemma_here();
                assert forall|f: nat| f >= need(s, p0.from(), 1) implies self.yields(
                    g_more_lambda_params(s, p0.from(), p0.names(), exprs_tree(acc@), f),
                    exprs_tree(acc@),
                ) by {
                }
            }
            return acc;
        }
        let x = self.parse_lambda_param();
        let ghost tx = expr_tree(x);
        let ghost before = acc@;
        let mut acc = acc;
        acc.push(x);
        proof {
            lemma_exprs_tree_push(before, x);
        }
        let ghost p2 = *self;
        proof {
            p2.lemma_here();
        }
        let r = self.parse_more_lambda_params(acc);
        proof {
            assert forall|f: nat| f >= need(s, p0.from(), 1) implies self.yields(
                g_more_lambda_params(s, p0.from(), p0.names(), exprs_tree(before), f),
                exprs_tree(r@),
            ) by {
                assert((f - 1) as nat >= need(s, p1.from(), 5));
                assert(p2.yields(g_lambda_param(s, p1.from(), p1.names(), (f - 1) as nat), tx));
                assert(less(s, p2.from(), p0.from()));
                assert(f >= need(s, p2.from(), 1));
                assert(self.yields(g_more_lambda_params(s, p2.from(), p2.names(), exprs_tree(acc@), f), exprs_tree(r@)));
                assert(exprs_tree(acc@) == exprs_tree(before).push(tx));
            }
        }
        r
    }

    /// Parse a single lambda parameter: [const] name [: type] (the type is read and dropped).
    fn parse_lambda_param(&mut self) -> (r: Expression)
        requires
            old(self).wf(),
        ensures
            forall|f: nat|
                f >= need(old(self).lex().src(), old(self).from(), 5) ==> final(self).yields(
                    #[trigger] g_lambda_param(old(self).lex().src(), old(self).from(), old(self).names(), f),
                    expr_tree(r),
                ),
            final(self).progressed(old(self)),
        decreases old(self).measure(), 5nat,
    {
        let ghost p0 = *self;
        let ghost s = p0.lex().src();
        proof {
            p0.lemma_here();
        }
        // Skip const annotation for lambda params
        if self.check(TokenType::KwConst) {
            self.advance();
        }
        let ghost p1 = *self;
        proof {
            p1.lemma_here();
        }
        let name = self.intern_current();
        let loc = self.cur_location();
        self.advance();
        let ghost p2 = *self;
        proof {
            p2.lemma_here();
        }
        // Optional type annotation -- parsed but attached via name resolution later
        let ghost mut p3 = p2;
        let ghost mut tty: ExprTree = arbitrary();
        if self.matches(TokenType::Colon) {
            proof {
                p3 = *self;
                self.lemma_here();
            }
            let _type_expr = self.parse_expression();
            proof {
                tty = expr_tree(_type_expr);
            }
        }
        let r = Expression::new_identifier(loc, name);
        proof {
            lemma_tree_basics();
            assert(p1.from() == skip_if(s, p0.from(), TokenType::KwConst));
            assert(p1.names() == p0.names());
            assert(loc == loc_at(s, p1.from()));
            assert(name == intern_id(p0.names(), text_at(s, p1.from())));
            assert(p2.from() == next(s, p1.from()));
            assert(p2.names() == intern_names(p0.names(), text_at(s, p1.from())));
            assert(expr_tree(r) == ident(loc, name));
            assert forall|f: nat| f >= need(s, p0.from(), 5) implies self.yields(
                g_lambda_param(s, p0.from(), p0.names(), f),
                expr_tree(r),
            ) by {
                if kind_at(s, p2.from()) == TokenType::Colon {
                    assert(p3.from() == next(s, p2.from()));
                    assert((f - 1) as nat >= need(s, p3.from(), 4));
                    assert(self.yields(g_expression(s, p3.from(), p3.names(), (f - 1) as nat), tty));
                }
            }
        }
        r
    }



    // ---- Infix parsing (led - left denotation) ----

    /// Parse an infix expression: left op right.
    #[verifier::rlimit(100)]
    #[verifier::spinoff_prover]
    fn infix(&mut self, left: Expression, op: TokenType, loc: Location) -> (r: Expression)
        requires
            old(self).wf(),
        ensures
            forall|f: nat|
                f >= need(old(self).lex().src(), old(self).from(), 5) ==> final(self).yields(
                    #[trigger] g_infix(old(self).lex().src(), old(self).from(), old(self).names(), expr_tree(left), op, loc, f),
                    expr_tree(r),
                ),
            final(self).progressed(old(self)),
            // where the right operand stops (see `infix_stops_at`)
            infix_stops_at(op, final(self).cur().ty),
        decreases old(self).measure(), 5nat,
    {
        let ghost p0 = *self;
        let ghost s = p0.lex().src();
        let ghost lt = expr_tree(left);
        proof {
            p0.lemma_here();
        }
        match op {
            // Type annotations
            TokenType::Colon | TokenType::KwAs | TokenType::KwCoerce | TokenType::KwPun => {
                let ty = self.parse_expression();
                let kind = match op {
                    TokenType::Colon => TypeAnnotationKind::Colon,
                    TokenType::KwAs => TypeAnnotationKind::As,
                    TokenType::KwCoerce => TypeAnnotationKind::Coerce,
                    _ => TypeAnnotationKind::Pun,
                };
                let r = Expression::TypeAnnotation { loc, expr: Box::new(left), ty: Box::new(ty), kind };
                proof {
                    assert forall|f: nat| f >= need(s, p0.from(), 5) implies self.yields(
                        g_infix(s, p0.from(), p0.names(), lt, op, loc, f),
                        expr_tree(r),
                    ) by {
                        let g = (f - 1) as nat;
                        assert(g >= need(s, p0.from(), 4));
                        assert(self.yields(g_expression(s, p0.from(), p0.names(), g), expr_tree(ty)));
                    }
                }
                r
            },
            // Arrow type: A -> B
            TokenType::Arrow => {
                let right = self.parse_expression_precedence(get_lbp(op));
                let params: Vec<Expression> = Vec::new();
                proof {
                    assert(exprs_tree(params@) =~= Seq::<ExprTree>::empty());
                }
                let ghost tr = expr_tree(right);
                let kind = TypeKind::Product {
                    params,
                    domain: Box::new(left),
                    codomain: Box::new(right),
                    annotation: Annotation::NoAnnotation,
                };
                let ghost gk = kind;
                let r = Expression::Type { loc: Location::default(), kind };
                proof {
                    assert(kind_tree(gk) == KindTree::Product {
                        params: Seq::empty(),
                        domain: Box::new(lt),
                        codomain: Box::new(tr),
                        annotation: Annotation::NoAnnotation,
                    });
                    assert(expr_tree(r) == ExprTree::Type { loc: default_loc(), kind: kind_tree(gk) });
                    assert forall|f: nat| f >= need(s, p0.from(), 5) implies self.yields(
                        g_infix(s, p0.from(), p0.names(), lt, op, loc, f),
                        expr_tree(r),
                    ) by {
                        let g = (f - 1) as nat;
                        assert(g >= need(s, p0.from(), 3));
                        assert(self.yields(g_pep(s, p0.from(), p0.names(), spec_lbp(op), g), expr_tree(right)));
                    }
                }
                r
            },
            // Conditional: cond ? then_br else
            TokenType::Question => {
                let then_br = self.parse_expression();
                let ghost p1 = *self;
                proof {
                    p1.lemma_here();
                }
                let _ = self.expect(TokenType::KwElse);
                let ghost p2 = *self;
                proof {
                    p2.lemma_here();
                }
                let else_br = self.parse_expression();
                let ghost tt = expr_tree(then_br);
                let ghost ge = else_br;
                let r = Expression::new_if(loc, left, then_br, Some(else_br));
                proof {
                    lemma_tree_basics();
                    assert(opt_expr_tree(Some(Box::new(ge))) == Some(Box::new(expr_tree(ge))));
                    assert(expr_tree(r) == ExprTree::IfThenElse {
                        loc,
                        condition: Box::new(lt),
                        then_branch: Box::new(tt),
                        else_branch: Some(Box::new(expr_tree(ge))),
                    });
                    assert forall|f: nat| f >= need(s, p0.from(), 5) implies self.yields(
                        g_infix(s, p0.from(), p0.names(), lt, op, loc, f),
                        expr_tree(r),
                    ) by {
                        let g = (f - 1) as nat;
                        lemma_tree_basics();
                        assert(g >= need(s, p0.from(), 4));
                        assert(g >= need(s, p2.from(), 4));
                        assert(p1.yields(g_expression(s, p0.from(), p0.names(), g), expr_tree(then_br)));
                        assert(skip_if(s, p1.from(), TokenType::KwElse) == p2.from());
                        assert(p2.names() == p1.names());
                        assert(self.yields(g_expression(s, p2.from(), p2.names(), g), expr_tree(else_br)));
                    }
                }
                r
            },
            // Function call: f(args)
            TokenType::LParen => {
                let args = self.parse_call_args();
                let ghost p1 = *self;
                proof {
                    p1.lemma_here();
                }
                let _ = self.expect(TokenType::RParen);
                let r = Expression::new_call(loc, left, args);
                proof {
                    self.lemma_here();
                    if p0.cur().ty == TokenType::RParen {
                        assert(p1.cur().ty == TokenType::RParen);
                        assert(self.measure() < p1.measure());
                    }
                    assert forall|f: nat| f >= need(s, p0.from(), 5) implies self.yields(
                        g_infix(s, p0.from(), p0.names(), lt, op, loc, f),
                        expr_tree(r),
                    ) by {
                        let g = (f - 1) as nat;
                        lemma_tree_basics();
                        assert(g >= need(s, p0.from(), 4));
                        assert(p1.yields(g_call_args(s, p0.from(), p0.names(), g), exprs_tree(args@)));
                        assert(skip_if(s, p1.from(), TokenType::RParen) == self.from());
                    }
                }
                r
            },
            // Index: e[i]
            TokenType::LBracket => {
                let index = self.parse_expression();
                let ghost p1 = *self;
                proof {
                    p1.lemma_here();
                }
                let _ = self.expect(TokenType::RBracket);
                let r = Expression::Index { loc, expr: Box::new(left), index: Box::new(index) };
                proof {
                    assert forall|f: nat| f >= need(s, p0.from(), 5) implies self.yields(
                        g_infix(s, p0.from(), p0.names(), lt, op, loc, f),
                        expr_tree(r),
                    ) by {
                        let g = (f - 1) as nat;
                        assert(g >= need(s, p0.from(), 4));
                        assert(p1.yields(g_expression(s, p0.from(), p0.names(), g), expr_tree(index)));
                    }
                }
                r
            },
            // Field access: e.name
            TokenType::Dot => {
                let field = self.intern_current();
                self.advance();
                Expression::Field { loc, expr: Box::new(left), field }
            },
            // Assignment: x := y, x ← y, x += y, ...
            TokenType::Assign | TokenType::LeftArrow | TokenType::PlusAssign | TokenType::MinusAssign
            | TokenType::MulAssign | TokenType::DivAssign | TokenType::ModAssign => {
                let value = self.parse_expression_precedence(precedence::ASSIGN);
                let ghost tv = expr_tree(value);
                let target_name = match &left {
                    Expression::Identifier { name, .. } => Some(*name),
                    _ => None,
                };
                let r = if op == TokenType::Assign && target_name.is_some() {
                    let name = target_name.unwrap();
                    let target = Expression::Identifier {
                        loc: Location::default(),
                        name,
                        meaning: None,
                        classical: false,
                    };
                    let ghost gt = target;
                    let r = Expression::new_let(loc, name, None, value, target);
                    proof {
                        lemma_tree_basics();
                        assert(expr_tree(gt) == ident(default_loc(), name));
                        assert(expr_tree(r) == ExprTree::Let {
                            loc,
                            name,
                            type_ann: opt_expr_tree(None),
                            value: Box::new(tv),
                            body: Box::new(expr_tree(gt)),
                        });
                    }
                    r
                } else {
                    Expression::Assign { loc, target: Box::new(left), value: Box::new(value) }
                };
                proof {
                    assert forall|f: nat| f >= need(s, p0.from(), 5) implies self.yields(
                        g_infix(s, p0.from(), p0.names(), lt, op, loc, f),
                        expr_tree(r),
                    ) by {
                        let g = (f - 1) as nat;
                        lemma_tree_basics();
                        assert(g >= need(s, p0.from(), 3));
                        assert(self.yields(g_pep(s, p0.from(), p0.names(), precedence::ASSIGN, g), tv));
                        if op == TokenType::Assign && target_name.is_some() {
                            assert(expr_tree(r) == ExprTree::Let {
                                loc,
                                name: target_name.unwrap(),
                                type_ann: None,
                                value: Box::new(tv),
                                body: Box::new(ident(default_loc(), target_name.unwrap())),
                            });
                        }
                    }
                }
                r
            },
            // Binary operators group to the left: the right operand takes only
            // operators that bind more tightly
            _ => {
                proof {
                    lemma_lbp_range(op);
                }
                let right = self.parse_expression_precedence(get_lbp(op) + 1);
                let r = Expression::new_binary(loc, op, left, right);
                proof {
                    assert forall|f: nat| f >= need(s, p0.from(), 5) implies self.yields(
                        g_infix(s, p0.from(), p0.names(), lt, op, loc, f),
                        expr_tree(r),
                    ) by {
                        let g = (f - 1) as nat;
                        assert(g >= need(s, p0.from(), 3));
                        assert(self.yields(g_pep(s, p0.from(), p0.names(), (spec_lbp(op) + 1) as u8, g), expr_tree(right)));
                    }
                }
                r
            },
        }
    }

    // ---- Main expression parsing ----

    /// Parse an expression with the given minimum precedence: the tree that
    /// the grammar (`g_pep`) gives, in which operators of equal strength
    /// group to the left.  The parse stops at the first token that binds
    /// less tightly than `min_bp` (or not at all).
    pub fn parse_expression_precedence(&mut self, min_bp: u8) -> (r: Expression)
        requires
            old(self).wf(),
        ensures
            forall|f: nat|
                f >= need(old(self).lex().src(), old(self).from(), 3) ==> final(self).yields(
                    #[trigger] g_pep(old(self).lex().src(), old(self).from(), old(self).names(), min_bp, f),
                    expr_tree(r),
                ),
            final(self).progressed(old(self)),
            spec_lbp(final(self).cur().ty) < min_bp || spec_lbp(final(self).cur().ty) == 0,
        decreases old(self).measure(), 3nat,
    {
        let ghost p0 = *self;
        let ghost s = p0.lex().src();
        proof {
            p0.lemma_here();
        }
        let mut left = self.primary();
        proof {
            self.lemma_here();
            assert forall|f: nat| f >= need(s, p0.from(), 3) implies #[trigger] g_pep(
                s,
                p0.from(),
                p0.names(),
                min_bp,
                f,
            ) == g_led(s, self.from(), self.names(), expr_tree(left), min_bp, (f - 1) as nat) by {
                let g = (f - 1) as nat;
                assert(g >= need(s, p0.from(), 2));
                assert(self.yields(g_primary(s, p0.from(), p0.names(), g), expr_tree(left)));
            }
        }
        loop
            invariant
                self.progressed(old(self)),
                s == self.lex().src(),
                p0 == *old(self),
                p0.wf(),
                forall|f: nat| f >= need(s, p0.from(), 3) ==> #[trigger] g_pep(
                    s,
                    p0.from(),
                    p0.names(),
                    min_bp,
                    f,
                ) == g_led(s, self.from(), self.names(), expr_tree(left), min_bp, (f - 1) as nat),
            ensures
                self.progressed(old(self)),
                spec_lbp(self.cur().ty) < min_bp || spec_lbp(self.cur().ty) == 0,
                forall|f: nat| f >= need(s, p0.from(), 3) ==> #[trigger] g_pep(
                    s,
                    p0.from(),
                    p0.names(),
                    min_bp,
                    f,
                ) == g_led(s, self.from(), self.names(), expr_tree(left), min_bp, (f - 1) as nat),
            decreases self.measure(),
        {
            let op = self.current.ty;
            let lbp = get_lbp(op);
            if lbp < min_bp || lbp == 0 {
                break;
            }
            let loc = self.cur_location();
            let ghost pa = *self;
            let ghost la = expr_tree(left);
            proof {
                pa.lemma_here();
                p0.lemma_here();
            }
            self.advance();
            let ghost pb = *self;
            proof {
                pb.lemma_here();
            }
            left = self.infix(left, op, loc);
            proof {
                self.lemma_here();
                assert forall|f: nat| f >= need(s, p0.from(), 3) implies #[trigger] g_pep(
                    s,
                    p0.from(),
                    p0.names(),
                    min_bp,
                    f,
                ) == g_led(s, self.from(), self.names(), expr_tree(left), min_bp, (f - 1) as nat) by {
                    let g = (f - 1) as nat;
                    assert((g - 1) as nat >= need(s, pb.from(), 5));
                    assert(self.yields(g_infix(s, pb.from(), pb.names(), la, op, loc, (g - 1) as nat), expr_tree(left)));
                    assert(g_led(s, pa.from(), pa.names(), la, min_bp, g) == g_led(
                        s,
                        self.from(),
                        self.names(),
                        expr_tree(left),
                        min_bp,
                        g,
                    ));
                }
            }
        }
        proof {
            self.lemma_here();
            assert forall|f: nat| f >= need(s, p0.from(), 3) implies self.yields(
                g_pep(s, p0.from(), p0.names(), min_bp, f),
                expr_tree(left),
            ) by {
                assert(g_led(s, self.from(), self.names(), expr_tree(left), min_bp, (f - 1) as nat).at == self.from());
            }
        }
        left
    }

    /// Parse a full expression: the tree that the grammar (`g_expression`)
    /// gives for the tokens from the current one on.  It stops only at a
    /// token that is no infix operator.
    pub fn parse_expression(&mut self) -> (r: Expression)
        requires
            old(self).wf(),
        ensures
            forall|f: nat|
                f >= need(old(self).lex().src(), old(self).from(), 4) ==> final(self).yields(
                    #[trigger] g_expression(old(self).lex().src(), old(self).from(), old(self).names(), f),
                    expr_tree(r),
                ),
            final(self).progressed(old(self)),
            spec_lbp(final(self).cur().ty) == 0,
        decreases old(self).measure(), 4nat,
    {
        let ghost p0 = *self;
        let r = self.parse_expression_precedence(0);
        proof {
            assert forall|f: nat| f >= need(p0.lex().src(), p0.from(), 4) implies self.yields(
                g_expression(p0.lex().src(), p0.from(), p0.names(), f),
                expr_tree(r),
            ) by {
                let g = (f - 1) as nat;
                assert(g >= need(p0.lex().src(), p0.from(), 3));
                assert(g_expression(p0.lex().src(), p0.from(), p0.names(), f) == g_pep(p0.lex().src(), p0.from(), p0.names(), 0, g));
                assert(self.yields(g_pep(p0.lex().src(), p0.from(), p0.names(), 0, g), expr_tree(r)));
            }
        }
        r
    }

    /// Parse a program: the sequence of top-level declarations that the
    /// grammar (`g_program`) gives, up to the end of the input.  Stray semicolons are skipped, so the program is empty
    /// exactly when nothing but semicolons is left to read.
    pub fn parse_program(&mut self) -> (r: Vec<Expression>)
        requires
            old(self).wf(),
        ensures
            forall|f: nat|
                f >= need(old(self).lex().src(), old(self).from(), 6) ==> final(self).yields(
                    #[trigger] g_program(old(self).lex().src(), old(self).from(), old(self).names(), Seq::empty(), f),
                    exprs_tree(r@),
                ),
            final(self).follows(old(self)),
            final(self).cur().ty == TokenType::Eof,
            r@.len() == 0 <==> old(self).rest_only_semicolons(),
    {
        let ghost p0 = *self;
        let ghost s = p0.lex().src();
        proof {
            p0.lemma_here();
        }
        let mut declarations = Vec::new();
        proof {
            lemma_trees_empty();
        }
        while !self.check(TokenType::Eof)
            invariant
                self.follows(old(self)),
                declarations@.len() == 0 ==> self.rest_only_semicolons() == old(
                    self,
                ).rest_only_semicolons(),
                declarations@.len() > 0 ==> !old(self).rest_only_semicolons(),
                s == self.lex().src(),
                p0 == *old(self),
                p0.wf(),
                forall|f: nat| f >= need(s, p0.from(), 6) ==> #[trigger] g_program(
                    s,
                    p0.from(),
                    p0.names(),
                    Seq::empty(),
                    f,
                ) == g_program(s, self.from(), self.names(), exprs_tree(declarations@), f),
            decreases self.measure(),
        {
            let ghost pa = *self;
            proof {
                pa.lemma_here();
                p0.lemma_here();
            }
            // Skip stray semicolons
            if self.check(TokenType::Semicolon) {
                self.advance();
                proof {
                    lemma_only_semicolons_step(
                        pa.lex().src(),
                        pa.lex().cur() as int,
                        self.lex().cur() as int,
                        self.cur(),
                    );
                    self.lemma_here();
                    assert forall|f: nat| f >= need(s, p0.from(), 6) implies g_program(
                        s,
                        pa.from(),
                        pa.names(),
                        exprs_tree(declarations@),
                        f,
                    ) == g_program(s, self.from(), self.names(), exprs_tree(declarations@), f) by {
                    }
                }
                continue;
            }
            let st = self.parse_statement();
            let ghost tt = expr_tree(st);
            let ghost pb = *self;
            let ghost before = declarations@;
            declarations.push(st);
            proof {
                pb.lemma_here();
                lemma_exprs_tree_push(before, st);
            }
            // Optional semicolon after declarations
            if self.check(TokenType::Semicolon) {
                self.advance();
            }
            let ghost pc = *self;
            proof {
                pc.lemma_here();
            }
            // Skip stray closing braces
            if self.check(TokenType::RBrace) {
                self.advance();
            }
            proof {
                self.lemma_here();
                assert forall|f: nat| f >= need(s, p0.from(), 6) implies g_program(
                    s,
                    pa.from(),
                    pa.names(),
                    exprs_tree(before),
                    f,
                ) == g_program(s, self.from(), self.names(), exprs_tree(declarations@), f) by {
                    assert((f - 1) as nat >= need(s, pa.from(), 5));
                    assert(pb.yields(g_statement(s, pa.from(), pa.names(), (f - 1) as nat), tt));
                    assert(pc.from() == skip_if(s, pb.from(), TokenType::Semicolon));
                    assert(self.from() == skip_if(s, pc.from(), TokenType::RBrace));
                }
            }
        }
        proof {
            self.lemma_here();
        }
        declarations
    }
}

// ---- Helper functions for parsing literals ----

/// The characters of `t` other than underscores.
pub open spec fn strip_underscores(t: Seq<char>) -> Seq<char>
    decreases t.len(),
{
    if t.len() == 0 {
        t
    } else if t.last() == '_' {
        strip_underscores(t.drop_last())
    } else {
        strip_underscores(t.drop_last()).push(t.last())
    }
}

/// The value of an integer literal: underscores are dropped, a `0x` prefix
/// selects base 16 and a `0b` prefix base 2 (when digits follow), otherwise
/// base 10; text that is not a numeral in that base has the value 0.
pub open spec fn int_literal_value(text: Seq<char>) -> int {
    let b = encode_utf8(strip_underscores(text));
    let prefixed = b.len() > 2 && b[0] == 0x30;
    let (digits, radix) = if prefixed && b[1] == 0x78 {
        (b.subrange(2, b.len() as int), 16nat)
    } else if prefixed && b[1] == 0x62 {
        (b.subrange(2, b.len() as int), 2nat)
    } else {
        (b, 10nat)
    };
    match spec_parse_int(digits, radix) {
        Some(v) => v,
        None => 0,
    }
}

/// The two sides of a rational literal `num\den`: present when the text holds exactly one backslash.
pub open spec fn rational_parts(t: Seq<char>) -> Option<(Seq<char>, Seq<char>)> {
    if exists|k: int| 0 <= k < t.len() && t[k] == '\\' && forall|j: int| 0 <= j < t.len() && j != k ==> t[j] != '\\' {
        let k = choose|k: int| 0 <= k < t.len() && t[k] == '\\' && forall|j: int| 0 <= j < t.len() && j != k ==> t[j] != '\\';
        Some((t.subrange(0, k), t.subrange(k + 1, t.len() as int)))
    } else {
        None
    }
}

/// Removes the underscores from a string.
fn remove_underscores(text: &str) -> (r: String)
    ensures
        r@ == strip_underscores(text@),
{
    let n = text.unicode_len();
    let mut out = String::new();
    let mut i: usize = 0;
    while i < n
        invariant
            n == text@.len(),
            i <= n,
            out@ == strip_underscores(text@.subrange(0, i as int)),
        decreases n - i,
    {
        let c = text.get_char(i);
        proof {
            assert(text@.subrange(0, i + 1).drop_last() =~= text@.subrange(0, i as int));
        }
        if c != '_' {
            push_char(&mut out, c);
        }
        i += 1;
    }
    assert(text@.subrange(0, n as int) =~= text@);
    out
}

/// Parse an integer literal (decimal, hex with 0x prefix, binary with 0b prefix).
pub fn parse_int_literal(text: &str) -> (r: BigNum)
    ensures
        r@ == int_literal_value(text@),
{
    let cleaned = remove_underscores(text);
    let b = cleaned.as_str().as_bytes();
    let n = b.len();
    let parsed = if n > 2 && b[0] == 0x30 && b[1] == 0x78 {
        parse_bytes(slice_subrange(b, 2, n), 16)
    } else if n > 2 && b[0] == 0x30 && b[1] == 0x62 {
        parse_bytes(slice_subrange(b, 2, n), 2)
    } else {
        parse_bytes(b, 10)
    };
    match parsed {
        Some(v) => v,
        None => BigNum::zero(),
    }
}

/// Parse a rational literal: num\den.
pub fn parse_rational(text: &str) -> (r: Option<(BigNum, BigNum)>)
    ensures
        match rational_parts(text@) {
            Some((a, b)) => r matches Some((n, d)) && n@ == int_literal_value(a) && d@
                == int_literal_value(b),
            None => r is None,
        },
{
    let n = text.unicode_len();
    let mut count: usize = 0;
    let mut at: usize = 0;
    let mut i: usize = 0;
    while i < n
        invariant
            n == text@.len(),
            i <= n,
            count <= i,
            count == 0 ==> forall|j: int| 0 <= j < i ==> text@[j] != '\\',
            count == 1 ==> at < i && text@[at as int] == '\\' && forall|j: int|
                0 <= j < i && j != at ==> text@[j] != '\\',
            count >= 2 ==> exists|a: int, b: int| 0 <= a < b < i && text@[a] == '\\' && text@[b] == '\\',
        decreases n - i,
    {
        if text.get_char(i) == '\\' {
            if count == 1 {
                assert(text@[at as int] == '\\' && text@[i as int] == '\\');
            }
            if count < 2 {
                count += 1;
            }
            at = i;
        }
        i += 1;
    }
    if count == 1 {
        let num = parse_int_literal(text.substring_char(0, at));
        let den = parse_int_literal(text.substring_char(at + 1, n));
        proof {
            let t = text@;
            assert(exists|k: int| 0 <= k < t.len() && t[k] == '\\' && forall|j: int| 0 <= j < t.len() && j != k ==> t[j] != '\\');
            let k = choose|k: int| 0 <= k < t.len() && t[k] == '\\' && forall|j: int| 0 <= j < t.len() && j != k ==> t[j] != '\\';
            assert(k == at);
        }
        Some((num, den))
    } else {
        proof {
            let t = text@;
            if exists|k: int| 0 <= k < t.len() && t[k] == '\\' && forall|j: int| 0 <= j < t.len() && j != k ==> t[j] != '\\' {
                let k = choose|k: int| 0 <= k < t.len() && t[k] == '\\' && forall|j: int| 0 <= j < t.len() && j != k ==> t[j] != '\\';
                if count == 0 {
                    assert(t[k] != '\\');
                } else {
                    let (a, b) = choose|a: int, b: int| 0 <= a < b < i && text@[a] == '\\' && text@[b] == '\\';
                    assert(a == k || b == k);
                }
            }
        }
        None
    }
}

} // verus!
