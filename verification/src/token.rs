//! Token types, keywords and operator binding powers of the Silq lexer.
//!
//! Silq accepts Unicode mathematical symbols as well as their ASCII spellings.

pub mod precedence;

use vstd::prelude::*;
use crate::text::str_eq;

verus! {

/// Every kind of token the lexer produces.
#[derive(Debug, Clone, Copy, PartialEq, Eq, Hash, Structural)]
pub enum TokenType {
    Identifier,
    StringLit,
    CharLit,
    IntLit,
    FloatLit,
    RationalLit,
    LParen,
    RParen,
    LBrace,
    RBrace,
    LBracket,
    RBracket,
    Semicolon,
    Comma,
    Colon,
    Dot,
    Question,
    At,
    Underscore,
    Arrow,
    FatArrow,
    LeftArrow,
    Mapsto,
    Assign,
    PlusAssign,
    MinusAssign,
    MulAssign,
    DivAssign,
    ModAssign,
    Plus,
    Minus,
    Mul,
    Div,
    Mod,
    Power,
    Tilde,
    Eq,
    Neq,
    Lt,
    Gt,
    Le,
    Ge,
    And,
    Or,
    Xor,
    Not,
    Amp,
    Pipe,
    Caret,
    Shl,
    Shr,
    UShr,
    Cross,
    Classical,
    Pi,
    KwDat,
    KwDef,
    KwTrue,
    KwFalse,
    KwIf,
    KwThen,
    KwElse,
    KwObserve,
    KwAssert,
    KwReturn,
    KwRepeat,
    KwFor,
    KwWhile,
    KwIn,
    KwCobserve,
    KwImport,
    KwAs,
    KwCoerce,
    KwPun,
    KwForget,
    KwTypeof,
    KwWild,
    KwLet,
    KwLambda,
    KwQuantum,
    KwConst,
    KwMoved,
    KwOnce,
    KwSpent,
    KwLifted,
    KwQfree,
    KwMfree,
    KwClassical,
    KwDo,
    KwWith,
    Annotation,
    Eof,
    Error,
}

/// The human-readable spelling of a token kind, as used in diagnostics.
pub open spec fn spec_token_type_str(t: TokenType) -> Seq<char> {
    match t {
        TokenType::Identifier => "identifier"@,
        TokenType::StringLit => "string literal"@,
        TokenType::CharLit => "character literal"@,
        TokenType::IntLit => "integer literal"@,
        TokenType::FloatLit => "float literal"@,
        TokenType::RationalLit => "rational literal"@,
        TokenType::LParen => "'('"@,
        TokenType::RParen => "')'"@,
        TokenType::LBrace => "'{'"@,
        TokenType::RBrace => "'}'"@,
        TokenType::LBracket => "'['"@,
        TokenType::RBracket => "']'"@,
        TokenType::Semicolon => "';'"@,
        TokenType::Comma => "','"@,
        TokenType::Colon => "':'"@,
        TokenType::Dot => "'.'"@,
        TokenType::Question => "'?'"@,
        TokenType::At => "'@'"@,
        TokenType::Underscore => "'_'"@,
        TokenType::Arrow => "'->'"@,
        TokenType::FatArrow => "'=>'"@,
        TokenType::LeftArrow => "'<-'"@,
        TokenType::Mapsto => "'↦'"@,
        TokenType::Assign => "':='"@,
        TokenType::PlusAssign => "'+='"@,
        TokenType::MinusAssign => "'-='"@,
        TokenType::MulAssign => "'*='"@,
        TokenType::DivAssign => "'/='"@,
        TokenType::ModAssign => "'%='"@,
        TokenType::Plus => "'+'"@,
        TokenType::Minus => "'-'"@,
        TokenType::Mul => "'*'"@,
        TokenType::Div => "'/'"@,
        TokenType::Mod => "'%'"@,
        TokenType::Power => "'^'"@,
        TokenType::Tilde => "'~'"@,
        TokenType::Eq => "'=='"@,
        TokenType::Neq => "'!='"@,
        TokenType::Lt => "'<'"@,
        TokenType::Gt => "'>'"@,
        TokenType::Le => "'<='"@,
        TokenType::Ge => "'>='"@,
        TokenType::And => "'&&'"@,
        TokenType::Or => "'||'"@,
        TokenType::Xor => "'⊻'"@,
        TokenType::Not => "'!'"@,
        TokenType::Amp => "'&'"@,
        TokenType::Pipe => "'|'"@,
        TokenType::Caret => "'^'"@,
        TokenType::Shl => "'<<'"@,
        TokenType::Shr => "'>>'"@,
        TokenType::UShr => "'>>>'"@,
        TokenType::Cross => "'×'"@,
        TokenType::Classical => "'!'"@,
        TokenType::Pi => "'Π'"@,
        TokenType::KwDat => "'dat'"@,
        TokenType::KwDef => "'def'"@,
        TokenType::KwTrue => "'true'"@,
        TokenType::KwFalse => "'false'"@,
        TokenType::KwIf => "'if'"@,
        TokenType::KwThen => "'then'"@,
        TokenType::KwElse => "'else'"@,
        TokenType::KwObserve => "'observe'"@,
        TokenType::KwAssert => "'assert'"@,
        TokenType::KwReturn => "'return'"@,
        TokenType::KwRepeat => "'repeat'"@,
        TokenType::KwFor => "'for'"@,
        TokenType::KwWhile => "'while'"@,
        TokenType::KwIn => "'in'"@,
        TokenType::KwCobserve => "'cobserve'"@,
        TokenType::KwImport => "'import'"@,
        TokenType::KwAs => "'as'"@,
        TokenType::KwCoerce => "'coerce'"@,
        TokenType::KwPun => "'pun'"@,
        TokenType::KwForget => "'forget'"@,
        TokenType::KwTypeof => "'typeof'"@,
        TokenType::KwWild => "'wild'"@,
        TokenType::KwLet => "'let'"@,
        TokenType::KwLambda => "'lambda'"@,
        TokenType::KwQuantum => "'quantum'"@,
        TokenType::KwConst => "'const'"@,
        TokenType::KwMoved => "'moved'"@,
        TokenType::KwOnce => "'once'"@,
        TokenType::KwSpent => "'spent'"@,
        TokenType::KwLifted => "'lifted'"@,
        TokenType::KwQfree => "'qfree'"@,
        TokenType::KwMfree => "'mfree'"@,
        TokenType::KwClassical => "'classical'"@,
        TokenType::KwDo => "'do'"@,
        TokenType::KwWith => "'with'"@,
        TokenType::Annotation => "annotation"@,
        TokenType::Eof => "end of file"@,
        TokenType::Error => "error"@,
    }
}

impl TokenType {
    /// Returns the spelling of a token kind used in diagnostics.
    pub fn as_static_str(self) -> (s: &'static str)
        ensures
            s@ == spec_token_type_str(self),
    {
        match self {
            TokenType::Identifier => "identifier",
            TokenType::StringLit => "string literal",
            TokenType::CharLit => "character literal",
            TokenType::IntLit => "integer literal",
            TokenType::FloatLit => "float literal",
            TokenType::RationalLit => "rational literal",
            TokenType::LParen => "'('",
            TokenType::RParen => "')'",
            TokenType::LBrace => "'{'",
            TokenType::RBrace => "'}'",
            TokenType::LBracket => "'['",
            TokenType::RBracket => "']'",
            TokenType::Semicolon => "';'",
            TokenType::Comma => "','",
            TokenType::Colon => "':'",
            TokenType::Dot => "'.'",
            TokenType::Question => "'?'",
            TokenType::At => "'@'",
            TokenType::Underscore => "'_'",
            TokenType::Arrow => "'->'",
            TokenType::FatArrow => "'=>'",
            TokenType::LeftArrow => "'<-'",
            TokenType::Mapsto => "'↦'",
            TokenType::Assign => "':='",
            TokenType::PlusAssign => "'+='",
            TokenType::MinusAssign => "'-='",
            TokenType::MulAssign => "'*='",
            TokenType::DivAssign => "'/='",
            TokenType::ModAssign => "'%='",
            TokenType::Plus => "'+'",
            TokenType::Minus => "'-'",
            TokenType::Mul => "'*'",
            TokenType::Div => "'/'",
            TokenType::Mod => "'%'",
            TokenType::Power => "'^'",
            TokenType::Tilde => "'~'",
            TokenType::Eq => "'=='",
            TokenType::Neq => "'!='",
            TokenType::Lt => "'<'",
            TokenType::Gt => "'>'",
            TokenType::Le => "'<='",
            TokenType::Ge => "'>='",
            TokenType::And => "'&&'",
            TokenType::Or => "'||'",
            TokenType::Xor => "'⊻'",
            TokenType::Not => "'!'",
            TokenType::Amp => "'&'",
            TokenType::Pipe => "'|'",
            TokenType::Caret => "'^'",
            TokenType::Shl => "'<<'",
            TokenType::Shr => "'>>'",
            TokenType::UShr => "'>>>'",
            TokenType::Cross => "'×'",
            TokenType::Classical => "'!'",
            TokenType::Pi => "'Π'",
            TokenType::KwDat => "'dat'",
            TokenType::KwDef => "'def'",
            TokenType::KwTrue => "'true'",
            TokenType::KwFalse => "'false'",
            TokenType::KwIf => "'if'",
            TokenType::KwThen => "'then'",
            TokenType::KwElse => "'else'",
            TokenType::KwObserve => "'observe'",
            TokenType::KwAssert => "'assert'",
            TokenType::KwReturn => "'return'",
            TokenType::KwRepeat => "'repeat'",
            TokenType::KwFor => "'for'",
            TokenType::KwWhile => "'while'",
            TokenType::KwIn => "'in'",
            TokenType::KwCobserve => "'cobserve'",
            TokenType::KwImport => "'import'",
            TokenType::KwAs => "'as'",
            TokenType::KwCoerce => "'coerce'",
            TokenType::KwPun => "'pun'",
            TokenType::KwForget => "'forget'",
            TokenType::KwTypeof => "'typeof'",
            TokenType::KwWild => "'wild'",
            TokenType::KwLet => "'let'",
            TokenType::KwLambda => "'lambda'",
            TokenType::KwQuantum => "'quantum'",
            TokenType::KwConst => "'const'",
            TokenType::KwMoved => "'moved'",
            TokenType::KwOnce => "'once'",
            TokenType::KwSpent => "'spent'",
            TokenType::KwLifted => "'lifted'",
            TokenType::KwQfree => "'qfree'",
            TokenType::KwMfree => "'mfree'",
            TokenType::KwClassical => "'classical'",
            TokenType::KwDo => "'do'",
            TokenType::KwWith => "'with'",
            TokenType::Annotation => "annotation",
            TokenType::Eof => "end of file",
            TokenType::Error => "error",
        }
    }
}

/// A token produced by the lexer.
#[derive(Debug)]
pub struct Token {
    pub ty: TokenType,
    /// The text of the token (the unescaped contents for string literals).
    pub text: String,
    /// Line number (1-based) of the token's first byte.
    pub line: u32,
    /// Column number (1-based) of the token's first byte.
    pub col: u32,
    /// Byte offset of the token's first byte.
    pub offset: usize,
}

impl Clone for Token {
    fn clone(&self) -> (r: Self)
        ensures
            r == *self,
    {
        Token { ty: self.ty, text: self.text.clone(), line: self.line, col: self.col, offset: self.offset }
    }
}

impl Token {
    pub fn new(ty: TokenType, text: String, line: u32, col: u32, offset: usize) -> (r: Self)
        ensures
            r == (Token { ty, text, line, col, offset }),
    {
        Token { ty, text, line, col, offset }
    }

    /// Is this token the keyword `kw`: spelled `kw`, of the kind the keyword
    /// table gives `kw`?
    pub fn is_keyword(&self, kw: &str) -> (r: bool)
        ensures
            r == (spec_keyword(kw@) == Some(self.ty) && self.text@ == kw@),
    {
        match lookup_keyword(kw) {
            Some(t) => t == self.ty && str_eq(self.text.as_str(), kw),
            None => false,
        }
    }
}

/// The keyword (if any) spelled by `w`.
pub open spec fn spec_keyword(w: Seq<char>) -> Option<TokenType> {
    if w == "dat"@ {
        Some(TokenType::KwDat)
    } else if w == "def"@ {
        Some(TokenType::KwDef)
    } else if w == "true"@ {
        Some(TokenType::KwTrue)
    } else if w == "false"@ {
        Some(TokenType::KwFalse)
    } else if w == "if"@ {
        Some(TokenType::KwIf)
    } else if w == "then"@ {
        Some(TokenType::KwThen)
    } else if w == "else"@ {
        Some(TokenType::KwElse)
    } else if w == "observe"@ {
        Some(TokenType::KwObserve)
    } else if w == "assert"@ {
        Some(TokenType::KwAssert)
    } else if w == "return"@ {
        Some(TokenType::KwReturn)
    } else if w == "repeat"@ {
        Some(TokenType::KwRepeat)
    } else if w == "for"@ {
        Some(TokenType::KwFor)
    } else if w == "while"@ {
        Some(TokenType::KwWhile)
    } else if w == "in"@ {
        Some(TokenType::KwIn)
    } else if w == "cobserve"@ {
        Some(TokenType::KwCobserve)
    } else if w == "import"@ {
        Some(TokenType::KwImport)
    } else if w == "as"@ {
        Some(TokenType::KwAs)
    } else if w == "coerce"@ {
        Some(TokenType::KwCoerce)
    } else if w == "pun"@ {
        Some(TokenType::KwPun)
    } else if w == "forget"@ {
        Some(TokenType::KwForget)
    } else if w == "typeof"@ {
        Some(TokenType::KwTypeof)
    } else if w == "wild"@ {
        Some(TokenType::KwWild)
    } else if w == "let"@ {
        Some(TokenType::KwLet)
    } else if w == "lambda"@ || w == "λ"@ {
        Some(TokenType::KwLambda)
    } else if w == "quantum"@ {
        Some(TokenType::KwQuantum)
    } else if w == "const"@ {
        Some(TokenType::KwConst)
    } else if w == "moved"@ {
        Some(TokenType::KwMoved)
    } else if w == "once"@ {
        Some(TokenType::KwOnce)
    } else if w == "spent"@ {
        Some(TokenType::KwSpent)
    } else if w == "lifted"@ {
        Some(TokenType::KwLifted)
    } else if w == "qfree"@ {
        Some(TokenType::KwQfree)
    } else if w == "mfree"@ {
        Some(TokenType::KwMfree)
    } else if w == "classical"@ {
        Some(TokenType::KwClassical)
    } else if w == "do"@ {
        Some(TokenType::KwDo)
    } else if w == "with"@ {
        Some(TokenType::KwWith)
    } else {
        None
    }
}

/// Maps a keyword spelling to its token kind.
pub fn lookup_keyword(word: &str) -> (r: Option<TokenType>)
    ensures
        r == spec_keyword(word@),
{
    if str_eq(word, "dat") {
        Some(TokenType::KwDat)
    } else if str_eq(word, "def") {
        Some(TokenType::KwDef)
    } else if str_eq(word, "true") {
        Some(TokenType::KwTrue)
    } else if str_eq(word, "false") {
        Some(TokenType::KwFalse)
    } else if str_eq(word, "if") {
        Some(TokenType::KwIf)
    } else if str_eq(word, "then") {
        Some(TokenType::KwThen)
    } else if str_eq(word, "else") {
        Some(TokenType::KwElse)
    } else if str_eq(word, "observe") {
        Some(TokenType::KwObserve)
    } else if str_eq(word, "assert") {
        Some(TokenType::KwAssert)
    } else if str_eq(word, "return") {
        Some(TokenType::KwReturn)
    } else if str_eq(word, "repeat") {
        Some(TokenType::KwRepeat)
    } else if str_eq(word, "for") {
        Some(TokenType::KwFor)
    } else if str_eq(word, "while") {
        Some(TokenType::KwWhile)
    } else if str_eq(word, "in") {
        Some(TokenType::KwIn)
    } else if str_eq(word, "cobserve") {
        Some(TokenType::KwCobserve)
    } else if str_eq(word, "import") {
        Some(TokenType::KwImport)
    } else if str_eq(word, "as") {
        Some(TokenType::KwAs)
    } else if str_eq(word, "coerce") {
        Some(TokenType::KwCoerce)
    } else if str_eq(word, "pun") {
        Some(TokenType::KwPun)
    } else if str_eq(word, "forget") {
        Some(TokenType::KwForget)
    } else if str_eq(word, "typeof") {
        Some(TokenType::KwTypeof)
    } else if str_eq(word, "wild") {
        Some(TokenType::KwWild)
    } else if str_eq(word, "let") {
        Some(TokenType::KwLet)
    } else if str_eq(word, "lambda") || str_eq(word, "λ") {
        Some(TokenType::KwLambda)
    } else if str_eq(word, "quantum") {
        Some(TokenType::KwQuantum)
    } else if str_eq(word, "const") {
        Some(TokenType::KwConst)
    } else if str_eq(word, "moved") {
        Some(TokenType::KwMoved)
    } else if str_eq(word, "once") {
        Some(TokenType::KwOnce)
    } else if str_eq(word, "spent") {
        Some(TokenType::KwSpent)
    } else if str_eq(word, "lifted") {
        Some(TokenType::KwLifted)
    } else if str_eq(word, "qfree") {
        Some(TokenType::KwQfree)
    } else if str_eq(word, "mfree") {
        Some(TokenType::KwMfree)
    } else if str_eq(word, "classical") {
        Some(TokenType::KwClassical)
    } else if str_eq(word, "do") {
        Some(TokenType::KwDo)
    } else if str_eq(word, "with") {
        Some(TokenType::KwWith)
    } else {
        None
    }
}
/// The left binding power of an infix or postfix operator (0 for anything else).
pub open spec fn spec_lbp(t: TokenType) -> u8 {
    match t {
        TokenType::Comma => precedence::COMMA,
        TokenType::Assign | TokenType::LeftArrow | TokenType::PlusAssign | TokenType::MinusAssign
        | TokenType::MulAssign | TokenType::DivAssign | TokenType::ModAssign => precedence::ASSIGN,
        TokenType::KwAs | TokenType::KwCoerce | TokenType::KwPun => precedence::AS_COERCE,
        TokenType::Colon => precedence::COLON,
        TokenType::Question => precedence::CONDITIONAL,
        TokenType::Or => precedence::OR,
        TokenType::Xor => precedence::XOR,
        TokenType::And => precedence::AND,
        TokenType::Pipe => precedence::BIT_OR,
        TokenType::Caret => precedence::BIT_XOR,
        TokenType::Amp => precedence::BIT_AND,
        TokenType::Eq | TokenType::Neq | TokenType::Lt | TokenType::Gt | TokenType::Le
        | TokenType::Ge => precedence::RELATIONAL,
        TokenType::Shl | TokenType::Shr | TokenType::UShr => precedence::SHIFT,
        TokenType::Arrow => precedence::ARROW,
        TokenType::Plus | TokenType::Minus | TokenType::Tilde => precedence::ADDITIVE,
        TokenType::Mul | TokenType::Div | TokenType::Mod | TokenType::Cross => precedence::MULTIPLICATIVE,
        TokenType::Power => precedence::POWER,
        TokenType::Dot | TokenType::LParen | TokenType::LBracket => precedence::POSTFIX,
        _ => 0,
    }
}

/// The operators rank from the loosest to the tightest: comma; the
/// assignments (`:=`, `=`, `←`, and `+=` and its kin) all at one strength;
/// `as`/`coerce`/`pun`; the annotation colon; `?`; `||`; `⊻`; `&&`; `|`;
/// `^` as bitwise exclusive or; `&`; the six comparisons, all at one
/// strength; the shifts; `->`; the additive operators `+`, `-`, `~`, all at
/// one strength; the multiplicative operators `*`, `/`, `%`, `×`, all at one
/// strength; the power; and the postfix `.`, `(`, `[`.  So `a + b / c`
/// divides first and `a * b + c` multiplies first.
pub proof fn lemma_operator_ranks(
    assign: TokenType,
    ann: TokenType,
    cmp: TokenType,
    shift: TokenType,
    add: TokenType,
    mult: TokenType,
    post: TokenType,
)
    requires
        assign == TokenType::Assign || assign == TokenType::LeftArrow || assign == TokenType::PlusAssign
            || assign == TokenType::MinusAssign || assign == TokenType::MulAssign || assign
            == TokenType::DivAssign || assign == TokenType::ModAssign,
        ann == TokenType::KwAs || ann == TokenType::KwCoerce || ann == TokenType::KwPun,
        cmp == TokenType::Eq || cmp == TokenType::Neq || cmp == TokenType::Lt || cmp == TokenType::Gt
            || cmp == TokenType::Le || cmp == TokenType::Ge,
        shift == TokenType::Shl || shift == TokenType::Shr || shift == TokenType::UShr,
        add == TokenType::Plus || add == TokenType::Minus || add == TokenType::Tilde,
        mult == TokenType::Mul || mult == TokenType::Div || mult == TokenType::Mod || mult
            == TokenType::Cross,
        post == TokenType::Dot || post == TokenType::LParen || post == TokenType::LBracket,
    ensures
        spec_lbp(assign) == precedence::ASSIGN,
        spec_lbp(ann) == precedence::AS_COERCE,
        spec_lbp(cmp) == precedence::RELATIONAL,
        spec_lbp(shift) == precedence::SHIFT,
        spec_lbp(add) == precedence::ADDITIVE,
        spec_lbp(mult) == precedence::MULTIPLICATIVE,
        spec_lbp(post) == precedence::POSTFIX,
        0 < spec_lbp(TokenType::Comma) < spec_lbp(assign) < spec_lbp(ann) < spec_lbp(TokenType::Colon)
            < spec_lbp(TokenType::Question) < spec_lbp(TokenType::Or) < spec_lbp(TokenType::Xor)
            < spec_lbp(TokenType::And) < spec_lbp(TokenType::Pipe) < spec_lbp(TokenType::Caret)
            < spec_lbp(TokenType::Amp) < spec_lbp(cmp) < spec_lbp(shift) < spec_lbp(TokenType::Arrow)
            < spec_lbp(add) < spec_lbp(mult) < spec_lbp(TokenType::Power) < spec_lbp(post),
{
}

/// Only infix and postfix operators bind: every other token (a name, a
/// literal, a keyword that starts an expression, a closing bracket, `;`)
/// has binding power 0, so an expression stops in front of it.
pub proof fn lemma_only_operators_bind(t: TokenType)
    ensures
        spec_lbp(t) > 0 <==> (t == TokenType::Comma || t == TokenType::Assign || t == TokenType::LeftArrow || t == TokenType::PlusAssign || t == TokenType::MinusAssign || t == TokenType::MulAssign || t == TokenType::DivAssign || t == TokenType::ModAssign || t == TokenType::KwAs || t == TokenType::KwCoerce || t == TokenType::KwPun || t == TokenType::Colon || t == TokenType::Question || t == TokenType::Or || t == TokenType::Xor || t == TokenType::And || t == TokenType::Pipe || t == TokenType::Caret || t == TokenType::Amp || t == TokenType::Eq || t == TokenType::Neq || t == TokenType::Lt || t == TokenType::Gt || t == TokenType::Le || t == TokenType::Ge || t == TokenType::Shl || t == TokenType::Shr || t == TokenType::UShr || t == TokenType::Arrow || t == TokenType::Plus || t == TokenType::Minus || t == TokenType::Tilde || t == TokenType::Mul || t == TokenType::Div || t == TokenType::Mod || t == TokenType::Cross || t == TokenType::Power || t == TokenType::Dot || t == TokenType::LParen || t == TokenType::LBracket),
{
}

/// Every operator binds between the comma (loosest) and the postfix
/// operators (tightest); anything else does not bind at all.
pub proof fn lemma_lbp_range(t: TokenType)
    ensures
        spec_lbp(t) == 0 || (precedence::COMMA <= spec_lbp(t) <= precedence::POSTFIX),
{
}

/// A keyword's kind prints as its spelling in single quotes (`λ` aside,
/// which spells the kind printed as `'lambda'`).
pub proof fn lemma_keyword_spelling(w: Seq<char>, t: TokenType)
    requires
        spec_keyword(w) == Some(t),
        w != "λ"@,
    ensures
        spec_token_type_str(t) == seq!['\''] + w + seq!['\''],
{
    reveal_strlit("dat");
    reveal_strlit("def");
    reveal_strlit("true");
    reveal_strlit("false");
    reveal_strlit("if");
    reveal_strlit("then");
    reveal_strlit("else");
    reveal_strlit("observe");
    reveal_strlit("assert");
    reveal_strlit("return");
    reveal_strlit("repeat");
    reveal_strlit("for");
    reveal_strlit("while");
    reveal_strlit("in");
    reveal_strlit("cobserve");
    reveal_strlit("import");
    reveal_strlit("as");
    reveal_strlit("coerce");
    reveal_strlit("pun");
    reveal_strlit("forget");
    reveal_strlit("typeof");
    reveal_strlit("wild");
    reveal_strlit("let");
    reveal_strlit("lambda");
    reveal_strlit("λ");
    reveal_strlit("quantum");
    reveal_strlit("const");
    reveal_strlit("moved");
    reveal_strlit("once");
    reveal_strlit("spent");
    reveal_strlit("lifted");
    reveal_strlit("qfree");
    reveal_strlit("mfree");
    reveal_strlit("classical");
    reveal_strlit("do");
    reveal_strlit("with");
    reveal_strlit("'dat'");
    reveal_strlit("'def'");
    reveal_strlit("'true'");
    reveal_strlit("'false'");
    reveal_strlit("'if'");
    reveal_strlit("'then'");
    reveal_strlit("'else'");
    reveal_strlit("'observe'");
    reveal_strlit("'assert'");
    reveal_strlit("'return'");
    reveal_strlit("'repeat'");
    reveal_strlit("'for'");
    reveal_strlit("'while'");
    reveal_strlit("'in'");
    reveal_strlit("'cobserve'");
    reveal_strlit("'import'");
    reveal_strlit("'as'");
    reveal_strlit("'coerce'");
    reveal_strlit("'pun'");
    reveal_strlit("'forget'");
    reveal_strlit("'typeof'");
    reveal_strlit("'wild'");
    reveal_strlit("'let'");
    reveal_strlit("'lambda'");
    reveal_strlit("'quantum'");
    reveal_strlit("'const'");
    reveal_strlit("'moved'");
    reveal_strlit("'once'");
    reveal_strlit("'spent'");
    reveal_strlit("'lifted'");
    reveal_strlit("'qfree'");
    reveal_strlit("'mfree'");
    reveal_strlit("'classical'");
    reveal_strlit("'do'");
    reveal_strlit("'with'");
    assert(spec_token_type_str(t) =~= seq!['\''] + w + seq!['\'']);
}

/// Get the left binding power (precedence) of a binary operator token.
pub fn get_lbp(ty: TokenType) -> (r: u8)
    ensures
        r == spec_lbp(ty),
{
    match ty {
        TokenType::Comma => precedence::COMMA,
        TokenType::Assign | TokenType::LeftArrow | TokenType::PlusAssign | TokenType::MinusAssign
        | TokenType::MulAssign | TokenType::DivAssign | TokenType::ModAssign => precedence::ASSIGN,
        TokenType::KwAs | TokenType::KwCoerce | TokenType::KwPun => precedence::AS_COERCE,
        TokenType::Colon => precedence::COLON,
        TokenType::Question => precedence::CONDITIONAL,
        TokenType::Or => precedence::OR,
        TokenType::Xor => precedence::XOR,
        TokenType::And => precedence::AND,
        TokenType::Pipe => precedence::BIT_OR,
        TokenType::Caret => precedence::BIT_XOR,
        TokenType::Amp => precedence::BIT_AND,
        TokenType::Eq | TokenType::Neq | TokenType::Lt | TokenType::Gt | TokenType::Le
        | TokenType::Ge => precedence::RELATIONAL,
        TokenType::Shl | TokenType::Shr | TokenType::UShr => precedence::SHIFT,
        TokenType::Arrow => precedence::ARROW,
        TokenType::Plus | TokenType::Minus | TokenType::Tilde => precedence::ADDITIVE,
        TokenType::Mul | TokenType::Div | TokenType::Mod | TokenType::Cross => precedence::MULTIPLICATIVE,
        TokenType::Power => precedence::POWER,
        TokenType::Dot | TokenType::LParen | TokenType::LBracket => precedence::POSTFIX,
        _ => 0,
    }
}


/// The name of a token kind as `Debug` formatting spells it: the variant's name.
pub open spec fn spec_debug_name(t: TokenType) -> Seq<char> {
    match t {
        TokenType::Identifier => "Identifier"@,
        TokenType::StringLit => "StringLit"@,
        TokenType::CharLit => "CharLit"@,
        TokenType::IntLit => "IntLit"@,
        TokenType::FloatLit => "FloatLit"@,
        TokenType::RationalLit => "RationalLit"@,
        TokenType::LParen => "LParen"@,
        TokenType::RParen => "RParen"@,
        TokenType::LBrace => "LBrace"@,
        TokenType::RBrace => "RBrace"@,
        TokenType::LBracket => "LBracket"@,
        TokenType::RBracket => "RBracket"@,
        TokenType::Semicolon => "Semicolon"@,
        TokenType::Comma => "Comma"@,
        TokenType::Colon => "Colon"@,
        TokenType::Dot => "Dot"@,
        TokenType::Question => "Question"@,
        TokenType::At => "At"@,
        TokenType::Underscore => "Underscore"@,
        TokenType::Arrow => "Arrow"@,
        TokenType::FatArrow => "FatArrow"@,
        TokenType::LeftArrow => "LeftArrow"@,
        TokenType::Mapsto => "Mapsto"@,
        TokenType::Assign => "Assign"@,
        TokenType::PlusAssign => "PlusAssign"@,
        TokenType::MinusAssign => "MinusAssign"@,
        TokenType::MulAssign => "MulAssign"@,
        TokenType::DivAssign => "DivAssign"@,
        TokenType::ModAssign => "ModAssign"@,
        TokenType::Plus => "Plus"@,
        TokenType::Minus => "Minus"@,
        TokenType::Mul => "Mul"@,
        TokenType::Div => "Div"@,
        TokenType::Mod => "Mod"@,
        TokenType::Power => "Power"@,
        TokenType::Tilde => "Tilde"@,
        TokenType::Eq => "Eq"@,
        TokenType::Neq => "Neq"@,
        TokenType::Lt => "Lt"@,
        TokenType::Gt => "Gt"@,
        TokenType::Le => "Le"@,
        TokenType::Ge => "Ge"@,
        TokenType::And => "And"@,
        TokenType::Or => "Or"@,
        TokenType::Xor => "Xor"@,
        TokenType::Not => "Not"@,
        TokenType::Amp => "Amp"@,
        TokenType::Pipe => "Pipe"@,
        TokenType::Caret => "Caret"@,
        TokenType::Shl => "Shl"@,
        TokenType::Shr => "Shr"@,
        TokenType::UShr => "UShr"@,
        TokenType::Cross => "Cross"@,
        TokenType::Classical => "Classical"@,
        TokenType::Pi => "Pi"@,
        TokenType::KwDat => "KwDat"@,
        TokenType::KwDef => "KwDef"@,
        TokenType::KwTrue => "KwTrue"@,
        TokenType::KwFalse => "KwFalse"@,
        TokenType::KwIf => "KwIf"@,
        TokenType::KwThen => "KwThen"@,
        TokenType::KwElse => "KwElse"@,
        TokenType::KwObserve => "KwObserve"@,
        TokenType::KwAssert => "KwAssert"@,
        TokenType::KwReturn => "KwReturn"@,
        TokenType::KwRepeat => "KwRepeat"@,
        TokenType::KwFor => "KwFor"@,
        TokenType::KwWhile => "KwWhile"@,
        TokenType::KwIn => "KwIn"@,
        TokenType::KwCobserve => "KwCobserve"@,
        TokenType::KwImport => "KwImport"@,
        TokenType::KwAs => "KwAs"@,
        TokenType::KwCoerce => "KwCoerce"@,
        TokenType::KwPun => "KwPun"@,
        TokenType::KwForget => "KwForget"@,
        TokenType::KwTypeof => "KwTypeof"@,
        TokenType::KwWild => "KwWild"@,
        TokenType::KwLet => "KwLet"@,
        TokenType::KwLambda => "KwLambda"@,
        TokenType::KwQuantum => "KwQuantum"@,
        TokenType::KwConst => "KwConst"@,
        TokenType::KwMoved => "KwMoved"@,
        TokenType::KwOnce => "KwOnce"@,
        TokenType::KwSpent => "KwSpent"@,
        TokenType::KwLifted => "KwLifted"@,
        TokenType::KwQfree => "KwQfree"@,
        TokenType::KwMfree => "KwMfree"@,
        TokenType::KwClassical => "KwClassical"@,
        TokenType::KwDo => "KwDo"@,
        TokenType::KwWith => "KwWith"@,
        TokenType::Annotation => "Annotation"@,
        TokenType::Eof => "Eof"@,
        TokenType::Error => "Error"@,
    }
}

impl TokenType {
    /// The variant's name (its `Debug` spelling).
    pub fn debug_name(self) -> (s: &'static str)
        ensures
            s@ == spec_debug_name(self),
    {
        match self {
            TokenType::Identifier => "Identifier",
            TokenType::StringLit => "StringLit",
            TokenType::CharLit => "CharLit",
            TokenType::IntLit => "IntLit",
            TokenType::FloatLit => "FloatLit",
            TokenType::RationalLit => "RationalLit",
            TokenType::LParen => "LParen",
            TokenType::RParen => "RParen",
            TokenType::LBrace => "LBrace",
            TokenType::RBrace => "RBrace",
            TokenType::LBracket => "LBracket",
            TokenType::RBracket => "RBracket",
            TokenType::Semicolon => "Semicolon",
            TokenType::Comma => "Comma",
            TokenType::Colon => "Colon",
            TokenType::Dot => "Dot",
            TokenType::Question => "Question",
            TokenType::At => "At",
            TokenType::Underscore => "Underscore",
            TokenType::Arrow => "Arrow",
            TokenType::FatArrow => "FatArrow",
            TokenType::LeftArrow => "LeftArrow",
            TokenType::Mapsto => "Mapsto",
            TokenType::Assign => "Assign",
            TokenType::PlusAssign => "PlusAssign",
            TokenType::MinusAssign => "MinusAssign",
            TokenType::MulAssign => "MulAssign",
            TokenType::DivAssign => "DivAssign",
            TokenType::ModAssign => "ModAssign",
            TokenType::Plus => "Plus",
            TokenType::Minus => "Minus",
            TokenType::Mul => "Mul",
            TokenType::Div => "Div",
            TokenType::Mod => "Mod",
            TokenType::Power => "Power",
            TokenType::Tilde => "Tilde",
            TokenType::Eq => "Eq",
            TokenType::Neq => "Neq",
            TokenType::Lt => "Lt",
            TokenType::Gt => "Gt",
            TokenType::Le => "Le",
            TokenType::Ge => "Ge",
            TokenType::And => "And",
            TokenType::Or => "Or",
            TokenType::Xor => "Xor",
            TokenType::Not => "Not",
            TokenType::Amp => "Amp",
            TokenType::Pipe => "Pipe",
            TokenType::Caret => "Caret",
            TokenType::Shl => "Shl",
            TokenType::Shr => "Shr",
            TokenType::UShr => "UShr",
            TokenType::Cross => "Cross",
            TokenType::Classical => "Classical",
            TokenType::Pi => "Pi",
            TokenType::KwDat => "KwDat",
            TokenType::KwDef => "KwDef",
            TokenType::KwTrue => "KwTrue",
            TokenType::KwFalse => "KwFalse",
            TokenType::KwIf => "KwIf",
            TokenType::KwThen => "KwThen",
            TokenType::KwElse => "KwElse",
            TokenType::KwObserve => "KwObserve",
            TokenType::KwAssert => "KwAssert",
            TokenType::KwReturn => "KwReturn",
            TokenType::KwRepeat => "KwRepeat",
            TokenType::KwFor => "KwFor",
            TokenType::KwWhile => "KwWhile",
            TokenType::KwIn => "KwIn",
            TokenType::KwCobserve => "KwCobserve",
            TokenType::KwImport => "KwImport",
            TokenType::KwAs => "KwAs",
            TokenType::KwCoerce => "KwCoerce",
            TokenType::KwPun => "KwPun",
            TokenType::KwForget => "KwForget",
            TokenType::KwTypeof => "KwTypeof",
            TokenType::KwWild => "KwWild",
            TokenType::KwLet => "KwLet",
            TokenType::KwLambda => "KwLambda",
            TokenType::KwQuantum => "KwQuantum",
            TokenType::KwConst => "KwConst",
            TokenType::KwMoved => "KwMoved",
            TokenType::KwOnce => "KwOnce",
            TokenType::KwSpent => "KwSpent",
            TokenType::KwLifted => "KwLifted",
            TokenType::KwQfree => "KwQfree",
            TokenType::KwMfree => "KwMfree",
            TokenType::KwClassical => "KwClassical",
            TokenType::KwDo => "KwDo",
            TokenType::KwWith => "KwWith",
            TokenType::Annotation => "Annotation",
            TokenType::Eof => "Eof",
            TokenType::Error => "Error",
        }
    }
}

} // verus!
