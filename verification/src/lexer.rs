//! Lexer (tokenizer) for the Silq programming language.
//!
//! The lexer turns UTF-8 source text into tokens. It handles Unicode math
//! symbols, string, character and numeric literals, line comments, nested
//! block comments `/+ ... +/` and annotations `@[...]`.

use vstd::prelude::*;
use vstd::string::{StrSliceExecFns, StringSliceAdditionalSpecFns};
use vstd::utf8::{valid_utf8, decode_utf8};
use crate::errors::Location;
use crate::text::{push_char, push_decimal, utf8_str, byte_char, decimal_text};
use crate::token::{lookup_keyword, spec_keyword, spec_token_type_str, Token, TokenType};

verus! {

/// The largest source (in bytes) the lexer accepts: line and column
/// counters are 32-bit.
pub const MAX_SOURCE_LEN: usize = 0xffff_fffe;

// ---------------------------------------------------------------------------
// Byte classes
// ---------------------------------------------------------------------------

pub open spec fn is_digit(b: u8) -> bool {
    0x30 <= b <= 0x39
}

pub open spec fn is_hex_digit(b: u8) -> bool {
    is_digit(b) || (0x61 <= b <= 0x66) || (0x41 <= b <= 0x46)
}

pub open spec fn is_letter(b: u8) -> bool {
    (0x61 <= b <= 0x7a) || (0x41 <= b <= 0x5a)
}

/// Bytes that may continue an ASCII identifier: letters, digits, `_` and `'`.
pub open spec fn is_ident_byte(b: u8) -> bool {
    is_letter(b) || is_digit(b) || b == 0x5f || b == 0x27
}

pub open spec fn is_space(b: u8) -> bool {
    b == 0x20 || b == 0x09 || b == 0x0d || b == 0x0a
}

fn byte_is_digit(b: u8) -> (r: bool)
    ensures
        r == is_digit(b),
{
    0x30 <= b && b <= 0x39
}

fn byte_is_hex_digit(b: u8) -> (r: bool)
    ensures
        r == is_hex_digit(b),
{
    (0x30 <= b && b <= 0x39) || (0x61 <= b && b <= 0x66) || (0x41 <= b && b <= 0x46)
}

fn byte_is_ident(b: u8) -> (r: bool)
    ensures
        r == is_ident_byte(b),
{
    (0x61 <= b && b <= 0x7a) || (0x41 <= b && b <= 0x5a) || (0x30 <= b && b <= 0x39) || b == 0x5f
        || b == 0x27
}

/// The characters of a byte sequence, each byte read as one character.
pub open spec fn bytes_text(s: Seq<u8>) -> Seq<char> {
    s.map_values(|b: u8| byte_char(b))
}

/// The text `std::str::from_utf8(s).unwrap_or(default)` yields.
pub open spec fn utf8_or(s: Seq<u8>, default: Seq<char>) -> Seq<char> {
    if valid_utf8(s) {
        decode_utf8(s)
    } else {
        default
    }
}

/// Whether a character has the Unicode `Alphabetic` property (`char::is_alphabetic`).
pub uninterp spec fn unicode_alphabetic(c: char) -> bool;

/// `char::is_alphabetic`.  The contract names its result
/// (`unicode_alphabetic`), a function of the character alone; which
/// characters have the property is not stated.
#[verifier::external_body]
fn char_is_alphabetic(c: char) -> (r: bool)
    ensures
        r == unicode_alphabetic(c),
{
    c.is_alphabetic()
}

// ---------------------------------------------------------------------------
// Operators
// ---------------------------------------------------------------------------

/// The byte at `i`, or 0 past the end (0 never starts or continues an operator).
pub open spec fn byte_at(s: Seq<u8>, i: int) -> u8 {
    if 0 <= i < s.len() {
        s[i]
    } else {
        0
    }
}

/// The operator or delimiter token (kind and length in bytes) that starts at `i`,
/// if the byte there starts one.
pub open spec fn spec_operator(s: Seq<u8>, i: int) -> Option<(TokenType, nat)> {
    let b = byte_at(s, i);
    let b1 = byte_at(s, i + 1);
    let b2 = byte_at(s, i + 2);
    if b == 0x28 {
        Some((TokenType::LParen, 1))
    } else if b == 0x29 {
        Some((TokenType::RParen, 1))
    } else if b == 0x7b {
        Some((TokenType::LBrace, 1))
    } else if b == 0x7d {
        Some((TokenType::RBrace, 1))
    } else if b == 0x5b {
        Some((TokenType::LBracket, 1))
    } else if b == 0x5d {
        Some((TokenType::RBracket, 1))
    } else if b == 0x3b {
        Some((TokenType::Semicolon, 1))
    } else if b == 0x2c {
        Some((TokenType::Comma, 1))
    } else if b == 0x3f {
        Some((TokenType::Question, 1))
    } else if b == 0x40 {
        if b1 == 0x5b {
            None
        } else {
            Some((TokenType::At, 1))
        }
    } else if b == 0x3a {
        if b1 == 0x3d { Some((TokenType::Assign, 2)) } else { Some((TokenType::Colon, 1)) }
    } else if b == 0x3d {
        if b1 == 0x3d {
            Some((TokenType::Eq, 2))
        } else if b1 == 0x3e {
            Some((TokenType::FatArrow, 2))
        } else {
            Some((TokenType::Assign, 1))
        }
    } else if b == 0x21 {
        if b1 == 0x3d { Some((TokenType::Neq, 2)) } else { Some((TokenType::Not, 1)) }
    } else if b == 0x3c {
        if b1 == 0x3d {
            Some((TokenType::Le, 2))
        } else if b1 == 0x3c {
            Some((TokenType::Shl, 2))
        } else if b1 == 0x2d {
            Some((TokenType::LeftArrow, 2))
        } else {
            Some((TokenType::Lt, 1))
        }
    } else if b == 0x3e {
        if b1 == 0x3d {
            Some((TokenType::Ge, 2))
        } else if b1 == 0x3e {
            if b2 == 0x3e { Some((TokenType::UShr, 3)) } else { Some((TokenType::Shr, 2)) }
        } else {
            Some((TokenType::Gt, 1))
        }
    } else if b == 0x2d {
        if b1 == 0x3e {
            Some((TokenType::Arrow, 2))
        } else if b1 == 0x3d {
            Some((TokenType::MinusAssign, 2))
        } else {
            Some((TokenType::Minus, 1))
        }
    } else if b == 0x2b {
        if b1 == 0x3d { Some((TokenType::PlusAssign, 2)) } else { Some((TokenType::Plus, 1)) }
    } else if b == 0x2a {
        if b1 == 0x3d { Some((TokenType::MulAssign, 2)) } else { Some((TokenType::Mul, 1)) }
    } else if b == 0x2f {
        if b1 == 0x3d { Some((TokenType::DivAssign, 2)) } else { Some((TokenType::Div, 1)) }
    } else if b == 0x25 {
        if b1 == 0x3d { Some((TokenType::ModAssign, 2)) } else { Some((TokenType::Mod, 1)) }
    } else if b == 0x26 {
        if b1 == 0x26 { Some((TokenType::And, 2)) } else { Some((TokenType::Amp, 1)) }
    } else if b == 0x7c {
        if b1 == 0x7c { Some((TokenType::Or, 2)) } else { Some((TokenType::Pipe, 1)) }
    } else if b == 0x5e {
        Some((TokenType::Power, 1))
    } else if b == 0x7e {
        if b1 == 0x3d { Some((TokenType::Assign, 2)) } else { Some((TokenType::Tilde, 1)) }
    } else if b == 0x5f {
        Some((TokenType::Underscore, 1))
    } else if b == 0x2e {
        if is_digit(b1) {
            None
        } else if b1 == 0x2e && b2 == 0x2e {
            Some((TokenType::Dot, 3))
        } else if b1 == 0x2e {
            Some((TokenType::Identifier, 2))
        } else {
            Some((TokenType::Dot, 1))
        }
    } else {
        None
    }
}

/// An operator or delimiter is read as the token kind whose spelling is its
/// text: the kind prints, in quotes, as exactly the bytes it was read from.
/// The exceptions are `=` and `~=`, read as the assignment `:=`; `...`, read
/// as a dot; and `..`, read as an identifier.
pub proof fn lemma_operator_spelling(s: Seq<u8>, i: int)
    requires
        0 <= i < s.len(),
        spec_operator(s, i) is Some,
    ensures
        ({
            let (t, n) = spec_operator(s, i).unwrap();
            let text = bytes_text(s.subrange(i, i + n));
            &&& i + n <= s.len()
            &&& {
                ||| spec_token_type_str(t) == "'"@ + text + "'"@
                ||| t == TokenType::Assign && (text == "="@ || text == "~="@)
                ||| t == TokenType::Dot && text == "..."@
                ||| t == TokenType::Identifier && text == ".."@
            }
        }),
{
    let b = byte_at(s, i);
    let b1 = byte_at(s, i + 1);
    let b2 = byte_at(s, i + 2);
    let (t, n) = spec_operator(s, i).unwrap();
    assert(i + n <= s.len());
    let text = bytes_text(s.subrange(i, i + n));
    let quoted = "'"@ + text + "'"@;
    reveal_strlit("'");
    reveal_strlit("=");
    reveal_strlit("~=");
    reveal_strlit("...");
    reveal_strlit("..");
        if b == 0x28 {
            assert(text =~= seq!['(']);
            reveal_strlit("'('");
            assert(quoted =~= "'('"@);
            assert(spec_token_type_str(t) == quoted);
        } else if b == 0x29 {
            assert(text =~= seq![')']);
            reveal_strlit("')'");
            assert(quoted =~= "')'"@);
            assert(spec_token_type_str(t) == quoted);
        } else if b == 0x7b {
            assert(text =~= seq!['{']);
            reveal_strlit("'{'");
            assert(quoted =~= "'{'"@);
            assert(spec_token_type_str(t) == quoted);
        } else if b == 0x7d {
            assert(text =~= seq!['}']);
            reveal_strlit("'}'");
            assert(quoted =~= "'}'"@);
            assert(spec_token_type_str(t) == quoted);
        } else if b == 0x5b {
            assert(text =~= seq!['[']);
            reveal_strlit("'['");
            assert(quoted =~= "'['"@);
            assert(spec_token_type_str(t) == quoted);
        } else if b == 0x5d {
            assert(text =~= seq![']']);
            reveal_strlit("']'");
            assert(quoted =~= "']'"@);
            assert(spec_token_type_str(t) == quoted);
        } else if b == 0x3b {
            assert(text =~= seq![';']);
            reveal_strlit("';'");
            assert(quoted =~= "';'"@);
            assert(spec_token_type_str(t) == quoted);
        } else if b == 0x2c {
            assert(text =~= seq![',']);
            reveal_strlit("','");
            assert(quoted =~= "','"@);
            assert(spec_token_type_str(t) == quoted);
        } else if b == 0x3f {
            assert(text =~= seq!['?']);
            reveal_strlit("'?'");
            assert(quoted =~= "'?'"@);
            assert(spec_token_type_str(t) == quoted);
        } else if b == 0x40 && b1 != 0x5b {
            assert(text =~= seq!['@']);
            reveal_strlit("'@'");
            assert(quoted =~= "'@'"@);
            assert(spec_token_type_str(t) == quoted);
        } else if b == 0x3a && b1 == 0x3d {
            assert(text =~= seq![':', '=']);
            reveal_strlit("':='");
            assert(quoted =~= "':='"@);
            assert(spec_token_type_str(t) == quoted);
        } else if b == 0x3a && b1 != 0x3d {
            assert(text =~= seq![':']);
            reveal_strlit("':'");
            assert(quoted =~= "':'"@);
            assert(spec_token_type_str(t) == quoted);
        } else if b == 0x3d && b1 == 0x3d {
            assert(text =~= seq!['=', '=']);
            reveal_strlit("'=='");
            assert(quoted =~= "'=='"@);
            assert(spec_token_type_str(t) == quoted);
        } else if b == 0x3d && b1 == 0x3e {
            assert(text =~= seq!['=', '>']);
            reveal_strlit("'=>'");
            assert(quoted =~= "'=>'"@);
            assert(spec_token_type_str(t) == quoted);
        } else if b == 0x3d && b1 != 0x3d && b1 != 0x3e {
            assert(text =~= seq!['=']);
            reveal_strlit("=");
            assert(text =~= "="@);
        } else if b == 0x21 && b1 == 0x3d {
            assert(text =~= seq!['!', '=']);
            reveal_strlit("'!='");
            assert(quoted =~= "'!='"@);
            assert(spec_token_type_str(t) == quoted);
        } else if b == 0x21 && b1 != 0x3d {
            assert(text =~= seq!['!']);
            reveal_strlit("'!'");
            assert(quoted =~= "'!'"@);
            assert(spec_token_type_str(t) == quoted);
        } else if b == 0x3c && b1 == 0x3d {
            assert(text =~= seq!['<', '=']);
            reveal_strlit("'<='");
            assert(quoted =~= "'<='"@);
            assert(spec_token_type_str(t) == quoted);
        } else if b == 0x3c && b1 == 0x3c {
            assert(text =~= seq!['<', '<']);
            reveal_strlit("'<<'");
            assert(quoted =~= "'<<'"@);
            assert(spec_token_type_str(t) == quoted);
        } else if b == 0x3c && b1 == 0x2d {
            assert(text =~= seq!['<', '-']);
            reveal_strlit("'<-'");
            assert(quoted =~= "'<-'"@);
            assert(spec_token_type_str(t) == quoted);
        } else if b == 0x3c && b1 != 0x3d && b1 != 0x3c && b1 != 0x2d {
            assert(text =~= seq!['<']);
            reveal_strlit("'<'");
            assert(quoted =~= "'<'"@);
            assert(spec_token_type_str(t) == quoted);
        } else if b == 0x3e && b1 == 0x3d {
            assert(text =~= seq!['>', '=']);
            reveal_strlit("'>='");
            assert(quoted =~= "'>='"@);
            assert(spec_token_type_str(t) == quoted);
        } else if b == 0x3e && b1 == 0x3e && b2 == 0x3e {
            assert(text =~= seq!['>', '>', '>']);
            reveal_strlit("'>>>'");
            assert(quoted =~= "'>>>'"@);
            assert(spec_token_type_str(t) == quoted);
        } else if b == 0x3e && b1 == 0x3e && b2 != 0x3e {
            assert(text =~= seq!['>', '>']);
            reveal_strlit("'>>'");
            assert(quoted =~= "'>>'"@);
            assert(spec_token_type_str(t) == quoted);
        } else if b == 0x3e && b1 != 0x3d && b1 != 0x3e {
            assert(text =~= seq!['>']);
            reveal_strlit("'>'");
            assert(quoted =~= "'>'"@);
            assert(spec_token_type_str(t) == quoted);
        } else if b == 0x2d && b1 == 0x3e {
            assert(text =~= seq!['-', '>']);
            reveal_strlit("'->'");
            assert(quoted =~= "'->'"@);
            assert(spec_token_type_str(t) == quoted);
        } else if b == 0x2d && b1 == 0x3d {
            assert(text =~= seq!['-', '=']);
            reveal_strlit("'-='");
            assert(quoted =~= "'-='"@);
            assert(spec_token_type_str(t) == quoted);
        } else if b == 0x2d && b1 != 0x3e && b1 != 0x3d {
            assert(text =~= seq!['-']);
            reveal_strlit("'-'");
            assert(quoted =~= "'-'"@);
            assert(spec_token_type_str(t) == quoted);
        } else if b == 0x2b && b1 == 0x3d {
            assert(text =~= seq!['+', '=']);
            reveal_strlit("'+='");
            assert(quoted =~= "'+='"@);
            assert(spec_token_type_str(t) == quoted);
        } else if b == 0x2b && b1 != 0x3d {
            assert(text =~= seq!['+']);
            reveal_strlit("'+'");
            assert(quoted =~= "'+'"@);
            assert(spec_token_type_str(t) == quoted);
        } else if b == 0x2a && b1 == 0x3d {
            assert(text =~= seq!['*', '=']);
            reveal_strlit("'*='");
            assert(quoted =~= "'*='"@);
            assert(spec_token_type_str(t) == quoted);
        } else if b == 0x2a && b1 != 0x3d {
            assert(text =~= seq!['*']);
            reveal_strlit("'*'");
            assert(quoted =~= "'*'"@);
            assert(spec_token_type_str(t) == quoted);
        } else if b == 0x2f && b1 == 0x3d {
            assert(text =~= seq!['/', '=']);
            reveal_strlit("'/='");
            assert(quoted =~= "'/='"@);
            assert(spec_token_type_str(t) == quoted);
        } else if b == 0x2f && b1 != 0x3d {
            assert(text =~= seq!['/']);
            reveal_strlit("'/'");
            assert(quoted =~= "'/'"@);
            assert(spec_token_type_str(t) == quoted);
        } else if b == 0x25 && b1 == 0x3d {
            assert(text =~= seq!['%', '=']);
            reveal_strlit("'%='");
            assert(quoted =~= "'%='"@);
            assert(spec_token_type_str(t) == quoted);
        } else if b == 0x25 && b1 != 0x3d {
            assert(text =~= seq!['%']);
            reveal_strlit("'%'");
            assert(quoted =~= "'%'"@);
            assert(spec_token_type_str(t) == quoted);
        } else if b == 0x26 && b1 == 0x26 {
            assert(text =~= seq!['&', '&']);
            reveal_strlit("'&&'");
            assert(quoted =~= "'&&'"@);
            assert(spec_token_type_str(t) == quoted);
        } else if b == 0x26 && b1 != 0x26 {
            assert(text =~= seq!['&']);
            reveal_strlit("'&'");
            assert(quoted =~= "'&'"@);
            assert(spec_token_type_str(t) == quoted);
        } else if b == 0x7c && b1 == 0x7c {
            assert(text =~= seq!['|', '|']);
            reveal_strlit("'||'");
            assert(quoted =~= "'||'"@);
            assert(spec_token_type_str(t) == quoted);
        } else if b == 0x7c && b1 != 0x7c {
            assert(text =~= seq!['|']);
            reveal_strlit("'|'");
            assert(quoted =~= "'|'"@);
            assert(spec_token_type_str(t) == quoted);
        } else if b == 0x5e {
            assert(text =~= seq!['^']);
            reveal_strlit("'^'");
            assert(quoted =~= "'^'"@);
            assert(spec_token_type_str(t) == quoted);
        } else if b == 0x7e && b1 == 0x3d {
            assert(text =~= seq!['~', '=']);
            reveal_strlit("~=");
            assert(text =~= "~="@);
        } else if b == 0x7e && b1 != 0x3d {
            assert(text =~= seq!['~']);
            reveal_strlit("'~'");
            assert(quoted =~= "'~'"@);
            assert(spec_token_type_str(t) == quoted);
        } else if b == 0x5f {
            assert(text =~= seq!['_']);
            reveal_strlit("'_'");
            assert(quoted =~= "'_'"@);
            assert(spec_token_type_str(t) == quoted);
        } else if b == 0x2e && !is_digit(b1) && b1 == 0x2e && b2 == 0x2e {
            assert(text =~= seq!['.', '.', '.']);
            reveal_strlit("...");
            assert(text =~= "..."@);
        } else if b == 0x2e && !is_digit(b1) && b1 == 0x2e && b2 != 0x2e {
            assert(text =~= seq!['.', '.']);
            reveal_strlit("..");
            assert(text =~= ".."@);
        } else if b == 0x2e && !is_digit(b1) && b1 != 0x2e {
            assert(text =~= seq!['.']);
            reveal_strlit("'.'");
            assert(quoted =~= "'.'"@);
            assert(spec_token_type_str(t) == quoted);
        }
}

/// The token kind of a single-character Unicode token, or `None` when the
/// character does not form a token of its own.
pub open spec fn spec_unicode_token(c: char) -> Option<TokenType> {
    if c == '·' {
        Some(TokenType::Mul)
    } else if c == '×' {
        Some(TokenType::Cross)
    } else if c == '∧' {
        Some(TokenType::And)
    } else if c == '∨' {
        Some(TokenType::Or)
    } else if c == '⊻' {
        Some(TokenType::Xor)
    } else if c == '⊕' {
        Some(TokenType::Tilde)
    } else if c == '¬' {
        Some(TokenType::Not)
    } else if c == '→' {
        Some(TokenType::Arrow)
    } else if c == '⇒' {
        Some(TokenType::FatArrow)
    } else if c == '←' {
        Some(TokenType::LeftArrow)
    } else if c == '↦' {
        Some(TokenType::Mapsto)
    } else if c == '≠' {
        Some(TokenType::Neq)
    } else if c == '≤' {
        Some(TokenType::Le)
    } else if c == '≥' {
        Some(TokenType::Ge)
    } else if c == 'Π' || c == '∏' {
        Some(TokenType::Pi)
    } else if c == 'λ' {
        Some(TokenType::KwLambda)
    } else if c == '⊥' || c == '⊤' || is_math_letter(c) || unicode_alphabetic(c) {
        Some(TokenType::Identifier)
    } else {
        None
    }
}

/// Greek letters and the number-set letters used as identifiers.
pub open spec fn is_math_letter(c: char) -> bool {
    c == 'α' || c == 'β' || c == 'γ' || c == 'δ' || c == 'ε' || c == 'ζ' || c == 'η' || c == 'θ'
        || c == 'ι' || c == 'κ' || c == 'λ' || c == 'μ' || c == 'ν' || c == 'ξ' || c == 'ο'
        || c == 'π' || c == 'ρ' || c == 'σ' || c == 'τ' || c == 'υ' || c == 'φ' || c == 'χ'
        || c == 'ψ' || c == 'ω' || c == '𝔹' || c == 'ℕ' || c == 'ℤ' || c == 'ℚ' || c == 'ℝ'
        || c == 'ℂ'
}

// ---------------------------------------------------------------------------
// Whitespace and comments
// ---------------------------------------------------------------------------

/// Scanning state while skipping blanks: `depth > 0` inside `depth` nested
/// `/+ ... +/` comments, `line` inside a `// ...` comment.
pub open spec fn skip_from(s: Seq<u8>, i: int, depth: nat, line: bool) -> int
    decreases s.len() - i,
{
    if i < 0 || i >= s.len() {
        i
    } else if depth > 0 {
        if s[i] == 0x2f && byte_at(s, i + 1) == 0x2b {
            skip_from(s, i + 2, depth + 1, false)
        } else if s[i] == 0x2b && byte_at(s, i + 1) == 0x2f {
            skip_from(s, i + 2, (depth - 1) as nat, false)
        } else {
            skip_from(s, i + 1, depth, false)
        }
    } else if line {
        skip_from(s, i + 1, 0, s[i] != 0x0a)
    } else if is_space(s[i]) {
        skip_from(s, i + 1, 0, false)
    } else if s[i] == 0x2f && byte_at(s, i + 1) == 0x2f {
        skip_from(s, i + 1, 0, true)
    } else if s[i] == 0x2f && byte_at(s, i + 1) == 0x2b {
        skip_from(s, i + 2, 1, false)
    } else {
        i
    }
}

/// The position of the first byte at or after `i` that is neither whitespace
/// nor inside a comment.
pub open spec fn skip_blank(s: Seq<u8>, i: int) -> int {
    skip_from(s, i, 0, false)
}

proof fn lemma_skip_from_ge(s: Seq<u8>, i: int, depth: nat, line: bool)
    requires
        0 <= i,
    ensures
        i <= skip_from(s, i, depth, line),
        i <= s.len() ==> skip_from(s, i, depth, line) <= s.len(),
    decreases s.len() - i,
{
    if i >= s.len() {
    } else if depth > 0 {
        if s[i] == 0x2f && byte_at(s, i + 1) == 0x2b {
            lemma_skip_from_ge(s, i + 2, depth + 1, false);
        } else if s[i] == 0x2b && byte_at(s, i + 1) == 0x2f {
            lemma_skip_from_ge(s, i + 2, (depth - 1) as nat, false);
        } else {
            lemma_skip_from_ge(s, i + 1, depth, false);
        }
    } else if line {
        lemma_skip_from_ge(s, i + 1, 0, s[i] != 0x0a);
    } else if is_space(s[i]) {
        lemma_skip_from_ge(s, i + 1, 0, false);
    } else if s[i] == 0x2f && byte_at(s, i + 1) == 0x2f {
        lemma_skip_from_ge(s, i + 1, 0, true);
    } else if s[i] == 0x2f && byte_at(s, i + 1) == 0x2b {
        lemma_skip_from_ge(s, i + 2, 1, false);
    }
}


// ---------------------------------------------------------------------------
// What one token is
// ---------------------------------------------------------------------------

/// The end of the run of UTF-8 continuation bytes (0x80..0xBF) that follows `i`.
pub open spec fn cont_end(s: Seq<u8>, i: int) -> int
    decreases s.len() - i,
{
    if i + 1 >= s.len() {
        s.len() as int
    } else if 0x80 <= s[i + 1] < 0xc0 {
        cont_end(s, i + 1)
    } else {
        i + 1
    }
}

/// The run of continuation bytes after `i` ends past `i`, within the input,
/// holds only continuation bytes, and stops at the first byte that is none.
pub proof fn lemma_cont_end(s: Seq<u8>, i: int)
    requires
        0 <= i < s.len(),
    ensures
        i < cont_end(s, i) <= s.len(),
        forall|k: int| i < k < cont_end(s, i) ==> 0x80 <= #[trigger] s[k] < 0xc0,
        cont_end(s, i) == s.len() || !(0x80 <= s[cont_end(s, i)] < 0xc0),
    decreases s.len() - i,
{
    if i + 1 < s.len() && 0x80 <= s[i + 1] < 0xc0 {
        lemma_cont_end(s, i + 1);
    }
}

/// The first character of the UTF-8 sequence that starts at `i` (the byte
/// at `i` and the continuation bytes after it), if that sequence spells one.
pub open spec fn char_at(s: Seq<u8>, i: int) -> Option<char> {
    let cs = utf8_or(s.subrange(i, cont_end(s, i)), Seq::empty());
    if cs.len() > 0 {
        Some(cs[0])
    } else {
        None
    }
}

/// At `i` stands a non-ASCII letter (or an underscore) that continues an
/// identifier.
pub open spec fn continues_ident_unicode(s: Seq<u8>, i: int) -> bool {
    &&& s[i] >= 0x80
    &&& match char_at(s, i) {
        Some(c) => unicode_alphabetic(c) || c == '_',
        None => false,
    }
}

/// Where an identifier that has reached `i` ends: it goes on through ASCII
/// letters, digits, underscores and primes, and through whole non-ASCII
/// letters.
pub open spec fn ident_end(s: Seq<u8>, i: int) -> int
    decreases s.len() - i,
{
    if 0 <= i < s.len() && is_ident_byte(s[i]) {
        ident_end(s, i + 1)
    } else if 0 <= i < s.len() && continues_ident_unicode(s, i) {
        proof {
            lemma_cont_end(s, i);
        }
        ident_end(s, cont_end(s, i))
    } else {
        i
    }
}

/// An identifier or keyword spanning `[start, end)`.
pub open spec fn ident_token(s: Seq<u8>, start: int, end: int, r: Token) -> bool {
    &&& end == ident_end(s, start)
    &&& r.text@ == utf8_or(s.subrange(start, end), Seq::empty())
    &&& r.ty == match spec_keyword(r.text@) {
        Some(k) => k,
        None => TokenType::Identifier,
    }
    &&& r.offset == start
}

/// The first position at or after `i` that holds no decimal digit.
pub open spec fn digits_end(s: Seq<u8>, i: int) -> int
    decreases s.len() - i,
{
    if 0 <= i < s.len() && is_digit(s[i]) {
        digits_end(s, i + 1)
    } else {
        i
    }
}

/// The end of an exponent's digits that start at `i`: an optional sign, then digits.
pub open spec fn exponent_end(s: Seq<u8>, i: int) -> int {
    digits_end(
        s,
        if byte_at(s, i) == 0x2b || byte_at(s, i) == 0x2d {
            i + 1
        } else {
            i
        },
    )
}

/// The first position at or after `i` that holds neither a digit of the
/// base (16 when `hex`, else 2) nor an underscore.
pub open spec fn radix_digits_end(s: Seq<u8>, i: int, hex: bool) -> int
    decreases s.len() - i,
{
    if 0 <= i < s.len() && (s[i] == 0x5f || if hex {
        is_hex_digit(s[i])
    } else {
        s[i] == 0x30 || s[i] == 0x31
    }) {
        radix_digits_end(s, i + 1, hex)
    } else {
        i
    }
}

/// The digits from `i` end within the input, at or after `i`.
pub proof fn lemma_digits_end(s: Seq<u8>, i: int)
    requires
        0 <= i <= s.len(),
    ensures
        i <= digits_end(s, i) <= s.len(),
    decreases s.len() - i,
{
    if i < s.len() && is_digit(s[i]) {
        lemma_digits_end(s, i + 1);
    }
}

/// Scanning decimal digits from `i`, with underscores, fractions (`.` then
/// a digit) and exponents (`e` or `E` then a sign or a digit) anywhere
/// along: where the numeral ends, and whether a fraction or an exponent was
/// met (`f` says whether one was met before `i`).
pub open spec fn decimal_scan(s: Seq<u8>, i: int, f: bool) -> (int, bool)
    decreases s.len() - i,
{
    if i < 0 || i >= s.len() {
        (i, f)
    } else if is_digit(s[i]) || s[i] == 0x5f {
        decimal_scan(s, i + 1, f)
    } else if s[i] == 0x2e && is_digit(byte_at(s, i + 1)) {
        let j = digits_end(s, i + 1);
        let k = if byte_at(s, j) == 0x65 || byte_at(s, j) == 0x45 {
            exponent_end(s, j + 1)
        } else {
            j
        };
        proof {
            lemma_digits_end(s, i + 1);
            if byte_at(s, j) == 0x65 || byte_at(s, j) == 0x45 {
                lemma_digits_end(s, j + 1);
                if j + 1 < s.len() {
                    lemma_digits_end(s, j + 2);
                }
            }
        }
        decimal_scan(s, k, true)
    } else if (s[i] == 0x65 || s[i] == 0x45) && (byte_at(s, i + 1) == 0x2b || byte_at(s, i + 1)
        == 0x2d || is_digit(byte_at(s, i + 1))) {
        proof {
            lemma_digits_end(s, i + 1);
            if i + 1 < s.len() {
                lemma_digits_end(s, i + 2);
            }
        }
        decimal_scan(s, exponent_end(s, i + 1), true)
    } else {
        (i, f)
    }
}

/// The numeral starting at `start`: a hexadecimal (`0x`) or binary (`0b`)
/// one, or a decimal one; where it ends and whether it is a float.
pub open spec fn numeral_scan(s: Seq<u8>, start: int) -> (int, bool) {
    let b1 = byte_at(s, start + 1);
    if s[start] == 0x30 && (b1 == 0x78 || b1 == 0x58) {
        (radix_digits_end(s, start + 2, true), false)
    } else if s[start] == 0x30 && (b1 == 0x62 || b1 == 0x42) {
        (radix_digits_end(s, start + 2, false), false)
    } else {
        decimal_scan(s, start, false)
    }
}

/// Where the numeric literal starting at `start` ends, and its kind: a
/// numeral followed by `\` and digits is a rational literal.
pub open spec fn number_scan(s: Seq<u8>, start: int) -> (int, TokenType) {
    let (e, f) = numeral_scan(s, start);
    if byte_at(s, e) == 0x5c {
        (digits_end(s, e + 1), TokenType::RationalLit)
    } else {
        (
            e,
            if f {
                TokenType::FloatLit
            } else {
                TokenType::IntLit
            },
        )
    }
}

/// A numeric literal spanning `[start, end)`.
pub open spec fn number_token(s: Seq<u8>, start: int, end: int, r: Token) -> bool {
    &&& end == number_scan(s, start).0
    &&& r.ty == number_scan(s, start).1
    &&& r.text@ == bytes_text(s.subrange(start, end))
    &&& r.offset == start
}

/// A token that starts with a non-ASCII byte at `start`.
pub open spec fn unicode_token(s: Seq<u8>, start: int, end: int, r: Token) -> bool {
    let q = cont_end(s, start);
    let chars = utf8_or(s.subrange(start, q), Seq::empty());
    if chars.len() > 0 && spec_unicode_token(chars[0]) is Some {
        &&& r.ty == spec_unicode_token(chars[0]).unwrap()
        &&& r.text@ == chars
        &&& end == q
        &&& r.offset == start
    } else {
        &&& r.ty == TokenType::Error
        &&& r.text@ == "unexpected unicode character at byte "@ + decimal_text(s[start] as nat)
        &&& end == (if q < s.len() { q + 1 } else { q })
        &&& r.offset == start
    }
}

/// The character an escape sequence `\b` stands for.
pub open spec fn escape_char(b: u8) -> char {
    if b == 0x6e {
        '\n'
    } else if b == 0x72 {
        '\r'
    } else if b == 0x74 {
        '\t'
    } else if b == 0x30 {
        '\0'
    } else {
        byte_char(b)
    }
}

/// Reading a quoted string's body from `i` up to the closing `quote`: the
/// characters read, escapes resolved, and the position after the closing
/// quote (the end of the input when there is none).
pub open spec fn string_body(s: Seq<u8>, i: int, quote: u8) -> (Seq<char>, int)
    decreases s.len() - i,
{
    if i < 0 || i >= s.len() {
        (Seq::empty(), s.len() as int)
    } else if s[i] == 0x5c {
        if i + 1 >= s.len() {
            (Seq::empty(), s.len() as int)
        } else {
            let r = string_body(s, i + 2, quote);
            (seq![escape_char(s[i + 1])] + r.0, r.1)
        }
    } else if s[i] == quote {
        (Seq::empty(), i + 1)
    } else {
        let r = string_body(s, i + 1, quote);
        (seq![byte_char(s[i])] + r.0, r.1)
    }
}

/// Reading a raw string's body from `i`: the bytes up to the next `"`, as
/// they are, and the position after that quote (the end of the input when
/// there is none).
pub open spec fn raw_body(s: Seq<u8>, i: int) -> (Seq<char>, int)
    decreases s.len() - i,
{
    if i < 0 || i >= s.len() {
        (Seq::empty(), s.len() as int)
    } else if s[i] == 0x22 {
        (Seq::empty(), i + 1)
    } else {
        let r = raw_body(s, i + 1);
        (seq![byte_char(s[i])] + r.0, r.1)
    }
}

/// The text and the end of the string literal starting at `start`: a raw
/// string `r"..."` or a regular one `"..."`.
pub open spec fn string_token(s: Seq<u8>, start: int) -> (Seq<char>, int) {
    if s[start] == 0x72 {
        raw_body(s, start + 2)
    } else {
        string_body(s, start + 1, 0x22)
    }
}

/// The character and the end of the character literal starting at `start`:
/// one character or escape after the opening quote (`?` when the input ends
/// first), then the closing quote if it is there.
pub open spec fn char_token(s: Seq<u8>, start: int) -> (char, int) {
    let i = start + 1;
    let (c, e) = if i >= s.len() {
        ('?', i)
    } else if s[i] == 0x5c {
        if i + 1 >= s.len() {
            ('?', i + 1)
        } else {
            (escape_char(s[i + 1]), i + 2)
        }
    } else {
        (byte_char(s[i]), i + 1)
    };
    (c, if byte_at(s, e) == 0x27 { e + 1 } else { e })
}

/// Reading an annotation's content from `i` at bracket nesting `depth`: the
/// characters up to the bracket that closes the annotation, and the
/// position after it (the end of the input when it is never closed).
pub open spec fn annotation_body(s: Seq<u8>, i: int, depth: int) -> (Seq<char>, int)
    decreases s.len() - i,
{
    if i < 0 || i >= s.len() || depth <= 0 {
        (Seq::empty(), i)
    } else {
        let c = s[i];
        let d = if c == 0x5b {
            depth + 1
        } else if c == 0x5d {
            depth - 1
        } else {
            depth
        };
        if d > 0 {
            let r = annotation_body(s, i + 1, d);
            (seq![byte_char(c)] + r.0, r.1)
        } else {
            (Seq::empty(), i + 1)
        }
    }
}

/// The token kind and extent of the token that starts at `start` and ends at `end`.
pub open spec fn token_shape(s: Seq<u8>, start: int, end: int, r: Token) -> bool {
    let b = s[start];
    let b1 = byte_at(s, start + 1);
    if b == 0x40 && b1 == 0x5b {
        &&& r.ty == TokenType::Annotation
        &&& r.offset == start
        &&& r.text@ == annotation_body(s, start + 2, 1).0
        &&& end == annotation_body(s, start + 2, 1).1
    } else if b == 0x22 || (b == 0x72 && b1 == 0x22) {
        &&& r.ty == TokenType::StringLit
        &&& r.offset == start
        &&& r.text@ == string_token(s, start).0
        &&& end == string_token(s, start).1
    } else if b == 0x27 {
        &&& r.ty == TokenType::CharLit
        &&& r.text@ == seq![char_token(s, start).0]
        &&& end == char_token(s, start).1
        &&& r.offset == start
    } else if is_digit(b) || (b == 0x2e && is_digit(b1)) {
        number_token(s, start, end, r)
    } else if b >= 0x80 {
        unicode_token(s, start, end, r)
    } else if spec_operator(s, start) is Some {
        let (t, n) = spec_operator(s, start).unwrap();
        &&& r.ty == t
        &&& end == start + n
        &&& r.text@ == bytes_text(s.subrange(start, end))
        &&& r.offset == start
    } else if is_letter(b) {
        ident_token(s, start, end, r)
    } else {
        &&& r.ty == TokenType::Error
        &&& r.text@ == "unexpected character '"@ + seq![byte_char(b)] + "'"@
        &&& end == start + 1
        &&& r.offset == start
    }
}

/// The 1-based line of byte `p`: one more than the newlines before it.
pub open spec fn line_of(s: Seq<u8>, p: int) -> int
    decreases p,
{
    if p <= 0 {
        1
    } else {
        line_of(s, p - 1) + if s[p - 1] == 0x0a {
            1int
        } else {
            0int
        }
    }
}

/// The 1-based column of byte `p`: one more than the bytes between the
/// last newline before it (or the start) and it.
pub open spec fn col_of(s: Seq<u8>, p: int) -> int
    decreases p,
{
    if p <= 0 {
        1
    } else if s[p - 1] == 0x0a {
        1
    } else {
        col_of(s, p - 1) + 1
    }
}

/// Line and column of byte `p` are between 1 and `p + 1`.
pub proof fn lemma_position_bounds(s: Seq<u8>, p: int)
    requires
        0 <= p,
    ensures
        1 <= line_of(s, p) <= p + 1,
        1 <= col_of(s, p) <= p + 1,
    decreases p,
{
    if p > 0 {
        lemma_position_bounds(s, p - 1);
    }
}

/// Lexing from byte position `p0` yields token `r` and stops at `p1`: blanks
/// and comments are skipped, then one token is read (end of file when
/// nothing but blanks remain).
pub open spec fn lex_step(s: Seq<u8>, p0: int, p1: int, r: Token) -> bool {
    let start = skip_blank(s, p0);
    &&& p0 <= start <= p1 <= s.len()
    &&& (r.ty == TokenType::Eof) == (start == s.len())
    &&& r.ty == TokenType::Eof ==> p1 == s.len() && r.text@.len() == 0 && r.offset == s.len()
    &&& start < s.len() ==> p1 > start && token_shape(s, start, p1, r)
    &&& r.line == line_of(s, start)
    &&& r.col == col_of(s, start)
}

/// Lexing is a function of the input and the position: two steps from the
/// same position stop at the same place and read the same token (kind, text,
/// offset, line and column).
pub proof fn lemma_lex_step_deterministic(s: Seq<u8>, p: int, q1: int, r1: Token, q2: int, r2: Token)
    requires
        lex_step(s, p, q1, r1),
        lex_step(s, p, q2, r2),
    ensures
        q1 == q2,
        r1.ty == r2.ty,
        r1.text@ == r2.text@,
        r1.offset == r2.offset,
        r1.line == r2.line,
        r1.col == r2.col,
{
}

/// Lexing from `p` yields the tokens `ts`, one step after the other, and
/// stops at `q`.
pub open spec fn lex_path(s: Seq<u8>, p: int, ts: Seq<Token>, q: int) -> bool
    decreases ts.len(),
{
    if ts.len() == 0 {
        q == p
    } else {
        exists|m: int| lex_path(s, p, ts.drop_last(), m) && #[trigger] lex_step(s, m, q, ts.last())
    }
}

/// Lexing from `p` yields the tokens `ts` and then the end of the input.
pub open spec fn lexes_all(s: Seq<u8>, p: int, ts: Seq<Token>) -> bool {
    exists|q: int| #[trigger] lex_path(s, p, ts, q) && skip_blank(s, q) == s.len()
}

/// A run of lexing steps read from its first token on: the first step, then
/// a run of the rest.
proof fn lemma_lex_path_front(s: Seq<u8>, p: int, ts: Seq<Token>, q: int)
    requires
        lex_path(s, p, ts, q),
        ts.len() > 0,
    ensures
        exists|m: int| lex_step(s, p, m, ts[0]) && #[trigger] lex_path(s, m, ts.drop_first(), q),
    decreases ts.len(),
{
    let m = choose|m: int| lex_path(s, p, ts.drop_last(), m) && #[trigger] lex_step(s, m, q, ts.last());
    if ts.len() == 1 {
        assert(ts.drop_first().len() == 0);
        assert(lex_path(s, q, ts.drop_first(), q));
    } else {
        lemma_lex_path_front(s, p, ts.drop_last(), m);
        let m1 = choose|m1: int|
            lex_step(s, p, m1, ts.drop_last()[0]) && #[trigger] lex_path(s, m1, ts.drop_last().drop_first(), m);
        assert(ts.drop_first().drop_last() =~= ts.drop_last().drop_first());
        assert(ts.drop_first().last() == ts.last());
        assert(lex_path(s, m1, ts.drop_first(), q));
    }
}

/// Lexing from `p` yields nothing but semicolons before the end of the input.
pub open spec fn only_semicolons(s: Seq<u8>, p: int) -> bool {
    exists|ts: Seq<Token>|
        #[trigger] lexes_all(s, p, ts) && forall|i: int| 0 <= i < ts.len() ==> (#[trigger] ts[i]).ty
            == TokenType::Semicolon
}

/// A step in front of a run of steps is a run.
proof fn lemma_lex_path_prepend(s: Seq<u8>, p: int, q: int, t: Token, ts: Seq<Token>, r: int)
    requires
        lex_step(s, p, q, t),
        lex_path(s, q, ts, r),
    ensures
        lex_path(s, p, seq![t] + ts, r),
    decreases ts.len(),
{
    let all = seq![t] + ts;
    if ts.len() == 0 {
        assert(all.drop_last() =~= Seq::<Token>::empty());
        assert(lex_path(s, p, all.drop_last(), p));
        assert(all.last() == t);
    } else {
        let m = choose|m: int| lex_path(s, q, ts.drop_last(), m) && #[trigger] lex_step(s, m, r, ts.last());
        lemma_lex_path_prepend(s, p, q, t, ts.drop_last(), m);
        assert(all.drop_last() =~= seq![t] + ts.drop_last());
        assert(all.last() == ts.last());
    }
}

/// Lexing from `p` yields only semicolons exactly when its first step reads
/// the end of the input, or a semicolon after which only semicolons follow.
pub proof fn lemma_only_semicolons_step(s: Seq<u8>, p: int, q: int, t: Token)
    requires
        lex_step(s, p, q, t),
    ensures
        only_semicolons(s, p) == (t.ty == TokenType::Eof || (t.ty == TokenType::Semicolon
            && only_semicolons(s, q))),
{
    if only_semicolons(s, p) {
        let ts = choose|ts: Seq<Token>|
            #[trigger] lexes_all(s, p, ts) && forall|i: int| 0 <= i < ts.len() ==> (#[trigger] ts[i]).ty
                == TokenType::Semicolon;
        let e = choose|e: int| #[trigger] lex_path(s, p, ts, e) && skip_blank(s, e) == s.len();
        if ts.len() == 0 {
            assert(e == p);
        } else {
            lemma_lex_path_front(s, p, ts, e);
            let m = choose|m: int| lex_step(s, p, m, ts[0]) && #[trigger] lex_path(s, m, ts.drop_first(), e);
            lemma_lex_step_deterministic(s, p, q, t, m, ts[0]);
            assert(ts[0].ty == TokenType::Semicolon);
            assert(lexes_all(s, q, ts.drop_first()));
            assert forall|i: int| 0 <= i < ts.drop_first().len() implies (#[trigger] ts.drop_first()[i]).ty
                == TokenType::Semicolon by {
                assert(ts.drop_first()[i] == ts[i + 1]);
            }
        }
    }
    if t.ty == TokenType::Eof {
        assert(lex_path(s, p, Seq::<Token>::empty(), p));
        assert(lexes_all(s, p, Seq::<Token>::empty()));
    } else if t.ty == TokenType::Semicolon && only_semicolons(s, q) {
        let ts = choose|ts: Seq<Token>|
            #[trigger] lexes_all(s, q, ts) && forall|i: int| 0 <= i < ts.len() ==> (#[trigger] ts[i]).ty
                == TokenType::Semicolon;
        let e = choose|e: int| #[trigger] lex_path(s, q, ts, e) && skip_blank(s, e) == s.len();
        lemma_lex_path_prepend(s, p, q, t, ts, e);
        let all = seq![t] + ts;
        assert(lexes_all(s, p, all));
        assert forall|i: int| 0 <= i < all.len() implies (#[trigger] all[i]).ty == TokenType::Semicolon by {
            if i > 0 {
                assert(all[i] == ts[i - 1]);
            }
        }
    }
}

/// Each token other than end-of-file takes at least one byte: a run of
/// such tokens spans at least as many bytes as it has tokens.
proof fn lemma_lex_path_len(s: Seq<u8>, p: int, ts: Seq<Token>, q: int)
    requires
        lex_path(s, p, ts, q),
        forall|i: int| 0 <= i < ts.len() ==> (#[trigger] ts[i]).ty != TokenType::Eof,
    ensures
        p + ts.len() <= q,
    decreases ts.len(),
{
    if ts.len() > 0 {
        let m = choose|m: int| lex_path(s, p, ts.drop_last(), m) && #[trigger] lex_step(s, m, q, ts.last());
        assert forall|i: int| 0 <= i < ts.drop_last().len() implies (#[trigger] ts.drop_last()[i]).ty
            != TokenType::Eof by {
            assert(ts.drop_last()[i] == ts[i]);
        }
        lemma_lex_path_len(s, p, ts.drop_last(), m);
        assert(ts.last() == ts[ts.len() - 1]);
        let start = skip_blank(s, m);
        assert(start < s.len());
    }
}

/// Lexing a whole input from `p` reads at most one token (other than
/// end-of-file) per byte left: the token count is bounded by the input size.
pub proof fn lemma_token_count(s: Seq<u8>, p: int, ts: Seq<Token>)
    requires
        lexes_all(s, p, ts),
        forall|i: int| 0 <= i < ts.len() ==> (#[trigger] ts[i]).ty != TokenType::Eof,
    ensures
        p + ts.len() <= s.len(),
{
    let q = choose|q: int| #[trigger] lex_path(s, p, ts, q) && skip_blank(s, q) == s.len();
    lemma_lex_path_len(s, p, ts, q);
    if ts.len() > 0 {
        let m = choose|m: int| lex_path(s, p, ts.drop_last(), m) && #[trigger] lex_step(s, m, q, ts.last());
    } else {
        lemma_skip_from_ge(s, q, 0, false);
    }
}

/// Lexing a whole input is a function of it: two runs from the same
/// position that both reach the end of the input, with no end-of-file token
/// along the way, read the same tokens (kinds, texts and offsets).
pub proof fn lemma_lexes_all_unique(s: Seq<u8>, p: int, ts1: Seq<Token>, ts2: Seq<Token>)
    requires
        lexes_all(s, p, ts1),
        lexes_all(s, p, ts2),
        forall|i: int| 0 <= i < ts1.len() ==> (#[trigger] ts1[i]).ty != TokenType::Eof,
        forall|i: int| 0 <= i < ts2.len() ==> (#[trigger] ts2[i]).ty != TokenType::Eof,
    ensures
        ts1.len() == ts2.len(),
        forall|i: int|
            0 <= i < ts1.len() ==> (#[trigger] ts1[i]).ty == ts2[i].ty && ts1[i].text@ == ts2[i].text@
                && ts1[i].offset == ts2[i].offset,
    decreases ts1.len() + ts2.len(),
{
    let q1 = choose|q: int| #[trigger] lex_path(s, p, ts1, q) && skip_blank(s, q) == s.len();
    let q2 = choose|q: int| #[trigger] lex_path(s, p, ts2, q) && skip_blank(s, q) == s.len();
    if ts1.len() == 0 {
        if ts2.len() > 0 {
            lemma_lex_path_front(s, p, ts2, q2);
            let m = choose|m: int| lex_step(s, p, m, ts2[0]) && #[trigger] lex_path(s, m, ts2.drop_first(), q2);
            assert(ts2[0].ty != TokenType::Eof);
        }
    } else if ts2.len() == 0 {
        lemma_lex_path_front(s, p, ts1, q1);
        let m = choose|m: int| lex_step(s, p, m, ts1[0]) && #[trigger] lex_path(s, m, ts1.drop_first(), q1);
        assert(ts1[0].ty != TokenType::Eof);
    } else {
        lemma_lex_path_front(s, p, ts1, q1);
        lemma_lex_path_front(s, p, ts2, q2);
        let m1 = choose|m: int| lex_step(s, p, m, ts1[0]) && #[trigger] lex_path(s, m, ts1.drop_first(), q1);
        let m2 = choose|m: int| lex_step(s, p, m, ts2[0]) && #[trigger] lex_path(s, m, ts2.drop_first(), q2);
        lemma_lex_step_deterministic(s, p, m1, ts1[0], m2, ts2[0]);
        assert(lexes_all(s, m1, ts1.drop_first()));
        assert(lexes_all(s, m1, ts2.drop_first()));
        lemma_lexes_all_unique(s, m1, ts1.drop_first(), ts2.drop_first());
        assert forall|i: int| 0 <= i < ts1.len() implies (#[trigger] ts1[i]).ty == ts2[i].ty
            && ts1[i].text@ == ts2[i].text@ && ts1[i].offset == ts2[i].offset by {
            if i > 0 {
                assert(ts1[i] == ts1.drop_first()[i - 1]);
                assert(ts2[i] == ts2.drop_first()[i - 1]);
            }
        }
    }
}

// ---------------------------------------------------------------------------
// The lexer
// ---------------------------------------------------------------------------

/// The lexer processes source text and produces tokens.
pub struct Lexer {
    /// The source text (UTF-8 bytes).
    source: Vec<u8>,
    /// Current position in the source.
    pos: usize,
    /// Current line number (1-based).
    line: u32,
    /// Current column number (1-based).
    col: u32,
    /// Last token produced.
    last_token: Option<Token>,
    /// Peeked token (for lookahead).
    peeked: Option<Token>,
}

impl Lexer {
    /// The source bytes.
    pub closed spec fn src(&self) -> Seq<u8> {
        self.source@
    }

    /// The current byte position.
    pub closed spec fn cur(&self) -> nat {
        self.pos as nat
    }

    /// The token a previous `peek_token` holds back, if any.
    pub closed spec fn pending(&self) -> Option<Token> {
        self.peeked
    }

    /// The token most recently returned by `next_token`.
    pub closed spec fn last(&self) -> Option<Token> {
        self.last_token
    }

    pub closed spec fn line_no(&self) -> u32 {
        self.line
    }

    pub closed spec fn col_no(&self) -> u32 {
        self.col
    }

    /// Well-formedness: the position is within the source, the line and column
    /// counters cannot overflow, and a held-back token is what lexing from some
    /// earlier position gave, ending at the current position (so a held-back
    /// end-of-file token means the source is exhausted).
    pub closed spec fn wf(&self) -> bool {
        &&& self.ok()
        &&& (self.peeked matches Some(t) ==> {
            &&& t.ty == TokenType::Eof ==> self.pos == self.source@.len()
            &&& t.offset <= self.pos
            &&& exists|p0: int| lex_step(self.source@, p0, self.pos as int, t)
        })
    }

    /// The position and the line/column counters are within bounds.
    closed spec fn ok(&self) -> bool {
        &&& self.source@.len() <= MAX_SOURCE_LEN
        &&& self.pos <= self.source@.len()
        &&& self.line == line_of(self.source@, self.pos as int)
        &&& self.col == col_of(self.source@, self.pos as int)
    }

    /// The smallest offset the next token returned can have.
    pub closed spec fn floor(&self) -> nat {
        match self.peeked {
            Some(t) => t.offset as nat,
            None => self.pos as nat,
        }
    }

    /// A measure of the input still to be tokenized; it drops with every
    /// token other than end-of-file.
    pub closed spec fn remaining(&self) -> nat {
        (2 * (self.source@.len() - self.pos) + if self.peeked matches Some(t) && t.ty
            != TokenType::Eof {
            1int
        } else {
            0int
        }) as nat
    }

    /// With nothing held back, the input left is the bytes after the position.
    pub proof fn lemma_remaining(&self)
        requires
            self.wf(),
            self.pending() is None,
        ensures
            self.cur() <= self.src().len(),
            self.remaining() == 2 * (self.src().len() - self.cur()),
    {
    }

    /// Whether every byte has been consumed and nothing is held back.
    pub closed spec fn exhausted(&self) -> bool {
        self.pos == self.source@.len() && self.peeked is None
    }

    /// Create a new lexer from source text.
    pub fn new(source: &str) -> (r: Self)
        requires
            source.spec_bytes().len() <= MAX_SOURCE_LEN,
        ensures
            r.wf(),
            r.src() == source.spec_bytes(),
            r.cur() == 0,
            r.line_no() == 1,
            r.col_no() == 1,
            r.pending() is None,
            r.last() is None,
    {
        Lexer {
            source: source.as_bytes_vec(),
            pos: 0,
            line: 1,
            col: 1,
            last_token: None,
            peeked: None,
        }
    }

    /// Get the current location.
    fn location(&self) -> (r: Location)
        ensures
            r == (Location { line: self.line, col: self.col, offset: self.pos }),
    {
        Location { line: self.line, col: self.col, offset: self.pos }
    }

    /// Check if we've reached the end of input.
    fn is_eof(&self) -> (r: bool)
        ensures
            r == (self.pos >= self.source@.len()),
    {
        self.pos >= self.source.len()
    }

    /// Peek at the current byte.
    fn peek_byte(&self) -> (r: Option<u8>)
        ensures
            r == (if self.pos < self.source@.len() {
                Some(self.source@[self.pos as int])
            } else {
                None::<u8>
            }),
    {
        if self.pos < self.source.len() {
            Some(self.source[self.pos])
        } else {
            None
        }
    }

    /// Peek at the byte at pos + offset.
    fn peek_byte_at(&self, offset: usize) -> (r: Option<u8>)
        requires
            self.pos <= self.source@.len(),
        ensures
            r == (if self.pos + offset < self.source@.len() {
                Some(self.source@[self.pos + offset])
            } else {
                None::<u8>
            }),
    {
        if offset < self.source.len() - self.pos {
            Some(self.source[self.pos + offset])
        } else {
            None
        }
    }

    /// The byte at pos + offset, or 0 past the end.
    fn byte_ahead(&self, offset: usize) -> (r: u8)
        requires
            self.pos <= self.source@.len(),
        ensures
            r == byte_at(self.source@, self.pos + offset),
    {
        match self.peek_byte_at(offset) {
            Some(b) => b,
            None => 0,
        }
    }

    /// Advance one byte, updating line/col.
    fn advance(&mut self) -> (r: Option<u8>)
        requires
            old(self).ok(),
        ensures
            final(self).ok(),
            final(self).source == old(self).source,
            final(self).peeked == old(self).peeked,
            final(self).last_token == old(self).last_token,
            old(self).pos < old(self).source@.len() ==> {
                &&& r == Some(old(self).source@[old(self).pos as int])
                &&& final(self).pos == old(self).pos + 1
                &&& if old(self).source@[old(self).pos as int] == 0x0a {
                    final(self).line == old(self).line + 1 && final(self).col == 1
                } else {
                    final(self).line == old(self).line && final(self).col == old(self).col + 1
                }
            },
            old(self).pos >= old(self).source@.len() ==> r is None && *final(self) == *old(self),
    {
        if self.pos >= self.source.len() {
            return None;
        }
        let ch = self.source[self.pos];
        proof {
            lemma_position_bounds(self.source@, self.pos as int);
        }
        self.pos += 1;
        if ch == 0x0a {
            self.line += 1;
            self.col = 1;
        } else {
            self.col += 1;
        }
        Some(ch)
    }
}


impl Lexer {
    /// Skip whitespace and comments.
    fn skip_whitespace_and_comments(&mut self)
        requires
            old(self).ok(),
        ensures
            final(self).ok(),
            final(self).source == old(self).source,
            final(self).peeked == old(self).peeked,
            final(self).last_token == old(self).last_token,
            final(self).pos == skip_blank(old(self).source@, old(self).pos as int),
    {
        let ghost target = skip_blank(self.source@, self.pos as int);
        while !self.is_eof()
            invariant
                self.ok(),
                self.source == old(self).source,
                self.peeked == old(self).peeked,
                self.last_token == old(self).last_token,
                skip_from(self.source@, self.pos as int, 0, false) == target,
            ensures
                self.ok(),
                self.source == old(self).source,
                self.peeked == old(self).peeked,
                self.last_token == old(self).last_token,
                self.pos == target,
            decreases self.source@.len() - self.pos,
        {
            let ghost p0 = self.pos;
            let b = self.peek_byte().unwrap();
            if b == 0x20 || b == 0x09 || b == 0x0d || b == 0x0a {
                self.advance();
            } else if b == 0x2f {
                let b1 = self.byte_ahead(1);
                if b1 == 0x2f {
                    self.advance();
                    while !self.is_eof() && self.peek_byte() != Some(0x0au8)
                        invariant
                            self.ok(),
                            self.source == old(self).source,
                            self.peeked == old(self).peeked,
                            self.last_token == old(self).last_token,
                            skip_from(self.source@, self.pos as int, 0, true) == target,
                            self.pos > p0,
                        decreases self.source@.len() - self.pos,
                    {
                        self.advance();
                    }
                } else if b1 == 0x2b {
                    self.skip_nested_comment();
                } else {
                    break;
                }
            } else {
                break;
            }
        }
    }

    /// Skip a nested block comment: /+ ... +/ (can be nested).
    fn skip_nested_comment(&mut self)
        requires
            old(self).ok(),
            old(self).pos + 1 < old(self).source@.len(),
            old(self).source@[old(self).pos as int] == 0x2f,
            old(self).source@[old(self).pos + 1] == 0x2b,
        ensures
            final(self).ok(),
            final(self).source == old(self).source,
            final(self).peeked == old(self).peeked,
            final(self).last_token == old(self).last_token,
            final(self).pos > old(self).pos,
            skip_from(final(self).source@, final(self).pos as int, 0, false) == skip_from(
                old(self).source@,
                old(self).pos + 2,
                1,
                false,
            ),
    {
        self.advance();
        self.advance();
        let mut depth: u32 = 1;
        while depth > 0 && !self.is_eof()
            invariant
                self.ok(),
                self.source == old(self).source,
                self.peeked == old(self).peeked,
                self.last_token == old(self).last_token,
                self.pos >= old(self).pos + 2,
                0 <= depth <= self.pos,
                skip_from(self.source@, self.pos as int, depth as nat, false) == skip_from(
                    old(self).source@,
                    old(self).pos + 2,
                    1,
                    false,
                ),
            decreases self.source@.len() - self.pos,
        {
            if self.peek_byte() == Some(0x2fu8) && self.peek_byte_at(1) == Some(0x2bu8) {
                self.advance();
                self.advance();
                depth += 1;
            } else if self.peek_byte() == Some(0x2bu8) && self.peek_byte_at(1) == Some(0x2fu8) {
                self.advance();
                self.advance();
                depth -= 1;
            } else {
                self.advance();
            }
        }
    }

    /// The bytes `[start, end)` of the source, each read as one character.
    fn bytes_string(&self, start: usize, end: usize) -> (r: String)
        requires
            start <= end <= self.source@.len(),
        ensures
            r@ == bytes_text(self.source@.subrange(start as int, end as int)),
    {
        let mut r = String::new();
        let mut i = start;
        while i < end
            invariant
                start <= i <= end <= self.source@.len(),
                r@ == bytes_text(self.source@.subrange(start as int, i as int)),
            decreases end - i,
        {
            push_char(&mut r, crate::text::char_of_byte(self.source[i]));
            i += 1;
            assert(bytes_text(self.source@.subrange(start as int, i as int)) =~= bytes_text(
                self.source@.subrange(start as int, i - 1),
            ).push(byte_char(self.source@[i - 1])));
        }
        r
    }

    /// The bytes `[start, end)` decoded as UTF-8, or `default` if they are not valid UTF-8.
    fn utf8_string(&self, start: usize, end: usize, default: &str) -> (r: String)
        requires
            start <= end <= self.source@.len(),
        ensures
            r@ == utf8_or(self.source@.subrange(start as int, end as int), default@),
    {
        let slice = vstd::slice::slice_subrange(self.source.as_slice(), start, end);
        match utf8_str(slice) {
            Some(s) => s.to_owned(),
            None => default.to_owned(),
        }
    }
}


impl Lexer {
    /// The first character of the bytes `[start, end)` decoded as UTF-8
    /// (none when they are not valid UTF-8 or empty).
    fn first_char(&self, start: usize, end: usize) -> (r: Option<char>)
        requires
            start <= end <= self.source@.len(),
        ensures
            ({
                let cs = utf8_or(self.source@.subrange(start as int, end as int), Seq::empty());
                r == if cs.len() > 0 {
                    Some(cs[0])
                } else {
                    None::<char>
                }
            }),
    {
        let slice = vstd::slice::slice_subrange(self.source.as_slice(), start, end);
        match utf8_str(slice) {
            Some(s) => {
                if s.unicode_len() > 0 {
                    Some(s.get_char(0))
                } else {
                    None
                }
            },
            None => None,
        }
    }

    /// Read an identifier or keyword token.
    fn read_identifier(&mut self) -> (r: Token)
        requires
            old(self).ok(),
            old(self).pos < old(self).source@.len(),
            is_letter(old(self).source@[old(self).pos as int]),
        ensures
            final(self).ok(),
            final(self).source == old(self).source,
            final(self).peeked == old(self).peeked,
            final(self).last_token == old(self).last_token,
            final(self).pos > old(self).pos,
            ident_token(old(self).source@, old(self).pos as int, final(self).pos as int, r),
            r.line == old(self).line,
            r.col == old(self).col,
    {
        let start = self.pos;
        let loc = self.location();
        let ghost s = self.source@;
        while !self.is_eof()
            invariant
                self.ok(),
                self.source == old(self).source,
                s == self.source@,
                self.peeked == old(self).peeked,
                self.last_token == old(self).last_token,
                start == old(self).pos,
                start <= self.pos <= s.len(),
                start < s.len(),
                self.pos == start ==> is_letter(s[start as int]),
                ident_end(s, self.pos as int) == ident_end(s, start as int),
                self.line == loc.line,
            ensures
                self.ok(),
                self.source == old(self).source,
                self.peeked == old(self).peeked,
                self.last_token == old(self).last_token,
                start < self.pos <= s.len(),
                self.pos == ident_end(s, start as int),
            decreases s.len() - self.pos,
        {
            let ch = self.peek_byte().unwrap();
            if byte_is_ident(ch) {
                self.advance();
            } else if ch >= 0x80 {
                let seq_start = self.pos;
                let col_before = self.col;
                proof {
                    lemma_cont_end(s, seq_start as int);
                }
                self.advance();
                while !self.is_eof() && self.peek_byte().unwrap() >= 0x80 && self.peek_byte().unwrap() < 0xc0
                    invariant
                        self.ok(),
                        self.source == old(self).source,
                        s == self.source@,
                        self.peeked == old(self).peeked,
                        self.last_token == old(self).last_token,
                        seq_start < self.pos <= cont_end(s, seq_start as int),
                        forall|k: int| seq_start < k < cont_end(s, seq_start as int)
                            ==> 0x80 <= #[trigger] s[k] < 0xc0,
                        cont_end(s, seq_start as int) == s.len() || !(0x80 <= s[cont_end(s, seq_start as int)] < 0xc0),
                        self.line == loc.line,
                    decreases s.len() - self.pos,
                {
                    self.advance();
                }
                let c = self.first_char(seq_start, self.pos);
                if let Some(c) = c {
                    if char_is_alphabetic(c) || c == '_' {
                        proof {
                            assert(char_at(s, seq_start as int) == Some(c));
                            assert(continues_ident_unicode(s, seq_start as int));
                            assert(!is_ident_byte(s[seq_start as int]));
                            assert(ident_end(s, seq_start as int) == ident_end(s, self.pos as int));
                        }
                        continue;
                    }
                }
                // Not a letter: the identifier ends before this character
                proof {
                    assert(char_at(s, seq_start as int) == c);
                    assert(!continues_ident_unicode(s, seq_start as int));
                    assert(!is_ident_byte(s[seq_start as int]));
                    assert(ident_end(s, seq_start as int) == seq_start);
                }
                self.pos = seq_start;
                self.col = col_before;
                break;
            } else {
                proof {
                    assert(!continues_ident_unicode(s, self.pos as int));
                }
                break;
            }
        }
        let text = self.utf8_string(start, self.pos, "");
        proof {
            reveal_strlit("");
            assert(""@ =~= Seq::<char>::empty());
        }
        let ty = match lookup_keyword(text.as_str()) {
            Some(kw_type) => kw_type,
            None => TokenType::Identifier,
        };
        Token::new(ty, text, loc.line, loc.col, loc.offset)
    }

    /// Read a numeric literal (integer, float, rational).
    fn read_number(&mut self) -> (r: Token)
        requires
            old(self).ok(),
            old(self).pos < old(self).source@.len(),
            is_digit(old(self).source@[old(self).pos as int]) || (old(self).source@[old(
                self,
            ).pos as int] == 0x2e && is_digit(byte_at(old(self).source@, old(self).pos + 1))),
        ensures
            final(self).ok(),
            final(self).source == old(self).source,
            final(self).peeked == old(self).peeked,
            final(self).last_token == old(self).last_token,
            final(self).pos > old(self).pos,
            number_token(old(self).source@, old(self).pos as int, final(self).pos as int, r),
            r.line == old(self).line,
            r.col == old(self).col,
    {
        let ghost src = self.source@;
        let start = self.pos;
        let loc = self.location();
        let mut is_float = false;
        let mut is_hex = false;
        let mut is_binary = false;

        // Check for hex or binary prefix
        if self.peek_byte() == Some(0x30u8) {
            let b1 = self.byte_ahead(1);
            if b1 == 0x78 || b1 == 0x58 {
                is_hex = true;
                self.advance();
                self.advance();
            } else if b1 == 0x62 || b1 == 0x42 {
                is_binary = true;
                self.advance();
                self.advance();
            }
        }
        let ghost scan = numeral_scan(src, start as int);
        // Read digits
        while !self.is_eof()
            invariant
                self.ok(),
                self.source == old(self).source,
                src == self.source@,
                self.peeked == old(self).peeked,
                self.last_token == old(self).last_token,
                start == old(self).pos,
                start <= self.pos <= self.source@.len(),
                start < self.source@.len(),
                self.pos == start ==> !is_hex && !is_binary && (is_digit(self.source@[start as int])
                    || (self.source@[start as int] == 0x2e && is_digit(
                    byte_at(self.source@, start + 1),
                ))),
                scan == numeral_scan(src, start as int),
                !(is_hex && is_binary),
                is_hex ==> !is_float && radix_digits_end(src, self.pos as int, true) == scan.0
                    && !scan.1,
                is_binary ==> !is_float && radix_digits_end(src, self.pos as int, false) == scan.0
                    && !scan.1,
                !is_hex && !is_binary ==> decimal_scan(src, self.pos as int, is_float) == scan,
            ensures
                self.ok(),
                self.source == old(self).source,
                self.peeked == old(self).peeked,
                self.last_token == old(self).last_token,
                start < self.pos <= self.source@.len(),
                self.pos == scan.0,
                is_float == scan.1,
            decreases self.source@.len() - self.pos,
        {
            let ghost p0 = self.pos as int;
            let ch = self.peek_byte().unwrap();
            if is_hex {
                if byte_is_hex_digit(ch) || ch == 0x5f {
                    self.advance();
                } else {
                    break;
                }
            } else if is_binary {
                if ch == 0x30 || ch == 0x31 || ch == 0x5f {
                    self.advance();
                } else {
                    break;
                }
            } else if byte_is_digit(ch) || ch == 0x5f {
                self.advance();
            } else if ch == 0x2e && byte_is_digit(self.byte_ahead(1)) {
                // Float literal
                is_float = true;
                self.advance();
                while !self.is_eof() && byte_is_digit(self.peek_byte().unwrap())
                    invariant
                        self.ok(),
                        self.source == old(self).source,
                        src == self.source@,
                        self.peeked == old(self).peeked,
                        self.last_token == old(self).last_token,
                        start < self.pos <= self.source@.len(),
                        self.pos > p0,
                        digits_end(src, self.pos as int) == digits_end(src, p0 + 1),
                    decreases self.source@.len() - self.pos,
                {
                    self.advance();
                }
                let ghost j = self.pos as int;
                // Optional exponent
                if self.peek_byte() == Some(0x65u8) || self.peek_byte() == Some(0x45u8) {
                    self.advance();
                    if self.peek_byte() == Some(0x2bu8) || self.peek_byte() == Some(0x2du8) {
                        self.advance();
                    }
                    let ghost q = self.pos as int;
                    while !self.is_eof() && byte_is_digit(self.peek_byte().unwrap())
                        invariant
                            self.ok(),
                            self.source == old(self).source,
                            src == self.source@,
                            self.peeked == old(self).peeked,
                            self.last_token == old(self).last_token,
                            start < self.pos <= self.source@.len(),
                            self.pos > p0,
                            digits_end(src, self.pos as int) == digits_end(src, q),
                        decreases self.source@.len() - self.pos,
                    {
                        self.advance();
                    }
                    proof {
                        assert(exponent_end(src, j + 1) == digits_end(src, q));
                    }
                }
            } else if ch == 0x5c {
                // Rational literal: num\den
                break;
            } else if ch == 0x65 || ch == 0x45 {
                // Scientific notation
                let b1 = self.byte_ahead(1);
                if b1 == 0x2b || b1 == 0x2d || byte_is_digit(b1) {
                    is_float = true;
                    self.advance();
                    if self.peek_byte() == Some(0x2bu8) || self.peek_byte() == Some(0x2du8) {
                        self.advance();
                    }
                    let ghost q = self.pos as int;
                    while !self.is_eof() && byte_is_digit(self.peek_byte().unwrap())
                        invariant
                            self.ok(),
                            self.source == old(self).source,
                            src == self.source@,
                            self.peeked == old(self).peeked,
                            self.last_token == old(self).last_token,
                            start < self.pos <= self.source@.len(),
                            self.pos > p0,
                            digits_end(src, self.pos as int) == digits_end(src, q),
                        decreases self.source@.len() - self.pos,
                    {
                        self.advance();
                    }
                    proof {
                        assert(exponent_end(src, p0 + 1) == digits_end(src, q));
                    }
                } else {
                    break;
                }
            } else {
                break;
            }
        }

        // Check for rational literal
        if self.peek_byte() == Some(0x5cu8) {
            self.advance();
            let ghost q = self.pos as int;
            while !self.is_eof() && byte_is_digit(self.peek_byte().unwrap())
                invariant
                    self.ok(),
                    self.source == old(self).source,
                    src == self.source@,
                    self.peeked == old(self).peeked,
                    self.last_token == old(self).last_token,
                    start < self.pos <= self.source@.len(),
                    digits_end(src, self.pos as int) == digits_end(src, q),
                decreases self.source@.len() - self.pos,
            {
                self.advance();
            }
            let text = self.bytes_string(start, self.pos);
            return Token::new(TokenType::RationalLit, text, loc.line, loc.col, loc.offset);
        }
        let text = self.bytes_string(start, self.pos);
        if is_float {
            Token::new(TokenType::FloatLit, text, loc.line, loc.col, loc.offset)
        } else {
            Token::new(TokenType::IntLit, text, loc.line, loc.col, loc.offset)
        }
    }
}


/// The token kind a Unicode character forms on its own, if any.
fn unicode_token_type(c: char) -> (r: Option<TokenType>)
    ensures
        r == spec_unicode_token(c),
{
    if c == '·' {
        Some(TokenType::Mul)
    } else if c == '×' {
        Some(TokenType::Cross)
    } else if c == '∧' {
        Some(TokenType::And)
    } else if c == '∨' {
        Some(TokenType::Or)
    } else if c == '⊻' {
        Some(TokenType::Xor)
    } else if c == '⊕' {
        Some(TokenType::Tilde)
    } else if c == '¬' {
        Some(TokenType::Not)
    } else if c == '→' {
        Some(TokenType::Arrow)
    } else if c == '⇒' {
        Some(TokenType::FatArrow)
    } else if c == '←' {
        Some(TokenType::LeftArrow)
    } else if c == '↦' {
        Some(TokenType::Mapsto)
    } else if c == '≠' {
        Some(TokenType::Neq)
    } else if c == '≤' {
        Some(TokenType::Le)
    } else if c == '≥' {
        Some(TokenType::Ge)
    } else if c == 'Π' || c == '∏' {
        Some(TokenType::Pi)
    } else if c == 'λ' {
        Some(TokenType::KwLambda)
    } else if c == '⊥' || c == '⊤' || c == 'α' || c == 'β' || c == 'γ' || c == 'δ' || c == 'ε'
        || c == 'ζ' || c == 'η' || c == 'θ' || c == 'ι' || c == 'κ' || c == 'λ' || c == 'μ'
        || c == 'ν' || c == 'ξ' || c == 'ο' || c == 'π' || c == 'ρ' || c == 'σ' || c == 'τ'
        || c == 'υ' || c == 'φ' || c == 'χ' || c == 'ψ' || c == 'ω' || c == '𝔹' || c == 'ℕ'
        || c == 'ℤ' || c == 'ℚ' || c == 'ℝ' || c == 'ℂ' {
        Some(TokenType::Identifier)
    } else if char_is_alphabetic(c) {
        Some(TokenType::Identifier)
    } else {
        None
    }
}

impl Lexer {
    /// Read a string literal.
    fn read_string(&mut self) -> (r: Token)
        requires
            old(self).ok(),
            old(self).pos < old(self).source@.len(),
            old(self).source@[old(self).pos as int] == 0x22 || (old(self).source@[old(
                self,
            ).pos as int] == 0x72 && byte_at(old(self).source@, old(self).pos + 1) == 0x22),
        ensures
            final(self).ok(),
            final(self).source == old(self).source,
            final(self).peeked == old(self).peeked,
            final(self).last_token == old(self).last_token,
            final(self).pos > old(self).pos,
            r.ty == TokenType::StringLit,
            r.offset == old(self).pos,
            r.line == old(self).line,
            r.col == old(self).col,
            r.text@ == string_token(old(self).source@, old(self).pos as int).0,
            final(self).pos == string_token(old(self).source@, old(self).pos as int).1,
    {
        let ghost src = self.source@;
        let ghost start = self.pos as int;
        let loc = self.location();
        let quote = self.advance().unwrap();
        let mut result = String::new();
        let mut escaped = false;

        // WYSIWYG string: r"..."
        if quote == 0x72 || quote == 0x52 {
            if self.peek_byte() == Some(0x22u8) {
                self.advance();
                let ghost total = raw_body(src, start + 2);
                while !self.is_eof()
                    invariant_except_break
                        result@ + raw_body(src, self.pos as int).0 == total.0,
                        raw_body(src, self.pos as int).1 == total.1,
                    invariant
                        self.ok(),
                        self.source == old(self).source,
                        src == self.source@,
                        self.peeked == old(self).peeked,
                        self.last_token == old(self).last_token,
                        self.pos > old(self).pos,
                        total == raw_body(src, start + 2),
                    ensures
                        self.ok(),
                        self.source == old(self).source,
                        self.peeked == old(self).peeked,
                        self.last_token == old(self).last_token,
                        self.pos > old(self).pos,
                        result@ == total.0,
                        self.pos == total.1,
                    decreases self.source@.len() - self.pos,
                {
                    let ch = self.peek_byte().unwrap();
                    if ch == 0x22 {
                        self.advance();
                        break;
                    }
                    push_char(&mut result, crate::text::char_of_byte(ch));
                    self.advance();
                    proof {
                        assert(result@ + raw_body(src, self.pos as int).0 =~= total.0);
                    }
                }
                return Token::new(TokenType::StringLit, result, loc.line, loc.col, loc.offset);
            }
        }
        // Regular string literal
        let ghost total = string_body(src, start + 1, 0x22);
        while !self.is_eof()
            invariant_except_break
                escaped ==> src[self.pos - 1] == 0x5c,
                result@ + string_body(src, if escaped { self.pos - 1 } else { self.pos as int }, 0x22).0
                    == total.0,
                string_body(src, if escaped { self.pos - 1 } else { self.pos as int }, 0x22).1
                    == total.1,
            invariant
                self.ok(),
                self.source == old(self).source,
                src == self.source@,
                self.peeked == old(self).peeked,
                self.last_token == old(self).last_token,
                self.pos > old(self).pos,
                quote == 0x22,
                total == string_body(src, start + 1, 0x22),
            ensures
                self.ok(),
                self.source == old(self).source,
                self.peeked == old(self).peeked,
                self.last_token == old(self).last_token,
                self.pos > old(self).pos,
                result@ == total.0,
                self.pos == total.1,
            decreases self.source@.len() - self.pos,
        {
            let ghost p = self.pos as int;
            let ch = self.advance().unwrap();
            if escaped {
                let c = if ch == 0x6e {
                    '\n'
                } else if ch == 0x72 {
                    '\r'
                } else if ch == 0x74 {
                    '\t'
                } else if ch == 0x30 {
                    '\0'
                } else {
                    crate::text::char_of_byte(ch)
                };
                push_char(&mut result, c);
                escaped = false;
                proof {
                    assert(result@ + string_body(src, self.pos as int, 0x22).0 =~= total.0);
                }
            } else if ch == 0x5c {
                escaped = true;
            } else if ch == quote {
                break;
            } else {
                push_char(&mut result, crate::text::char_of_byte(ch));
                proof {
                    assert(result@ + string_body(src, self.pos as int, 0x22).0 =~= total.0);
                }
            }
        }
        Token::new(TokenType::StringLit, result, loc.line, loc.col, loc.offset)
    }

    /// Read a character literal: 'c', '\n'.
    fn read_char(&mut self) -> (r: Token)
        requires
            old(self).ok(),
            old(self).pos < old(self).source@.len(),
        ensures
            final(self).ok(),
            final(self).source == old(self).source,
            final(self).peeked == old(self).peeked,
            final(self).last_token == old(self).last_token,
            final(self).pos > old(self).pos,
            r.ty == TokenType::CharLit,
            r.text@ == seq![char_token(old(self).source@, old(self).pos as int).0],
            final(self).pos == char_token(old(self).source@, old(self).pos as int).1,
            r.offset == old(self).pos,
            r.line == old(self).line,
            r.col == old(self).col,
    {
        let loc = self.location();
        self.advance();
        let mut result = '?';
        if !self.is_eof() {
            let ch = self.advance().unwrap();
            if ch == 0x5c {
                if !self.is_eof() {
                    let ch = self.advance().unwrap();
                    result = if ch == 0x6e {
                        '\n'
                    } else if ch == 0x72 {
                        '\r'
                    } else if ch == 0x74 {
                        '\t'
                    } else if ch == 0x30 {
                        '\0'
                    } else {
                        crate::text::char_of_byte(ch)
                    };
                }
            } else {
                result = crate::text::char_of_byte(ch);
            }
        }
        // Skip closing quote
        if self.peek_byte() == Some(0x27u8) {
            self.advance();
        }
        let mut text = String::new();
        push_char(&mut text, result);
        proof {
            assert(text@ =~= seq![result]);
        }
        Token::new(TokenType::CharLit, text, loc.line, loc.col, loc.offset)
    }

    /// Read a Unicode math token (a single non-ASCII character).
    fn read_unicode_token(&mut self) -> (r: Option<Token>)
        requires
            old(self).ok(),
            old(self).pos < old(self).source@.len(),
        ensures
            final(self).ok(),
            final(self).source == old(self).source,
            final(self).peeked == old(self).peeked,
            final(self).last_token == old(self).last_token,
            final(self).pos == cont_end(old(self).source@, old(self).pos as int),
            ({
                let s = old(self).source@;
                let chars = utf8_or(s.subrange(old(self).pos as int, final(self).pos as int), Seq::empty());
                &&& r is Some <==> (chars.len() > 0 && spec_unicode_token(chars[0]) is Some)
                &&& r matches Some(t) ==> {
                    &&& t.ty == spec_unicode_token(chars[0]).unwrap()
                    &&& t.text@ == chars
                    &&& t.offset == old(self).pos
                    &&& t.line == old(self).line
                    &&& t.col == old(self).col
                }
            }),
    {
        proof {
            lemma_cont_end(self.source@, self.pos as int);
        }
        let seq_start = self.pos;
        let loc = self.location();
        self.advance();
        while !self.is_eof() && self.peek_byte().unwrap() >= 0x80 && self.peek_byte().unwrap() < 0xc0
            invariant
                self.ok(),
                self.source == old(self).source,
                self.peeked == old(self).peeked,
                self.last_token == old(self).last_token,
                seq_start == old(self).pos,
                seq_start < self.pos <= cont_end(self.source@, seq_start as int),
                forall|k: int| seq_start < k < cont_end(self.source@, seq_start as int)
                    ==> 0x80 <= #[trigger] self.source@[k] < 0xc0,
                cont_end(self.source@, seq_start as int) == self.source@.len() || !(0x80
                    <= self.source@[cont_end(self.source@, seq_start as int)] < 0xc0),
            decreases self.source@.len() - self.pos,
        {
            self.advance();
        }
        let text = self.utf8_string(seq_start, self.pos, "");
        proof {
            reveal_strlit("");
            assert(""@ =~= Seq::<char>::empty());
        }
        let ch = self.first_char(seq_start, self.pos);
        match ch {
            Some(c) => match unicode_token_type(c) {
                Some(ty) => Some(Token::new(ty, text, loc.line, loc.col, loc.offset)),
                None => None,
            },
            None => None,
        }
    }
}


/// The observable effect of `Lexer::next_token` taking `l0` to `l1` and returning `r`.
pub open spec fn next_token_post(l0: Lexer, l1: Lexer, r: Token) -> bool {
    &&& l1.wf()
    &&& l1.src() == l0.src()
    &&& l1.pending() is None
    &&& match l0.pending() {
        Some(t) => {
            &&& r == t
            &&& l1.cur() == l0.cur()
            &&& l1.last() == Some(t)
            &&& exists|p0: int| lex_step(l0.src(), p0, l0.cur() as int, t)
        },
        None => {
            &&& lex_step(l0.src(), l0.cur() as int, l1.cur() as int, r)
            &&& l1.last() == Some(r)
        },
    }
    &&& r.ty != TokenType::Eof ==> l1.remaining() < l0.remaining()
    &&& r.ty == TokenType::Eof ==> l1.cur() == l1.src().len()
    &&& l1.remaining() <= l0.remaining()
    &&& l0.floor() <= r.offset <= l1.floor()
}

/// The observable effect of `Lexer::peek_token` taking `l0` to `l1` and returning `r`:
/// the token is the one `next_token` would have returned, and it is held back.
pub open spec fn peek_token_post(l0: Lexer, l1: Lexer, r: Token) -> bool {
    &&& l1.wf()
    &&& l1.src() == l0.src()
    &&& l1.pending() == Some(r)
    &&& match l0.pending() {
        Some(t) => r == t && l1.cur() == l0.cur() && exists|p0: int| lex_step(l0.src(), p0, l0.cur() as int, t),
        None => lex_step(l0.src(), l0.cur() as int, l1.cur() as int, r),
    }
    &&& l1.remaining() <= l0.remaining()
    &&& l0.floor() <= r.offset
}

impl Lexer {
    /// A token of kind `ty` whose text is the bytes from the token's start to the current position.
    fn make_token(&self, ty: TokenType, loc: Location) -> (r: Token)
        requires
            loc.offset <= self.pos <= self.source@.len(),
        ensures
            r.ty == ty,
            r.text@ == bytes_text(self.source@.subrange(loc.offset as int, self.pos as int)),
            r.line == loc.line,
            r.col == loc.col,
            r.offset == loc.offset,
    {
        let text = self.bytes_string(loc.offset, self.pos);
        Token::new(ty, text, loc.line, loc.col, loc.offset)
    }

    /// Read the next token from the source.
    pub fn next_token(&mut self) -> (r: Token)
        requires
            old(self).wf(),
        ensures
            next_token_post(*old(self), *final(self), r),
    {
        // Return the peeked token if there is one
        if self.peeked.is_some() {
            let tok = self.peeked.take().unwrap();
            self.last_token = Some(tok.clone());
            return tok;
        }
        let tok = self.lex_token();
        self.last_token = Some(tok.clone());
        tok
    }

    /// Lexes one token from the source (no held-back token).
    fn lex_token(&mut self) -> (r: Token)
        requires
            old(self).ok(),
            old(self).peeked is None,
        ensures
            final(self).ok(),
            final(self).source == old(self).source,
            final(self).peeked is None,
            final(self).last_token == old(self).last_token,
            lex_step(old(self).source@, old(self).pos as int, final(self).pos as int, r),
    {
        self.skip_whitespace_and_comments();
        proof {
            lemma_skip_from_ge(self.source@, old(self).pos as int, 0, false);
        }
        if self.is_eof() {
            return Token::new(TokenType::Eof, String::new(), self.line, self.col, self.pos);
        }
        self.token_here()
    }

    /// Reads the token that starts at the current byte.
    fn token_here(&mut self) -> (r: Token)
        requires
            old(self).ok(),
            old(self).pos < old(self).source@.len(),
        ensures
            final(self).ok(),
            final(self).source == old(self).source,
            final(self).peeked == old(self).peeked,
            final(self).last_token == old(self).last_token,
            final(self).pos > old(self).pos,
            token_shape(old(self).source@, old(self).pos as int, final(self).pos as int, r),
            r.line == old(self).line,
            r.col == old(self).col,
    {
        let ch = self.peek_byte().unwrap();
        let b1 = self.byte_ahead(1);
        if ch == 0x40 && b1 == 0x5b {
            return self.read_annotation();
        }
        // String literal
        if ch == 0x22 || (ch == 0x72 && b1 == 0x22) {
            return self.read_string();
        }
        // Character literal
        if ch == 0x27 {
            return self.read_char();
        }
        // Numeric literal
        if byte_is_digit(ch) || (ch == 0x2e && byte_is_digit(b1)) {
            return self.read_number();
        }
        if ch >= 0x80 {
            return self.read_non_ascii();
        }
        if ch == 0x2e {
            return self.read_dots();
        }
        if let Some(t) = self.read_single() {
            return t;
        }
        if let Some(t) = self.read_compound_operator() {
            return t;
        }
        // Letters (identifiers/keywords)
        if (0x61 <= ch && ch <= 0x7a) || (0x41 <= ch && ch <= 0x5a) {
            return self.read_identifier();
        }
        let loc = self.location();
        self.advance();
        let mut msg = "unexpected character '".to_owned();
        push_char(&mut msg, crate::text::char_of_byte(ch));
        push_char(&mut msg, '\'');
        proof {
            reveal_strlit("unexpected character '");
            reveal_strlit("'");
            assert(msg@ =~= "unexpected character '"@ + seq![byte_char(ch)] + "'"@);
        }
        Token::new(TokenType::Error, msg, loc.line, loc.col, loc.offset)
    }

    /// Annotation: @[...]
    fn read_annotation(&mut self) -> (r: Token)
        requires
            old(self).ok(),
            old(self).pos + 1 < old(self).source@.len(),
        ensures
            final(self).ok(),
            final(self).source == old(self).source,
            final(self).peeked == old(self).peeked,
            final(self).last_token == old(self).last_token,
            final(self).pos > old(self).pos,
            r.ty == TokenType::Annotation,
            r.offset == old(self).pos,
            r.line == old(self).line,
            r.col == old(self).col,
            r.text@ == annotation_body(old(self).source@, old(self).pos + 2, 1).0,
            final(self).pos == annotation_body(old(self).source@, old(self).pos + 2, 1).1,
    {
        let ghost src = self.source@;
        let ghost total = annotation_body(src, self.pos + 2, 1);
        let loc = self.location();
        self.advance();
        self.advance();
        let mut content = String::new();
        let mut depth: u32 = 1;
        while depth > 0 && !self.is_eof()
            invariant
                self.ok(),
                self.source == old(self).source,
                src == self.source@,
                self.peeked == old(self).peeked,
                self.last_token == old(self).last_token,
                self.pos > loc.offset,
                loc.offset == old(self).pos,
                0 <= depth <= self.pos,
                content@ + annotation_body(src, self.pos as int, depth as int).0 == total.0,
                annotation_body(src, self.pos as int, depth as int).1 == total.1,
            decreases self.source@.len() - self.pos,
        {
            let c = self.advance().unwrap();
            if c == 0x5b {
                depth += 1;
            } else if c == 0x5d {
                depth -= 1;
            }
            if depth > 0 {
                push_char(&mut content, crate::text::char_of_byte(c));
            }
            proof {
                assert(content@ + annotation_body(src, self.pos as int, depth as int).0 =~= total.0);
            }
        }
        Token::new(TokenType::Annotation, content, loc.line, loc.col, loc.offset)
    }

    /// A token starting with a non-ASCII byte.
    fn read_non_ascii(&mut self) -> (r: Token)
        requires
            old(self).ok(),
            old(self).pos < old(self).source@.len(),
            old(self).source@[old(self).pos as int] >= 0x80,
        ensures
            final(self).ok(),
            final(self).source == old(self).source,
            final(self).peeked == old(self).peeked,
            final(self).last_token == old(self).last_token,
            final(self).pos > old(self).pos,
            unicode_token(old(self).source@, old(self).pos as int, final(self).pos as int, r),
            r.line == old(self).line,
            r.col == old(self).col,
    {
        proof {
            lemma_cont_end(self.source@, self.pos as int);
        }
        let loc = self.location();
        let ch = self.peek_byte().unwrap();
        if let Some(tok) = self.read_unicode_token() {
            return tok;
        }
        self.advance();
        let mut msg = "unexpected unicode character at byte ".to_owned();
        push_decimal(&mut msg, ch as u64);
        proof {
            reveal_strlit("unexpected unicode character at byte ");
        }
        Token::new(TokenType::Error, msg, loc.line, loc.col, loc.offset)
    }

    /// `.`, `..` (an identifier) or `...` (a dot).
    fn read_dots(&mut self) -> (r: Token)
        requires
            old(self).ok(),
            old(self).pos < old(self).source@.len(),
            old(self).source@[old(self).pos as int] == 0x2e,
            !is_digit(byte_at(old(self).source@, old(self).pos + 1)),
        ensures
            final(self).ok(),
            final(self).source == old(self).source,
            final(self).peeked == old(self).peeked,
            final(self).last_token == old(self).last_token,
            spec_operator(old(self).source@, old(self).pos as int) matches Some((t, n)) && r.ty == t
                && final(self).pos == old(self).pos + n && r.text@ == bytes_text(
                old(self).source@.subrange(old(self).pos as int, final(self).pos as int),
            ) && r.offset == old(self).pos,
            r.line == old(self).line,
            r.col == old(self).col,
    {
        let loc = self.location();
        let b1 = self.byte_ahead(1);
        let b2 = self.byte_ahead(2);
        if b1 == 0x2e && b2 == 0x2e {
            self.advance();
            self.advance();
            self.advance();
            return self.make_token(TokenType::Dot, loc);
        }
        if b1 == 0x2e {
            self.advance();
            self.advance();
            return self.make_token(TokenType::Identifier, loc);
        }
        self.advance();
        self.make_token(TokenType::Dot, loc)
    }

    /// Single-byte delimiters and operators.
    fn read_single(&mut self) -> (r: Option<Token>)
        requires
            old(self).ok(),
            old(self).pos < old(self).source@.len(),
            !(old(self).source@[old(self).pos as int] == 0x40 && byte_at(old(self).source@, old(self).pos + 1) == 0x5b),
        ensures
            final(self).ok(),
            final(self).source == old(self).source,
            final(self).peeked == old(self).peeked,
            final(self).last_token == old(self).last_token,
            r is None ==> *final(self) == *old(self),
            r matches Some(t) ==> spec_operator(old(self).source@, old(self).pos as int) matches Some((ty, n)) && t.ty == ty
                && final(self).pos == old(self).pos + n && t.text@ == bytes_text(
                old(self).source@.subrange(old(self).pos as int, final(self).pos as int),
            ) && t.offset == old(self).pos && t.line == old(self).line && t.col == old(self).col,
            r is None ==> !(old(self).source@[old(self).pos as int] == 0x28 || old(self).source@[old(self).pos as int] == 0x29
                || old(self).source@[old(self).pos as int] == 0x7b || old(self).source@[old(self).pos as int] == 0x7d
                || old(self).source@[old(self).pos as int] == 0x5b || old(self).source@[old(self).pos as int] == 0x5d
                || old(self).source@[old(self).pos as int] == 0x3b || old(self).source@[old(self).pos as int] == 0x2c
                || old(self).source@[old(self).pos as int] == 0x3f || old(self).source@[old(self).pos as int] == 0x40
                || old(self).source@[old(self).pos as int] == 0x5e || old(self).source@[old(self).pos as int] == 0x5f),
    {
        let loc = self.location();
        let ch = self.peek_byte().unwrap();
        if ch == 0x28 {
            self.advance();
            return Some(self.make_token(TokenType::LParen, loc));
        }
        if ch == 0x29 {
            self.advance();
            return Some(self.make_token(TokenType::RParen, loc));
        }
        if ch == 0x7b {
            self.advance();
            return Some(self.make_token(TokenType::LBrace, loc));
        }
        if ch == 0x7d {
            self.advance();
            return Some(self.make_token(TokenType::RBrace, loc));
        }
        if ch == 0x5b {
            self.advance();
            return Some(self.make_token(TokenType::LBracket, loc));
        }
        if ch == 0x5d {
            self.advance();
            return Some(self.make_token(TokenType::RBracket, loc));
        }
        if ch == 0x3b {
            self.advance();
            return Some(self.make_token(TokenType::Semicolon, loc));
        }
        if ch == 0x2c {
            self.advance();
            return Some(self.make_token(TokenType::Comma, loc));
        }
        if ch == 0x3f {
            self.advance();
            return Some(self.make_token(TokenType::Question, loc));
        }
        if ch == 0x40 {
            self.advance();
            return Some(self.make_token(TokenType::At, loc));
        }
        if ch == 0x5e {
            self.advance();
            return Some(self.make_token(TokenType::Power, loc));
        }
        if ch == 0x5f {
            self.advance();
            return Some(self.make_token(TokenType::Underscore, loc));
        }

        None
    }

    /// Operators of one, two or three bytes.
    fn read_compound_operator(&mut self) -> (r: Option<Token>)
        requires
            old(self).ok(),
            old(self).pos < old(self).source@.len(),
        ensures
            final(self).ok(),
            final(self).source == old(self).source,
            final(self).peeked == old(self).peeked,
            final(self).last_token == old(self).last_token,
            r is None ==> *final(self) == *old(self),
            r matches Some(t) ==> spec_operator(old(self).source@, old(self).pos as int) matches Some((ty, n)) && t.ty == ty
                && final(self).pos == old(self).pos + n && t.text@ == bytes_text(
                old(self).source@.subrange(old(self).pos as int, final(self).pos as int),
            ) && t.offset == old(self).pos && t.line == old(self).line && t.col == old(self).col,
            r is None ==> !(old(self).source@[old(self).pos as int] == 0x3a || old(self).source@[old(self).pos as int] == 0x3d
                || old(self).source@[old(self).pos as int] == 0x21 || old(self).source@[old(self).pos as int] == 0x3c
                || old(self).source@[old(self).pos as int] == 0x2d || old(self).source@[old(self).pos as int] == 0x2b
                || old(self).source@[old(self).pos as int] == 0x2a || old(self).source@[old(self).pos as int] == 0x2f
                || old(self).source@[old(self).pos as int] == 0x25 || old(self).source@[old(self).pos as int] == 0x26
                || old(self).source@[old(self).pos as int] == 0x7c || old(self).source@[old(self).pos as int] == 0x7e
                || old(self).source@[old(self).pos as int] == 0x3e),
    {
        let loc = self.location();
        let ch = self.peek_byte().unwrap();
        if ch == 0x3a {
            self.advance();
            if self.peek_byte() == Some(0x3du8) {
                self.advance();
                return Some(self.make_token(TokenType::Assign, loc));
            }
            return Some(self.make_token(TokenType::Colon, loc));
        }
        if ch == 0x3d {
            self.advance();
            if self.peek_byte() == Some(0x3du8) {
                self.advance();
                return Some(self.make_token(TokenType::Eq, loc));
            }
            if self.peek_byte() == Some(0x3eu8) {
                self.advance();
                return Some(self.make_token(TokenType::FatArrow, loc));
            }
            return Some(self.make_token(TokenType::Assign, loc));
        }
        if ch == 0x21 {
            self.advance();
            if self.peek_byte() == Some(0x3du8) {
                self.advance();
                return Some(self.make_token(TokenType::Neq, loc));
            }
            return Some(self.make_token(TokenType::Not, loc));
        }
        if ch == 0x3c {
            self.advance();
            if self.peek_byte() == Some(0x3du8) {
                self.advance();
                return Some(self.make_token(TokenType::Le, loc));
            }
            if self.peek_byte() == Some(0x3cu8) {
                self.advance();
                return Some(self.make_token(TokenType::Shl, loc));
            }
            if self.peek_byte() == Some(0x2du8) {
                self.advance();
                return Some(self.make_token(TokenType::LeftArrow, loc));
            }
            return Some(self.make_token(TokenType::Lt, loc));
        }
        if ch == 0x2d {
            self.advance();
            if self.peek_byte() == Some(0x3eu8) {
                self.advance();
                return Some(self.make_token(TokenType::Arrow, loc));
            }
            if self.peek_byte() == Some(0x3du8) {
                self.advance();
                return Some(self.make_token(TokenType::MinusAssign, loc));
            }
            return Some(self.make_token(TokenType::Minus, loc));
        }
        if ch == 0x2b {
            self.advance();
            if self.peek_byte() == Some(0x3du8) {
                self.advance();
                return Some(self.make_token(TokenType::PlusAssign, loc));
            }
            return Some(self.make_token(TokenType::Plus, loc));
        }
        if ch == 0x2a {
            self.advance();
            if self.peek_byte() == Some(0x3du8) {
                self.advance();
                return Some(self.make_token(TokenType::MulAssign, loc));
            }
            return Some(self.make_token(TokenType::Mul, loc));
        }
        if ch == 0x2f {
            self.advance();
            if self.peek_byte() == Some(0x3du8) {
                self.advance();
                return Some(self.make_token(TokenType::DivAssign, loc));
            }
            return Some(self.make_token(TokenType::Div, loc));
        }
        if ch == 0x25 {
            self.advance();
            if self.peek_byte() == Some(0x3du8) {
                self.advance();
                return Some(self.make_token(TokenType::ModAssign, loc));
            }
            return Some(self.make_token(TokenType::Mod, loc));
        }
        if ch == 0x26 {
            self.advance();
            if self.peek_byte() == Some(0x26u8) {
                self.advance();
                return Some(self.make_token(TokenType::And, loc));
            }
            return Some(self.make_token(TokenType::Amp, loc));
        }
        if ch == 0x7c {
            self.advance();
            if self.peek_byte() == Some(0x7cu8) {
                self.advance();
                return Some(self.make_token(TokenType::Or, loc));
            }
            return Some(self.make_token(TokenType::Pipe, loc));
        }
        if ch == 0x7e {
            self.advance();
            if self.peek_byte() == Some(0x3du8) {
                self.advance();
                return Some(self.make_token(TokenType::Assign, loc));
            }
            return Some(self.make_token(TokenType::Tilde, loc));
        }
        if ch == 0x3e {
            self.advance();
            if self.peek_byte() == Some(0x3du8) {
                self.advance();
                return Some(self.make_token(TokenType::Ge, loc));
            }
            if self.peek_byte() == Some(0x3eu8) {
                self.advance();
                if self.peek_byte() == Some(0x3eu8) {
                    self.advance();
                    return Some(self.make_token(TokenType::UShr, loc));
                }
                return Some(self.make_token(TokenType::Shr, loc));
            }
            return Some(self.make_token(TokenType::Gt, loc));
        }

        None
    }

    /// Peek at the next token without consuming it.
    #[verifier::rlimit(50)]
    #[verifier::spinoff_prover]
    pub fn peek_token(&mut self) -> (r: Token)
        requires
            old(self).wf(),
        ensures
            peek_token_post(*old(self), *final(self), r),
            final(self).last() == old(self).last(),
    {
        proof {
            if self.peeked is Some {
                let t = self.peeked->0;
                let p0 = choose|p0: int| lex_step(self.source@, p0, self.pos as int, t);
                assert(lex_step(self.src(), p0, self.cur() as int, t));
            }
        }
        if self.peeked.is_none() {
            let ghost p0 = self.pos as int;
            let t = self.lex_token();
            proof {
                assert(lex_step(self.source@, p0, self.pos as int, t));
            }
            self.peeked = Some(t);
        }
        let t = self.peeked.clone().unwrap();
        t
    }

    /// Get the previously produced token.
    pub fn last_token(&self) -> (r: Option<&Token>)
        ensures
            r == match self.last() {
                Some(t) => Some(&t),
                None => None::<&Token>,
            },
    {
        self.last_token.as_ref()
    }
}


impl Lexer {
    /// Collect all remaining tokens into a vector (the end-of-file token is
    /// not included).  With no token held back, they are what lexing the
    /// rest of the source yields, up to its end.
    pub fn tokenize_all(&mut self) -> (tokens: Vec<Token>)
        requires
            old(self).wf(),
        ensures
            final(self).wf(),
            final(self).src() == old(self).src(),
            final(self).exhausted(),
            final(self).cur() == final(self).src().len(),
            final(self).pending() is None,
            forall|i: int| 0 <= i < tokens@.len() ==> (#[trigger] tokens@[i]).ty != TokenType::Eof,
            forall|i: int, j: int|
                0 <= i <= j < tokens@.len() ==> (#[trigger] tokens@[i]).offset <= (
                #[trigger] tokens@[j]).offset,
            forall|i: int|
                0 <= i < tokens@.len() ==> old(self).floor() <= (#[trigger] tokens@[i]).offset
                    <= final(self).cur(),
            old(self).pending() is None ==> lexes_all(old(self).src(), old(self).cur() as int, tokens@),
            old(self).pending() is None ==> old(self).cur() + tokens@.len() <= old(self).src().len(),
    {
        let mut tokens: Vec<Token> = Vec::new();
        loop
            invariant_except_break
                old(self).pending() is None ==> self.pending() is None && lex_path(
                    self.src(),
                    old(self).cur() as int,
                    tokens@,
                    self.cur() as int,
                ),
            invariant
                self.wf(),
                self.src() == old(self).src(),
                forall|i: int| 0 <= i < tokens@.len() ==> (#[trigger] tokens@[i]).ty != TokenType::Eof,
                forall|i: int, j: int|
                    0 <= i <= j < tokens@.len() ==> (#[trigger] tokens@[i]).offset <= (
                    #[trigger] tokens@[j]).offset,
                forall|i: int|
                    0 <= i < tokens@.len() ==> old(self).floor() <= (#[trigger] tokens@[i]).offset
                        <= self.floor(),
                old(self).floor() <= self.floor(),
            ensures
                self.wf(),
                self.src() == old(self).src(),
                self.exhausted(),
                forall|i: int| 0 <= i < tokens@.len() ==> (#[trigger] tokens@[i]).ty != TokenType::Eof,
                forall|i: int, j: int|
                    0 <= i <= j < tokens@.len() ==> (#[trigger] tokens@[i]).offset <= (
                    #[trigger] tokens@[j]).offset,
                forall|i: int|
                    0 <= i < tokens@.len() ==> old(self).floor() <= (#[trigger] tokens@[i]).offset
                        <= self.cur(),
                old(self).pending() is None ==> lexes_all(self.src(), old(self).cur() as int, tokens@),
            decreases self.remaining(),
        {
            let ghost before = *self;
            let tok = self.next_token();
            if tok.ty == TokenType::Eof {
                proof {
                    if old(self).pending() is None {
                        assert(lex_step(before.src(), before.cur() as int, self.cur() as int, tok));
                        assert(lex_path(self.src(), old(self).cur() as int, tokens@, before.cur() as int));
                    }
                }
                break;
            }
            let ghost prev = tokens@;
            tokens.push(tok);
            proof {
                if old(self).pending() is None {
                    assert(tokens@.drop_last() =~= prev);
                    assert(tokens@.last() == tok);
                    assert(lex_step(self.src(), before.cur() as int, self.cur() as int, tok));
                    assert(lex_path(self.src(), old(self).cur() as int, tokens@.drop_last(), before.cur() as int));
                }
            }
        }
        proof {
            if old(self).pending() is None {
                lemma_token_count(old(self).src(), old(self).cur() as int, tokens@);
            }
        }
        tokens
    }
}

/// Peeking does not consume: the token `peek_token` returns is the one the
/// following `next_token` returns, and the position is the same afterwards.
pub proof fn lemma_peek_then_next(l0: Lexer, l1: Lexer, t1: Token, l2: Lexer, t2: Token)
    requires
        peek_token_post(l0, l1, t1),
        next_token_post(l1, l2, t2),
    ensures
        t1 == t2,
        l2.cur() == l1.cur(),
{
}

/// Peeking twice returns the same token and leaves the lexer as it was after the first peek.
pub proof fn lemma_peek_idempotent(l0: Lexer, l1: Lexer, t1: Token, l2: Lexer, t2: Token)
    requires
        peek_token_post(l0, l1, t1),
        peek_token_post(l1, l2, t2),
    ensures
        t1 == t2,
        l2.cur() == l1.cur(),
        l2.pending() == l1.pending(),
{
}

} // verus!
