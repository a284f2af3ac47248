//! Text entry points over the lexer and the parser: a token listing and a
//! dump of the syntax tree of a source string.

use vstd::prelude::*;
use crate::ast::{Expression, Interner};
use crate::lexer::{lexes_all, only_semicolons, Lexer, MAX_SOURCE_LEN};
use crate::grammar::parse_source;
use crate::modules::parse_text;
use crate::syntax::exprs_tree;
use crate::text::push_char;
use crate::token::{spec_debug_name, Token, TokenType};
use vstd::string::{StringExecFns, StringSliceAdditionalSpecFns};

verus! {

/// One line of a token listing: the kind's name, then the text in quotes.
pub open spec fn token_line(t: Token) -> Seq<char> {
    spec_debug_name(t.ty) + ": '"@ + t.text@ + "'"@
}

/// The lines of the tokens, separated by newlines.
pub open spec fn token_listing(ts: Seq<Token>) -> Seq<char>
    decreases ts.len(),
{
    if ts.len() == 0 {
        Seq::empty()
    } else if ts.len() == 1 {
        token_line(ts[0])
    } else {
        token_listing(ts.drop_last()) + "\n"@ + token_line(ts.last())
    }
}

/// The pretty-printed `Debug` text of a syntax tree.
pub uninterp spec fn ast_debug_text(program: Seq<Expression>) -> Seq<char>;

/// The `{:#?}` formatting (std's `format!` over the derived `Debug`) of a
/// list of expressions.  The contract names the text and states nothing
/// about its contents.
#[verifier::external_body]
fn debug_text(program: &Vec<Expression>) -> (r: String)
    ensures
        r@ == ast_debug_text(program@),
{
    format!("{:#?}", program)
}

/// The listing of a list of tokens.
pub fn render_tokens(tokens: &Vec<Token>) -> (r: String)
    ensures
        r@ == token_listing(tokens@),
{
    let mut out = String::new();
    let mut i: usize = 0;
    while i < tokens.len()
        invariant
            i <= tokens@.len(),
            out@ == token_listing(tokens@.subrange(0, i as int)),
        decreases tokens@.len() - i,
    {
        let t = &tokens[i];
        let ghost before = out@;
        if i > 0 {
            push_char(&mut out, '\n');
        }
        out.append(t.ty.debug_name());
        out.append(": '");
        out.append(t.text.as_str());
        push_char(&mut out, '\'');
        proof {
            reveal_strlit(": '");
            reveal_strlit("'");
            reveal_strlit("\n");
            let p = tokens@.subrange(0, i + 1);
            assert(p.drop_last() =~= tokens@.subrange(0, i as int));
            assert(p.last() == tokens@[i as int]);
            if i == 0 {
                assert(out@ =~= token_line(tokens@[0]));
            } else {
                assert(out@ =~= before + "\n"@ + token_line(tokens@[i as int]));
            }
        }
        i += 1;
    }
    assert(tokens@.subrange(0, tokens@.len() as int) =~= tokens@);
    out
}

/// Tokenize Silq source code and return the tokens as text, one per line:
/// the listing of the tokens that lexing the source yields before its end.
pub fn tokenize_silq(source: &str) -> (r: String)
    requires
        source.spec_bytes().len() <= MAX_SOURCE_LEN,
    ensures
        exists|ts: Seq<Token>|
            r@ == token_listing(ts) && lexes_all(source.spec_bytes(), 0, ts) && forall|i: int|
                0 <= i < ts.len() ==> (#[trigger] ts[i]).ty != TokenType::Eof,
{
    let mut lexer = Lexer::new(source);
    let tokens = lexer.tokenize_all();
    let r = render_tokens(&tokens);
    assert(forall|i: int| 0 <= i < tokens@.len() ==> (#[trigger] tokens@[i]).ty != TokenType::Eof);
    r
}

/// Parse Silq source code and return the syntax tree as its pretty-printed
/// `Debug` text: the text of the program that parsing the source yields,
/// which is empty exactly when the source holds nothing but semicolons.
pub fn parse_silq(source: &str) -> (r: String)
    requires
        source.spec_bytes().len() <= MAX_SOURCE_LEN,
    ensures
        exists|program: Seq<Expression>|
            r@ == #[trigger] ast_debug_text(program) && exprs_tree(program) == parse_source(
                source.spec_bytes(),
                seq![Seq::<char>::empty()],
            ).tree && (program.len() == 0 <==> only_semicolons(source.spec_bytes(), 0)),
{
    let mut interner = Interner::new();
    let ast = parse_text(source, &mut interner);
    debug_text(&ast)
}

} // verus!
