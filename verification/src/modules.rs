//! Module system for Silq.
//!
//! The module cache, the mapping from module names to file names, and the
//! assembly of a program from the prelude and the user's source.  Finding
//! and reading the files is left to the caller.

use vstd::prelude::*;
use crate::ast::{Declaration, Expression, Interner};
use crate::errors::Location;
use crate::lexer::{lemma_only_semicolons_step, only_semicolons, Lexer, MAX_SOURCE_LEN};
use crate::grammar::{fuel_for, g_program, meas, need, parse_source};
use crate::parser::Parser;
use crate::syntax::{exprs_tree, lemma_exprs_tree_append};
use crate::text::{push_char, str_eq};
use vstd::string::{StrSliceExecFns, StringExecFns, StringSliceAdditionalSpecFns};

verus! {

/// The relative file name of a module: its dotted name with each `.`
/// replaced by `/`, then `.slq`.
pub open spec fn module_file(name: Seq<char>) -> Seq<char> {
    name.map_values(|c: char| if c == '.' { '/' } else { c }) + ".slq"@
}

/// The module bound to `name` in a list of (name, program) pairs.
pub open spec fn find_module(mods: Seq<(Seq<char>, Seq<Expression>)>, name: Seq<char>) -> Option<Seq<Expression>> {
    if exists|i: int| 0 <= i < mods.len() && mods[i].0 == name {
        Some(mods[choose|i: int| 0 <= i < mods.len() && mods[i].0 == name].1)
    } else {
        None
    }
}

/// The module cache stores parsed modules, each under its name, and the
/// import search paths.
pub struct ModuleCache {
    /// Cached modules: name -> list of top-level expressions, each name at most once.
    modules: Vec<(String, Vec<Expression>)>,
    /// Import search paths.
    import_paths: Vec<String>,
}

impl ModuleCache {
    /// The cached modules.
    pub closed spec fn mods(&self) -> Seq<(Seq<char>, Seq<Expression>)> {
        self.modules@.map_values(|m: (String, Vec<Expression>)| (m.0@, m.1@))
    }

    /// The import search paths, in the order they were added.
    pub closed spec fn paths(&self) -> Seq<Seq<char>> {
        self.import_paths@.map_values(|p: String| p@)
    }

    /// No module name occurs twice.
    #[verifier::type_invariant]
    spec fn wf(&self) -> bool {
        forall|i: int, j: int|
            0 <= i < j < self.modules@.len() ==> #[trigger] self.modules@[i].0@
                != #[trigger] self.modules@[j].0@
    }

    pub fn new() -> (r: Self)
        ensures
            r.mods() == Seq::<(Seq<char>, Seq<Expression>)>::empty(),
            r.paths() == Seq::<Seq<char>>::empty(),
    {
        let r = ModuleCache { modules: Vec::new(), import_paths: Vec::new() };
        assert(r.mods() =~= Seq::<(Seq<char>, Seq<Expression>)>::empty());
        assert(r.paths() =~= Seq::<Seq<char>>::empty());
        r
    }

    /// Add an import search path.
    pub fn add_path(&mut self, path: &str)
        ensures
            final(self).paths() == old(self).paths().push(path@),
            final(self).mods() == old(self).mods(),
    {
        proof {
            use_type_invariant(&*self);
        }
        let mut paths: Vec<String> = Vec::new();
        std::mem::swap(&mut paths, &mut self.import_paths);
        paths.push(path.to_owned());
        self.import_paths = paths;
        assert(self.paths() =~= old(self).paths().push(path@));
    }

    /// The import search paths.
    pub fn import_paths(&self) -> (r: &Vec<String>)
        ensures
            r@.map_values(|p: String| p@) == self.paths(),
    {
        &self.import_paths
    }

    /// The cached program of a module, if it has been loaded.
    pub fn cached(&self, name: &str) -> (r: Option<&Vec<Expression>>)
        ensures
            match r {
                Some(p) => find_module(self.mods(), name@) == Some(p@),
                None => find_module(self.mods(), name@) is None,
            },
    {
        proof {
            use_type_invariant(self);
        }
        let mut i: usize = 0;
        while i < self.modules.len()
            invariant
                self.wf(),
                i <= self.modules@.len(),
                forall|j: int| 0 <= j < i ==> self.modules@[j].0@ != name@,
            decreases self.modules@.len() - i,
        {
            if str_eq(self.modules[i].0.as_str(), name) {
                proof {
                    let k = choose|k: int| 0 <= k < self.mods().len() && self.mods()[k].0 == name@;
                    assert(self.mods()[i as int].0 == name@);
                    assert(self.modules@[k].0@ == name@);
                    assert(k == i);
                }
                return Some(&self.modules[i].1);
            }
            i += 1;
        }
        proof {
            if exists|k: int| 0 <= k < self.mods().len() && self.mods()[k].0 == name@ {
                let k = choose|k: int| 0 <= k < self.mods().len() && self.mods()[k].0 == name@;
                assert(self.modules@[k].0@ == name@);
            }
        }
        None
    }

    /// Store the program of a module under its name (replacing an earlier one).
    pub fn store(&mut self, name: &str, program: Vec<Expression>)
        ensures
            find_module(final(self).mods(), name@) == Some(program@),
            forall|other: Seq<char>|
                other != name@ ==> find_module(final(self).mods(), other) == find_module(
                    old(self).mods(),
                    other,
                ),
            final(self).paths() == old(self).paths(),
    {
        proof {
            use_type_invariant(&*self);
        }
        let ghost before = self.mods();
        let mut mods: Vec<(String, Vec<Expression>)> = Vec::new();
        std::mem::swap(&mut mods, &mut self.modules);
        let ghost m0 = mods@;
        let mut i: usize = 0;
        let mut found = false;
        while i < mods.len() && !found
            invariant
                i <= mods@.len(),
                mods@ == m0,
                !found ==> forall|j: int| 0 <= j < i ==> mods@[j].0@ != name@,
                found ==> i < mods@.len() && mods@[i as int].0@ == name@,
            decreases mods@.len() - i + if found { 0int } else { 1int },
        {
            if str_eq(mods[i].0.as_str(), name) {
                found = true;
            } else {
                i += 1;
            }
        }
        let ghost prog = program@;
        let ghost mut w: int = 0;
        if found {
            mods.set(i, (name.to_owned(), program));
            proof {
                w = i as int;
            }
        } else {
            mods.push((name.to_owned(), program));
            proof {
                w = m0.len() as int;
            }
        }
        proof {
            assert forall|a: int, b: int| 0 <= a < b < mods@.len() implies #[trigger] mods@[a].0@
                != #[trigger] mods@[b].0@ by {
                if a != w && b != w {
                    assert(mods@[a] == m0[a] && mods@[b] == m0[b]);
                }
            }
        }
        self.modules = mods;
        proof {
            let after = self.mods();
            if found {
                assert(after =~= before.update(w, (name@, prog)));
            } else {
                assert(after =~= before.push((name@, prog)));
            }
            assert(after[w].0 == name@);
            let k = choose|j: int| 0 <= j < after.len() && after[j].0 == name@;
            assert(self.modules@[k].0@ == name@);
            assert(self.modules@[w].0@ == name@);
            assert forall|other: Seq<char>| other != name@ implies find_module(after, other)
                == find_module(before, other) by {
                if exists|j: int| 0 <= j < before.len() && before[j].0 == other {
                    let j = choose|j: int| 0 <= j < before.len() && before[j].0 == other;
                    assert(after[j].0 == other);
                }
                if exists|j: int| 0 <= j < after.len() && after[j].0 == other {
                    let j = choose|j: int| 0 <= j < after.len() && after[j].0 == other;
                    assert(before[j].0 == other);
                    let j1 = choose|j: int| 0 <= j < before.len() && before[j].0 == other;
                    let j2 = choose|j: int| 0 <= j < after.len() && after[j].0 == other;
                    assert(m0[j1].0@ == other);
                    assert(self.modules@[j2].0@ == other);
                }
            }
            assert(self.paths() =~= old(self).paths());
        }
    }
}

impl Default for ModuleCache {
    fn default() -> (r: Self)
        ensures
            r.mods() == Seq::<(Seq<char>, Seq<Expression>)>::empty(),
            r.paths() == Seq::<Seq<char>>::empty(),
    {
        ModuleCache::new()
    }
}

/// The relative file name of a module: a.b.c -> a/b/c.slq.
pub fn module_file_name(module_name: &str) -> (r: String)
    ensures
        r@ == module_file(module_name@),
{
    let n = module_name.unicode_len();
    let mut out = String::new();
    let mut i: usize = 0;
    while i < n
        invariant
            n == module_name@.len(),
            i <= n,
            out@ == module_name@.subrange(0, i as int).map_values(
                |c: char|
                    if c == '.' {
                        '/'
                    } else {
                        c
                    },
            ),
        decreases n - i,
    {
        let c = module_name.get_char(i);
        push_char(
            &mut out,
            if c == '.' {
                '/'
            } else {
                c
            },
        );
        i += 1;
        assert(out@ =~= module_name@.subrange(0, i as int).map_values(
            |c: char|
                if c == '.' {
                    '/'
                } else {
                    c
                },
        ));
    }
    out.append(".slq");
    proof {
        reveal_strlit(".slq");
        assert(module_name@.subrange(0, n as int) =~= module_name@);
    }
    out
}

/// Parse source text into its top-level expressions: the program that the
/// grammar gives for the text, with the names interned before.  The program
/// is empty exactly when the text holds nothing but semicolons (besides
/// blanks and comments).
pub fn parse_text(source: &str, interner: &mut Interner) -> (r: Vec<Expression>)
    requires
        source.spec_bytes().len() <= MAX_SOURCE_LEN,
    ensures
        exprs_tree(r@) == parse_source(source.spec_bytes(), old(interner).names()).tree,
        r@.len() == 0 <==> only_semicolons(source.spec_bytes(), 0),
{
    let ghost ns = interner.names();
    let mut lexer = Lexer::new(source);
    let mut parser = Parser::new(&mut lexer, interner);
    let ghost p0 = parser;
    proof {
        lemma_only_semicolons_step(source.spec_bytes(), 0, parser.lex().cur() as int, parser.cur());
    }
    let r = parser.parse_program();
    proof {
        let s = source.spec_bytes();
        assert(p0.from() == 0);
        assert(meas(s, 0) <= 2 * s.len() + 1);
        assert(fuel_for(s) >= need(s, 0, 6));
        assert(parser.yields(g_program(s, 0, ns, Seq::empty(), fuel_for(s)), exprs_tree(r@)));
    }
    r
}

/// A program that imports the prelude: an `import prelude` declaration put
/// in front of the given top-level expressions.
pub fn with_prelude_import(ast: Vec<Expression>) -> (r: Vec<Expression>)
    ensures
        r@.len() == ast@.len() + 1,
        r@[0] matches Expression::TypeDecl(d) && *d matches Declaration::Import { loc, path } && loc
            == Location::spec_default() && path@ == "prelude"@,
        r@.drop_first() == ast@,
{
    let mut ast = ast;
    ast.insert(
        0,
        Expression::TypeDecl(
            Box::new(Declaration::Import { loc: Location::default(), path: "prelude".to_owned() }),
        ),
    );
    proof {
        reveal_strlit("prelude");
    }
    ast
}

/// Parse the prelude and the user's source into one program: the prelude's
/// top-level expressions first, then the user's.  It is empty exactly when
/// both texts hold nothing but semicolons.
pub fn parse_with_prelude(prelude_source: &str, source: &str, interner: &mut Interner) -> (r: Vec<
    Expression,
>)
    requires
        prelude_source.spec_bytes().len() <= MAX_SOURCE_LEN,
        source.spec_bytes().len() <= MAX_SOURCE_LEN,
    ensures
        exists|ns: Seq<Seq<char>>|
            exprs_tree(r@) == parse_source(prelude_source.spec_bytes(), old(interner).names()).tree
                + #[trigger] parse_source(source.spec_bytes(), ns).tree,
        r@.len() == 0 <==> only_semicolons(prelude_source.spec_bytes(), 0) && only_semicolons(
            source.spec_bytes(),
            0,
        ),
{
    let mut prelude_asts = parse_text(prelude_source, interner);
    let ghost mid = interner.names();
    let ghost first = prelude_asts@;
    let mut user_asts = parse_text(source, interner);
    let ghost second = user_asts@;
    prelude_asts.append(&mut user_asts);
    proof {
        lemma_exprs_tree_append(first, second);
        assert(prelude_asts@ == first + second);
        assert(exprs_tree(prelude_asts@) == parse_source(prelude_source.spec_bytes(), old(interner).names()).tree
            + parse_source(source.spec_bytes(), mid).tree);
    }
    prelude_asts
}

} // verus!
