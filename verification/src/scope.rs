//! Scope management and symbol table for Silq.
//!
//! Scopes store variable bindings, handle nested scopes, and track
//! dependencies for termination analysis.
//!
//! A scope is modelled by its frames: the bindings of the scope itself,
//! then those of its parent, and so on out to the global scope.  A name
//! resolves to its binding in the innermost frame that binds it.

use vstd::prelude::*;
use std::collections::HashMap;
use std::collections::hash_map;
use vstd::std_specs::hash::spec_hash_map_iter;
use vstd::std_specs::iter::IteratorSpec;
use crate::ast::{Declaration, Id, Interner};
use crate::parser::names_id;
use crate::text::{decimal_text, push_char, push_decimal};
use vstd::string::StringExecFns;

verus! {

broadcast use vstd::std_specs::hash::group_hash_axioms;

/// The binding of `k` in the innermost of `frames` that binds it.
pub open spec fn resolve(frames: Seq<Map<usize, Declaration>>, k: usize) -> Option<Declaration>
    decreases frames.len(),
{
    if frames.len() == 0 {
        None
    } else if frames[0].contains_key(k) {
        Some(frames[0][k])
    } else {
        resolve(frames.drop_first(), k)
    }
}

/// A scope in the symbol table. Scopes form a nested hierarchy.
#[derive(Debug)]
pub struct Scope {
    /// Parent scope (None for the global scope).
    pub parent: Option<Box<Scope>>,
    /// Bindings: name -> declaration.
    pub bindings: HashMap<usize, Declaration>,
    /// Dependency tracking for termination checking.
    pub dependencies: Vec<Id>,
    /// Unique ID suffix for generating fresh names.
    unique_counter: u64,
}

impl Scope {
    /// The bindings of this scope and of each enclosing scope, innermost first.
    pub closed spec fn frames(self) -> Seq<Map<usize, Declaration>>
        decreases self,
    {
        seq![self.bindings@] + match self.parent {
            Some(p) => p.frames(),
            None => Seq::empty(),
        }
    }

    /// The bindings of this scope alone.
    pub closed spec fn local(self) -> Map<usize, Declaration> {
        self.bindings@
    }

    /// The dependencies recorded so far.
    pub closed spec fn deps(self) -> Seq<Id> {
        self.dependencies@
    }

    /// The number of fresh names generated so far.
    pub closed spec fn counter(self) -> u64 {
        self.unique_counter
    }

    /// Create a new scope with an optional parent.
    pub fn new(parent: Option<Scope>) -> (r: Self)
        ensures
            r.frames() == seq![Map::<usize, Declaration>::empty()] + match parent {
                Some(p) => p.frames(),
                None => Seq::empty(),
            },
            r.deps().len() == 0,
            r.counter() == 0,
    {
        let parent = match parent {
            Some(p) => Some(Box::new(p)),
            None => None,
        };
        Scope { parent, bindings: HashMap::new(), dependencies: Vec::new(), unique_counter: 0 }
    }

    /// Create a new global (root) scope.
    pub fn global() -> (r: Self)
        ensures
            r.frames() == seq![Map::<usize, Declaration>::empty()],
            r.deps().len() == 0,
            r.counter() == 0,
    {
        let r = Scope::new(None);
        assert(r.frames() =~= seq![Map::<usize, Declaration>::empty()]);
        r
    }

    /// Look up a name in this scope and its ancestors.
    pub fn lookup(&self, id: Id) -> (r: Option<&Declaration>)
        ensures
            match r {
                Some(d) => resolve(self.frames(), id.0) == Some(*d),
                None => resolve(self.frames(), id.0) is None,
            },
        decreases self,
    {
        if let Some(decl) = self.bindings.get(&id.0) {
            return Some(decl);
        }
        proof {
            lemma_frames_nonempty(*self);
            assert(!self.frames()[0].contains_key(id.0));
        }
        match &self.parent {
            Some(p) => {
                let r = p.lookup(id);
                proof {
                    assert(self.frames().drop_first() =~= p.frames());
                }
                r
            },
            None => {
                proof {
                    assert(self.frames().drop_first() =~= Seq::<Map<usize, Declaration>>::empty());
                }
                None
            },
        }
    }

    /// Look up a name only in this scope (not ancestors).
    pub fn lookup_local(&self, id: Id) -> (r: Option<&Declaration>)
        ensures
            match r {
                Some(d) => self.local().contains_key(id.0) && self.local()[id.0] == *d,
                None => !self.local().contains_key(id.0),
            },
    {
        self.bindings.get(&id.0)
    }

    /// Insert a binding into this scope.
    pub fn insert(&mut self, id: Id, decl: Declaration)
        ensures
            final(self).local() == old(self).local().insert(id.0, decl),
            final(self).frames() == old(self).frames().update(0, old(self).local().insert(id.0, decl)),
            final(self).deps() == old(self).deps(),
            final(self).counter() == old(self).counter(),
    {
        self.bindings.insert(id.0, decl);
        proof {
            assert(final(self).frames() =~= old(self).frames().update(0, old(self).bindings@.insert(id.0, decl)));
        }
    }

    /// Check if a name is bound in this scope or ancestors.
    pub fn contains(&self, id: Id) -> (r: bool)
        ensures
            r == resolve(self.frames(), id.0) is Some,
    {
        self.lookup(id).is_some()
    }

    /// Check if a name is bound only in this scope.
    pub fn contains_local(&self, id: Id) -> (r: bool)
        ensures
            r == self.local().contains_key(id.0),
    {
        self.bindings.contains_key(&id.0)
    }

    /// Generate a unique name based on a base name: the base name, an
    /// underscore and the count of names generated in this scope so far.
    pub fn unique_name(&mut self, base: Id, interner: &mut Interner) -> (r: Id)
        requires
            old(self).counter() < u64::MAX,
        ensures
            final(self).counter() == old(self).counter() + 1,
            final(self).frames() == old(self).frames(),
            final(self).deps() == old(self).deps(),
            names_id(
                final(interner).names(),
                r,
                (if base.0 < old(interner).names().len() {
                    old(interner).names()[base.0 as int]
                } else {
                    Seq::<char>::empty()
                }) + seq!['_'] + decimal_text(final(self).counter() as nat),
            ),
            old(interner).names().is_prefix_of(final(interner).names()),
    {
        self.unique_counter += 1;
        let mut name = String::new();
        let base_text = interner.lookup(base);
        name.append(base_text);
        push_char(&mut name, '_');
        push_decimal(&mut name, self.unique_counter);
        assert(name@ =~= base_text@ + seq!['_'] + decimal_text(self.unique_counter as nat));
        let ghost before = interner.names();
        let r = interner.intern(name.as_str());
        proof {
            if !before.contains(name@) {
                assert(before.is_prefix_of(interner.names()));
            }
        }
        r
    }

    /// Create a child scope.
    pub fn child(&self) -> (r: Self)
        ensures
            r.frames() == seq![Map::<usize, Declaration>::empty()] + self.frames(),
            r.deps().len() == 0,
            r.counter() == 0,
    {
        Scope::new(Some(self.clone()))
    }

    /// Add a dependency (used for termination analysis).
    pub fn add_dependency(&mut self, id: Id)
        ensures
            final(self).deps() == if old(self).deps().contains(id) {
                old(self).deps()
            } else {
                old(self).deps().push(id)
            },
            final(self).frames() == old(self).frames(),
            final(self).counter() == old(self).counter(),
    {
        let mut i: usize = 0;
        let n = self.dependencies.len();
        while i < n
            invariant
                n == self.dependencies@.len(),
                self.dependencies@ == old(self).deps(),
                self.frames() == old(self).frames(),
                self.counter() == old(self).counter(),
                i <= n,
                forall|j: int| 0 <= j < i ==> self.dependencies@[j] != id,
            decreases n - i,
        {
            if self.dependencies[i] == id {
                proof {
                    assert(self.dependencies@[i as int] == id);
                }
                return;
            }
            i += 1;
        }
        self.dependencies.push(id);
        proof {
            assert(final(self).frames() =~= old(self).frames());
        }
    }

    /// Get all bindings in this scope (does not include ancestors).
    pub fn local_bindings(&self) -> (r: hash_map::Iter<'_, usize, Declaration>)
        ensures
            r.remaining().len() == self.local().dom().len(),
            r.remaining().no_duplicates(),
            forall|i: int|
                0 <= i < r.remaining().len() ==> self.local().contains_key(*(#[trigger] r.remaining()[i]).0)
                    && self.local()[*r.remaining()[i].0] == *r.remaining()[i].1,
            forall|k: usize|
                #[trigger] self.local().contains_key(k) ==> r.remaining().contains((&k, &self.local()[k])),
    {
        let r = self.bindings.iter();
        proof {
            let v = spec_hash_map_iter(&self.bindings).remaining();
            assert forall|i: int| 0 <= i < r.remaining().len() implies self.local().contains_key(*(#[trigger] r.remaining()[i]).0)
                    && self.local()[*r.remaining()[i].0] == *r.remaining()[i].1 by {
                assert(self.bindings@.contains_key(*v[i].0));
            }
        }
        r
    }

    /// Get all bindings visible from this scope (includes ancestors): every
    /// binding of every frame, shadowed ones included.
    pub fn all_bindings(&self) -> (r: Vec<(Id, &Declaration)>)
        ensures
            forall|i: int| 0 <= i < r@.len() ==> found_in(self.frames(), #[trigger] r@[i]),
            forall|f: int, k: usize|
                0 <= f < self.frames().len() && #[trigger] self.frames()[f].contains_key(k) ==> listed(
                    r@,
                    k,
                    self.frames()[f][k],
                ),
    {
        let mut result: Vec<(Id, &Declaration)> = Vec::new();
        let mut current: Option<&Scope> = Some(self);
        let ghost mut done: int = 0;
        proof {
            lemma_frames_nonempty(*self);
        }
        while current.is_some()
            invariant
                0 <= done <= self.frames().len(),
                self.frames().len() >= 1,
                match current {
                    Some(s) => s.frames() == self.frames().subrange(done, self.frames().len() as int),
                    None => done == self.frames().len(),
                },
                forall|i: int| 0 <= i < result@.len() ==> found_in(self.frames(), #[trigger] result@[i]),
                forall|f: int, k: usize|
                    0 <= f < done && #[trigger] self.frames()[f].contains_key(k) ==> listed(
                        result@,
                        k,
                        self.frames()[f][k],
                    ),
            decreases self.frames().len() - done,
        {
            let scope = current.unwrap();
            let ghost start = result@.len() as int;
            proof {
                lemma_frames_nonempty(*scope);
                assert(scope.frames()[0] == self.frames()[done]);
                assert(scope.frames()[0] == scope.bindings@);
            }
            let ghost v = spec_hash_map_iter(&scope.bindings).remaining();
            for (id, decl) in it: scope.bindings.iter()
                invariant
                    0 <= done < self.frames().len(),
                    self.frames()[done] == scope.bindings@,
                    0 <= start <= result@.len(),
                    forall|i: int| 0 <= i < result@.len() ==> found_in(self.frames(), #[trigger] result@[i]),
                    forall|f: int, k: usize|
                        0 <= f < done && #[trigger] self.frames()[f].contains_key(k) ==> listed(
                            result@,
                            k,
                            self.frames()[f][k],
                        ),
                    v == spec_hash_map_iter(&scope.bindings).remaining(),
                    it.seq() == v,
                    forall|j: int|
                        0 <= j < it.index() ==> #[trigger] result@[start + j] == (Id(*v[j].0), v[j].1),
                    result@.len() == start + it.index(),
            {
                proof {
                    let j = it.index();
                    assert(scope.bindings@.contains_key(*v[j].0));
                    assert(found_in(self.frames(), (Id(*id), decl)));
                }
                let ghost before = result@;
                result.push((Id(*id), decl));
                proof {
                    assert forall|f: int, k: usize|
                        0 <= f < done && #[trigger] self.frames()[f].contains_key(k) implies listed(
                            result@,
                            k,
                            self.frames()[f][k],
                        ) by {
                        assert(listed(before, k, self.frames()[f][k]));
                        let i = choose|i: int| 0 <= i < before.len() && before[i].0 == Id(k) && *before[i].1 == self.frames()[f][k];
                        assert(result@[i] == before[i]);
                    }
                }
            }
            proof {
                assert forall|k: usize| #[trigger] self.frames()[done].contains_key(k) implies listed(
                    result@,
                    k,
                    self.frames()[done][k],
                ) by {
                    assert(v.contains((&k, &scope.bindings@[k])));
                    let j = choose|j: int| 0 <= j < v.len() && v[j] == (&k, &scope.bindings@[k]);
                    assert(result@[start + j] == (Id(k), &scope.bindings@[k]));
                }
            }
            current = match &scope.parent {
                Some(p) => Some(&**p),
                None => None,
            };
            proof {
                done = done + 1;
                if scope.parent is Some {
                    let p = scope.parent->0;
                    assert(scope.frames() =~= seq![scope.bindings@] + p.frames());
                    assert(p.frames() =~= scope.frames().subrange(1, scope.frames().len() as int));
                    assert(p.frames() =~= self.frames().subrange(done, self.frames().len() as int));
                } else {
                    assert(scope.frames().len() == 1);
                }
            }
        }
        result
    }
}

/// `e` is a binding of one of the frames.
pub open spec fn found_in(frames: Seq<Map<usize, Declaration>>, e: (Id, &Declaration)) -> bool {
    exists|f: int| 0 <= f < frames.len() && frames[f].contains_key(e.0.0) && frames[f][e.0.0] == *e.1
}

/// The list holds the binding of `k` to `d`.
pub open spec fn listed(r: Seq<(Id, &Declaration)>, k: usize, d: Declaration) -> bool {
    exists|i: int| 0 <= i < r.len() && r[i].0 == Id(k) && *r[i].1 == d
}

/// A lookup right after an insert finds the inserted declaration, and every
/// other name resolves as before.
pub proof fn lemma_lookup_after_insert(
    before: Seq<Map<usize, Declaration>>,
    after: Seq<Map<usize, Declaration>>,
    k: usize,
    d: Declaration,
)
    requires
        before.len() >= 1,
        after == before.update(0, before[0].insert(k, d)),
    ensures
        resolve(after, k) == Some(d),
        forall|j: usize| j != k ==> #[trigger] resolve(after, j) == resolve(before, j),
{
    assert(after.drop_first() =~= before.drop_first());
}

/// A child scope resolves every name as its parent does until something is
/// bound in it.
pub proof fn lemma_child_lookup(parent: Seq<Map<usize, Declaration>>, k: usize)
    ensures
        resolve(seq![Map::<usize, Declaration>::empty()] + parent, k) == resolve(parent, k),
{
    let child = seq![Map::<usize, Declaration>::empty()] + parent;
    assert(child.drop_first() =~= parent);
}

/// A binding in a child scope shadows the parent's binding of the same name.
pub proof fn lemma_child_shadows(parent: Seq<Map<usize, Declaration>>, k: usize, d: Declaration)
    ensures
        resolve(seq![Map::<usize, Declaration>::empty().insert(k, d)] + parent, k) == Some(d),
{
}

/// Every scope has at least its own frame, and its first frame is its own bindings.
pub proof fn lemma_frames_nonempty(s: Scope)
    ensures
        s.frames().len() >= 1,
        s.frames()[0] == s.local(),
{
}

impl Clone for Scope {
    fn clone(&self) -> (r: Self)
        ensures
            r.frames() == self.frames(),
            r.deps() == self.deps(),
            r.counter() == self.counter(),
        decreases self,
    {
        let parent = match &self.parent {
            Some(p) => Some(Box::new((&**p).clone())),
            None => None,
        };
        let mut dependencies: Vec<Id> = Vec::new();
        let mut i: usize = 0;
        while i < self.dependencies.len()
            invariant
                i <= self.dependencies@.len(),
                dependencies@ == self.dependencies@.subrange(0, i as int),
            decreases self.dependencies@.len() - i,
        {
            dependencies.push(self.dependencies[i]);
            i += 1;
            assert(dependencies@ =~= self.dependencies@.subrange(0, i as int));
        }
        assert(dependencies@ =~= self.dependencies@);
        let r = Scope {
            parent,
            bindings: self.bindings.clone(),
            dependencies,
            unique_counter: self.unique_counter,
        };
        assert(r.frames() =~= self.frames());
        r
    }
}

} // verus!
