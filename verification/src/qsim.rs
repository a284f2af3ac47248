//! The parts of the quantum simulator that involve no amplitudes: where
//! each quantum variable lives, which functions a program defines and which
//! one it starts from, and which built-in operation a call names.
//!
//! The state vector itself holds complex amplitudes and is kept by the
//! caller; the basis states it is indexed by are in `basis`.

use vstd::prelude::*;
use std::collections::HashMap;
use vstd::std_specs::hash::spec_hash_map_iter;
use vstd::std_specs::iter::IteratorSpec;
use crate::ast::{decl_eq, Declaration, Id};
use crate::text::str_eq;

verus! {

broadcast use vstd::std_specs::hash::group_hash_axioms;

// =============================================================================
// Qubit allocation
// =============================================================================

/// The qubits of the simulated system and the variables bound to them.
pub struct QubitTable {
    /// Number of qubits in the system.
    pub num_qubits: usize,
    /// Named variables: name -> (first qubit index, number of qubits used).
    pub variables: HashMap<usize, (usize, usize)>,
    /// Next available qubit index.
    next_qubit: usize,
}

impl QubitTable {
    /// The index the next allocated qubit gets.
    pub closed spec fn next(&self) -> usize {
        self.next_qubit
    }

    /// The number of qubits in the system.
    pub closed spec fn count(&self) -> usize {
        self.num_qubits
    }

    /// The variables' bindings: name -> (first qubit index, number of qubits).
    pub closed spec fn vars(&self) -> Map<usize, (usize, usize)> {
        self.variables@
    }

    /// An empty system: no qubits, no variables.
    pub fn new() -> (r: Self)
        ensures
            r.count() == 0,
            r.vars() == Map::<usize, (usize, usize)>::empty(),
            r.next() == 0,
    {
        QubitTable { num_qubits: 0, variables: HashMap::new(), next_qubit: 0 }
    }

    /// The index the next allocated qubit gets.
    pub fn next_qubit(&self) -> (r: usize)
        ensures
            r == self.next(),
    {
        self.next_qubit
    }

    /// Allocate a new qubit for the variable `name`: it gets the next free
    /// index, and the variable is bound to that one qubit.
    pub fn alloc_qubit(&mut self, name: Id) -> (r: usize)
        requires
            old(self).next() < usize::MAX,
            old(self).count() < usize::MAX,
        ensures
            r == old(self).next(),
            final(self).next() == r + 1,
            final(self).count() == old(self).count() + 1,
            final(self).vars() == old(self).vars().insert(name.0, (r, 1usize)),
    {
        let qidx = self.next_qubit;
        self.next_qubit += 1;
        self.num_qubits += 1;
        self.variables.insert(name.0, (qidx, 1));
        qidx
    }

    /// The first qubit of a variable, if it is bound.
    pub fn get_qubit(&self, name: Id) -> (r: Option<usize>)
        ensures
            r == if self.vars().contains_key(name.0) {
                Some(self.vars()[name.0].0)
            } else {
                None
            },
    {
        match self.variables.get(&name.0) {
            Some(p) => Some(p.0),
            None => None,
        }
    }
}

/// A variable reads back the qubit just allocated for it, and every other
/// variable keeps its binding.
pub proof fn lemma_alloc_then_get(before: QubitTable, after: QubitTable, name: Id, r: usize, other: Id)
    requires
        after.vars() == before.vars().insert(name.0, (r, 1usize)),
    ensures
        after.vars().contains_key(name.0) && after.vars()[name.0].0 == r,
        other.0 != name.0 ==> after.vars().contains_key(other.0) == before.vars().contains_key(other.0)
            && (before.vars().contains_key(other.0) ==> after.vars()[other.0] == before.vars()[other.0]),
{
}

/// Qubits allocated one after the other get distinct indices.
pub proof fn lemma_alloc_distinct(t0: QubitTable, t1: QubitTable, r0: usize, r1: usize)
    requires
        r0 == t0.next(),
        t1.next() >= r0 + 1,
        r1 == t1.next(),
    ensures
        r0 != r1,
{
}

// =============================================================================
// Function table
// =============================================================================

/// Is `d` the program's entry point: a function marked as main, or one
/// named `main`?
pub open spec fn is_entry(d: Declaration, main_name: Id) -> bool {
    match d {
        Declaration::FunctionDef { name, is_main, .. } => is_main || name == main_name,
        _ => false,
    }
}

/// The function definitions available to the interpreter, by name.
pub struct FunctionTable {
    /// Function definitions: name -> definition.
    pub functions: HashMap<usize, Declaration>,
}

impl FunctionTable {
    /// No functions.
    pub fn new() -> (r: Self)
        ensures
            r.functions@ == Map::<usize, Declaration>::empty(),
    {
        FunctionTable { functions: HashMap::new() }
    }

    /// Register a function definition under its name (replacing an earlier
    /// one of that name); other declarations are ignored.
    pub fn register_function(&mut self, decl: &Declaration)
        ensures
            match *decl {
                Declaration::FunctionDef { name, .. } => {
                    &&& final(self).functions@.dom() == old(self).functions@.dom().insert(name.0)
                    &&& decl_eq(final(self).functions@[name.0], *decl)
                    &&& forall|k: usize|
                        k != name.0 && #[trigger] old(self).functions@.contains_key(k)
                            ==> final(self).functions@[k] == old(self).functions@[k]
                },
                _ => final(self).functions@ == old(self).functions@,
            },
    {
        if let Declaration::FunctionDef { name, .. } = decl {
            let d = decl.clone();
            self.functions.insert(name.0, d);
        }
    }

    /// The definition registered under a name.
    pub fn get(&self, name: Id) -> (r: Option<&Declaration>)
        ensures
            match r {
                Some(d) => self.functions@.contains_key(name.0) && self.functions@[name.0] == *d,
                None => !self.functions@.contains_key(name.0),
            },
    {
        self.functions.get(&name.0)
    }

    /// A registered entry point, if there is one.  Which one is found when
    /// several qualify follows the table's iteration order.
    pub fn entry(&self, main_name: Id) -> (r: Option<&Declaration>)
        ensures
            match r {
                Some(d) => is_entry(*d, main_name) && exists|k: usize|
                    #[trigger] self.functions@.contains_key(k) && self.functions@[k] == *d,
                None => forall|k: usize|
                    #[trigger] self.functions@.contains_key(k) ==> !is_entry(
                        self.functions@[k],
                        main_name,
                    ),
            },
    {
        let ghost v = spec_hash_map_iter(&self.functions).remaining();
        for (k, d) in it: self.functions.iter()
            invariant
                v == spec_hash_map_iter(&self.functions).remaining(),
                it.seq() == v,
                forall|j: int| 0 <= j < it.index() ==> !is_entry(*(#[trigger] v[j]).1, main_name),
        {
            proof {
                assert(self.functions@.contains_key(*v[it.index()].0));
            }
            let hit = match d {
                Declaration::FunctionDef { name, is_main, .. } => *is_main || name.0 == main_name.0,
                _ => false,
            };
            if hit {
                proof {
                    assert(self.functions@.contains_key(*k) && self.functions@[*k] == *d);
                }
                return Some(d);
            }
        }
        proof {
            assert forall|k: usize| #[trigger] self.functions@.contains_key(k) implies !is_entry(
                self.functions@[k],
                main_name,
            ) by {
                assert(v.contains((&k, &self.functions@[k])));
                let j = choose|j: int| 0 <= j < v.len() && v[j] == (&k, &self.functions@[k]);
                assert(!is_entry(*v[j].1, main_name));
            }
        }
        None
    }
}

// =============================================================================
// Built-in operations
// =============================================================================

/// The operations the simulator provides itself.
#[derive(Debug, Clone, Copy, PartialEq, Eq, Structural)]
pub enum Builtin {
    Print,
    Dump,
    Exit,
    H,
    X,
    Y,
    Z,
    Phase,
    Cnot,
    Measure,
    Dup,
    RotX,
    RotY,
    RotZ,
}

/// The name a program calls a built-in by.
pub open spec fn builtin_name(b: Builtin) -> Seq<char> {
    match b {
        Builtin::Print => "print"@,
        Builtin::Dump => "dump"@,
        Builtin::Exit => "exit"@,
        Builtin::H => "H"@,
        Builtin::X => "X"@,
        Builtin::Y => "Y"@,
        Builtin::Z => "Z"@,
        Builtin::Phase => "phase"@,
        Builtin::Cnot => "CNOT"@,
        Builtin::Measure => "measure"@,
        Builtin::Dup => "dup"@,
        Builtin::RotX => "rotX"@,
        Builtin::RotY => "rotY"@,
        Builtin::RotZ => "rotZ"@,
    }
}

/// Does the built-in take `n` arguments?  Printing, dumping and exiting take
/// any number; the gates on one qubit, `phase`, `measure` and `dup` take one;
/// `CNOT` and the rotations take two.
pub open spec fn builtin_accepts(b: Builtin, n: nat) -> bool {
    match b {
        Builtin::Print | Builtin::Dump | Builtin::Exit => true,
        Builtin::H | Builtin::X | Builtin::Y | Builtin::Z | Builtin::Phase | Builtin::Measure
        | Builtin::Dup => n == 1,
        Builtin::Cnot | Builtin::RotX | Builtin::RotY | Builtin::RotZ => n == 2,
    }
}

/// The built-in a name calls, if any.
pub fn builtin_named(name: &str) -> (r: Option<Builtin>)
    ensures
        match r {
            Some(b) => builtin_name(b) == name@,
            None => forall|b: Builtin| builtin_name(b) != name@,
        },
{
    proof {
        reveal_strlit("print");
        reveal_strlit("dump");
        reveal_strlit("exit");
        reveal_strlit("H");
        reveal_strlit("X");
        reveal_strlit("Y");
        reveal_strlit("Z");
        reveal_strlit("phase");
        reveal_strlit("CNOT");
        reveal_strlit("measure");
        reveal_strlit("dup");
        reveal_strlit("rotX");
        reveal_strlit("rotY");
        reveal_strlit("rotZ");
    }
    if str_eq(name, "print") {
        Some(Builtin::Print)
    } else if str_eq(name, "dump") {
        Some(Builtin::Dump)
    } else if str_eq(name, "exit") {
        Some(Builtin::Exit)
    } else if str_eq(name, "H") {
        Some(Builtin::H)
    } else if str_eq(name, "X") {
        Some(Builtin::X)
    } else if str_eq(name, "Y") {
        Some(Builtin::Y)
    } else if str_eq(name, "Z") {
        Some(Builtin::Z)
    } else if str_eq(name, "phase") {
        Some(Builtin::Phase)
    } else if str_eq(name, "CNOT") {
        Some(Builtin::Cnot)
    } else if str_eq(name, "measure") {
        Some(Builtin::Measure)
    } else if str_eq(name, "dup") {
        Some(Builtin::Dup)
    } else if str_eq(name, "rotX") {
        Some(Builtin::RotX)
    } else if str_eq(name, "rotY") {
        Some(Builtin::RotY)
    } else if str_eq(name, "rotZ") {
        Some(Builtin::RotZ)
    } else {
        proof {
            assert forall|b: Builtin| builtin_name(b) != name@ by {
                match b {
                    Builtin::Print => {},
                    Builtin::Dump => {},
                    Builtin::Exit => {},
                    Builtin::H => {},
                    Builtin::X => {},
                    Builtin::Y => {},
                    Builtin::Z => {},
                    Builtin::Phase => {},
                    Builtin::Cnot => {},
                    Builtin::Measure => {},
                    Builtin::Dup => {},
                    Builtin::RotX => {},
                    Builtin::RotY => {},
                    Builtin::RotZ => {},
                }
            }
        }
        None
    }
}

/// Does a function of this name run as a built-in?
pub fn is_builtin_name(name: &str) -> (r: bool)
    ensures
        r == exists|b: Builtin| builtin_name(b) == name@,
{
    builtin_named(name).is_some()
}

/// No two built-ins share a name.
pub proof fn lemma_builtin_names_distinct(a: Builtin, b: Builtin)
    ensures
        builtin_name(a) == builtin_name(b) ==> a == b,
{
    reveal_strlit("print");
    reveal_strlit("dump");
    reveal_strlit("exit");
    reveal_strlit("H");
    reveal_strlit("X");
    reveal_strlit("Y");
    reveal_strlit("Z");
    reveal_strlit("phase");
    reveal_strlit("CNOT");
    reveal_strlit("measure");
    reveal_strlit("dup");
    reveal_strlit("rotX");
    reveal_strlit("rotY");
    reveal_strlit("rotZ");
    if builtin_name(a) == builtin_name(b) && a != b {
        assert(builtin_name(a).len() == builtin_name(b).len());
        assert(builtin_name(a)[0] == builtin_name(b)[0]);
        assert(builtin_name(a)[builtin_name(a).len() - 1] == builtin_name(b)[builtin_name(b).len() - 1]);
    }
}

/// The built-in that a call with this name and this number of arguments
/// runs: `None` when the name is no built-in's, or the built-in does not
/// take that many arguments.
pub fn builtin_call(name: &str, nargs: usize) -> (r: Option<Builtin>)
    ensures
        match r {
            Some(b) => builtin_name(b) == name@ && builtin_accepts(b, nargs as nat),
            None => forall|b: Builtin|
                builtin_name(b) == name@ ==> !builtin_accepts(b, nargs as nat),
        },
{
    match builtin_named(name) {
        Some(b) => {
            let ok = match b {
                Builtin::Print | Builtin::Dump | Builtin::Exit => true,
                Builtin::H | Builtin::X | Builtin::Y | Builtin::Z | Builtin::Phase | Builtin::Measure
                | Builtin::Dup => nargs == 1,
                Builtin::Cnot | Builtin::RotX | Builtin::RotY | Builtin::RotZ => nargs == 2,
            };
            proof {
                assert forall|c: Builtin| builtin_name(c) == name@ implies (builtin_accepts(
                    c,
                    nargs as nat,
                ) == ok) by {
                    lemma_builtin_names_distinct(b, c);
                }
            }
            if ok {
                Some(b)
            } else {
                None
            }
        },
        None => None,
    }
}

} // verus!
