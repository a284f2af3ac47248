//! HQIR (High-level Quantum Intermediate Representation) backend.
//!
//! Emits a text-based quantum IR format that can be consumed by
//! external quantum compilation tools.

use vstd::prelude::*;
use crate::ast::{Declaration, Expression};
use crate::text::{decimal_text, push_char, push_decimal, str_eq};
use vstd::string::StringExecFns;

verus! {

/// `n` levels of indentation (two spaces each).
pub open spec fn spaces(n: nat) -> Seq<char>
    decreases n,
{
    if n == 0 {
        Seq::empty()
    } else {
        spaces((n - 1) as nat) + "  "@
    }
}

/// A line of text at indentation level `n`.
pub open spec fn line_at(n: nat, s: Seq<char>) -> Seq<char> {
    spaces(n) + s + seq!['\n']
}

/// The register bound to `name` in a list of (name, index) pairs with distinct names.
pub open spec fn reg_lookup(regs: Seq<(Seq<char>, usize)>, name: Seq<char>) -> Option<usize> {
    if exists|i: int| 0 <= i < regs.len() && regs[i].0 == name {
        Some(regs[choose|i: int| 0 <= i < regs.len() && regs[i].0 == name].1)
    } else {
        None
    }
}

/// The HQIR writer emits quantum IR text.
pub struct HqirWriter {
    /// Output buffer.
    output: String,
    /// Named registers, each name at most once.
    registers: Vec<(String, usize)>,
    /// Next register index.
    next_reg: usize,
    /// Indentation level.
    indent: u32,
}

impl HqirWriter {
    /// The text written so far.
    pub closed spec fn text(&self) -> Seq<char> {
        self.output@
    }

    /// The current indentation level.
    pub closed spec fn level(&self) -> nat {
        self.indent as nat
    }

    /// The named registers.
    pub closed spec fn regs(&self) -> Seq<(Seq<char>, usize)> {
        self.registers@.map_values(|p: (String, usize)| (p.0@, p.1))
    }

    /// The index the next register gets.
    pub closed spec fn next_index(&self) -> nat {
        self.next_reg as nat
    }

    /// No register name occurs twice.
    pub closed spec fn wf(&self) -> bool {
        forall|i: int, j: int|
            0 <= i < j < self.registers@.len() ==> #[trigger] self.registers@[i].0@
                != #[trigger] self.registers@[j].0@
    }

    pub fn new() -> (r: Self)
        ensures
            r.wf(),
            r.text() == Seq::<char>::empty(),
            r.level() == 0,
            r.regs() == Seq::<(Seq<char>, usize)>::empty(),
            r.next_index() == 0,
    {
        let r = HqirWriter { output: String::new(), registers: Vec::new(), next_reg: 0, indent: 0 };
        assert(r.regs() =~= Seq::<(Seq<char>, usize)>::empty());
        r
    }

    /// Get the generated IR text.
    pub fn into_string(self) -> (r: String)
        ensures
            r@ == self.text(),
    {
        self.output
    }

    /// Write a line with indentation.
    fn writeln(&mut self, s: &str)
        ensures
            final(self).text() == old(self).text() + line_at(old(self).level(), s@),
            final(self).level() == old(self).level(),
            final(self).regs() == old(self).regs(),
            final(self).next_index() == old(self).next_index(),
            final(self).wf() == old(self).wf(),
    {
        let mut k: u32 = 0;
        while k < self.indent
            invariant
                k <= self.indent,
                self.indent == old(self).indent,
                self.registers == old(self).registers,
                self.next_reg == old(self).next_reg,
                self.output@ == old(self).output@ + spaces(k as nat),
            decreases self.indent - k,
        {
            self.output.append("  ");
            k += 1;
            proof {
                reveal_strlit("  ");
            }
        }
        self.output.append(s);
        push_char(&mut self.output, '\n');
        proof {
            assert(self.output@ =~= old(self).output@ + line_at(old(self).level(), s@));
        }
    }

    /// Compile a list of expressions to HQIR: the module frame of the output.
    pub fn compile(&mut self, _program: &[Expression])
        requires
            old(self).level() < u32::MAX,
        ensures
            final(self).text() == old(self).text() + line_at(
                old(self).level(),
                "// HQIR output from Silq compiler (Rust)"@,
            ) + line_at(old(self).level(), ""@) + line_at(old(self).level(), "module silq_output {"@)
                + line_at(
                old(self).level() + 1,
                "// (HQIR backend is a stub - implement full compilation)"@,
            ) + line_at(old(self).level() + 1, ""@) + line_at(old(self).level(), "}"@),
            final(self).level() == old(self).level(),
            final(self).regs() == old(self).regs(),
            final(self).next_index() == old(self).next_index(),
            final(self).wf() == old(self).wf(),
    {
        self.writeln("// HQIR output from Silq compiler (Rust)");
        self.writeln("");
        self.writeln("module silq_output {");
        self.indent += 1;
        self.writeln("// (HQIR backend is a stub - implement full compilation)");
        self.writeln("");
        self.indent -= 1;
        self.writeln("}");
    }

    /// Compile a single function to HQIR: a comment block naming the
    /// function (by its id) and its number of parameters.
    pub fn compile_function(&mut self, func: &Declaration)
        ensures
            match *func {
                Declaration::FunctionDef { name, params, .. } => final(self).text() == old(
                    self,
                ).text() + line_at(
                    old(self).level(),
                    "// function: Id("@ + decimal_text(name.0 as nat) + ")"@,
                ) + line_at(old(self).level(), "// params: "@ + decimal_text(params@.len()))
                    + line_at(old(self).level(), "// TODO: emit HQIR operations"@),
                _ => final(self).text() == old(self).text(),
            },
            final(self).level() == old(self).level(),
            final(self).regs() == old(self).regs(),
            final(self).next_index() == old(self).next_index(),
            final(self).wf() == old(self).wf(),
    {
        match func {
            Declaration::FunctionDef { name, params, .. } => {
                let mut l1 = String::new();
                l1.append("// function: Id(");
                push_decimal(&mut l1, name.0 as u64);
                l1.append(")");
                self.writeln(l1.as_str());
                let mut l2 = String::new();
                l2.append("// params: ");
                push_decimal(&mut l2, params.len() as u64);
                self.writeln(l2.as_str());
                self.writeln("// TODO: emit HQIR operations");
            },
            _ => {},
        }
    }

    /// Allocate a new quantum register: `name` is bound to the next index,
    /// and the register is spelled `%name.index`.
    #[allow(dead_code)]
    fn alloc_qreg(&mut self, name: &str) -> (r: String)
        requires
            old(self).wf(),
            old(self).next_index() < usize::MAX,
        ensures
            final(self).wf(),
            r@ == "%"@ + name@ + "."@ + decimal_text(old(self).next_index()),
            final(self).next_index() == old(self).next_index() + 1,
            reg_lookup(final(self).regs(), name@) == Some(old(self).next_index() as usize),
            forall|other: Seq<char>|
                other != name@ ==> reg_lookup(final(self).regs(), other) == reg_lookup(
                    old(self).regs(),
                    other,
                ),
            final(self).text() == old(self).text(),
            final(self).level() == old(self).level(),
    {
        let idx = self.next_reg;
        self.next_reg += 1;
        // Bind the name, replacing an earlier binding of it
        let mut i: usize = 0;
        let mut found = false;
        while i < self.registers.len() && !found
            invariant
                i <= self.registers@.len(),
                self.registers == old(self).registers,
                self.next_reg == idx + 1,
                self.output == old(self).output,
                self.indent == old(self).indent,
                !found ==> forall|j: int| 0 <= j < i ==> self.registers@[j].0@ != name@,
                found ==> i < self.registers@.len() && self.registers@[i as int].0@ == name@,
            decreases self.registers@.len() - i + if found { 0int } else { 1int },
        {
            if str_eq(self.registers[i].0.as_str(), name) {
                found = true;
            } else {
                i += 1;
            }
        }
        let ghost before = self.regs();
        let ghost mut w: int = 0;
        if found {
            let entry = (name.to_owned(), idx);
            self.registers.set(i, entry);
            proof {
                assert(self.regs() =~= before.update(i as int, (name@, idx)));
                assert(before[i as int].0 == name@);
                w = i as int;
            }
        } else {
            self.registers.push((name.to_owned(), idx));
            proof {
                assert(self.regs() =~= before.push((name@, idx)));
                w = before.len() as int;
            }
        }
        proof {
            let after = self.regs();
            assert(after[w].0 == name@);
            let k = choose|j: int| 0 <= j < after.len() && after[j].0 == name@;
            assert(self.registers@[k].0@ == name@);
            assert(after[k].1 == idx);
            assert forall|other: Seq<char>| other != name@ implies reg_lookup(after, other)
                == reg_lookup(before, other) by {
                if exists|j: int| 0 <= j < before.len() && before[j].0 == other {
                    let j = choose|j: int| 0 <= j < before.len() && before[j].0 == other;
                    assert(after[j].0 == other);
                }
                if exists|j: int| 0 <= j < after.len() && after[j].0 == other {
                    let j = choose|j: int| 0 <= j < after.len() && after[j].0 == other;
                    assert(before[j].0 == other);
                    let j1 = choose|j: int| 0 <= j < before.len() && before[j].0 == other;
                    let j2 = choose|j: int| 0 <= j < after.len() && after[j].0 == other;
                    assert(self.registers@[j1].0@ == other);
                    assert(self.registers@[j2].0@ == other);
                }
            }
        }
        let mut r = String::new();
        push_char(&mut r, '%');
        r.append(name);
        push_char(&mut r, '.');
        push_decimal(&mut r, idx as u64);
        proof {
            reveal_strlit("%");
            reveal_strlit(".");
            assert(r@ =~= "%"@ + name@ + "."@ + decimal_text(idx as nat));
        }
        r
    }

    /// Allocate a new classical register: spelled `$name.0`.
    #[allow(dead_code)]
    fn alloc_creg(&mut self, name: &str) -> (r: String)
        ensures
            r@ == "$"@ + name@ + ".0"@,
    {
        let mut r = String::new();
        push_char(&mut r, '$');
        r.append(name);
        r.append(".0");
        proof {
            reveal_strlit("$");
            reveal_strlit(".0");
            assert(r@ =~= "$"@ + name@ + ".0"@);
        }
        r
    }
}

} // verus!
