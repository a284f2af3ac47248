//! Computational basis states of the quantum simulator.
//!
//! A basis state holds one classical bit per qubit, qubit 0 first.  Reading
//! past the end gives 0; writing past the end extends the state with zeros.

use vstd::prelude::*;
use vstd::arithmetic::power2::{
    pow2, lemma_pow2_pos, lemma_pow2_strictly_increases, lemma_pow2_unfold, lemma2_to64, lemma2_to64_rest,
};
use vstd::arithmetic::div_mod::lemma_mod_breakdown;
use vstd::bits::{lemma_u64_shl_is_mul, lemma_u64_shr_is_div};
use vstd::utf8::{encode_utf8, encode_scalar};
use vstd::string::{StrSliceExecFns, StringSliceAdditionalSpecFns};
use crate::text::push_char;

verus! {

/// The bit of qubit `k` (0 past the end).
pub open spec fn bit_at(b: Seq<u8>, k: int) -> u8 {
    if 0 <= k < b.len() {
        b[k]
    } else {
        0
    }
}

/// The number whose binary digits, least significant first, are the bits of
/// the `n` qubits starting at `start`.
pub open spec fn range_value(b: Seq<u8>, start: int, n: nat) -> nat
    decreases n,
{
    if n == 0 {
        0
    } else {
        range_value(b, start, (n - 1) as nat) + (bit_at(b, start + n - 1) as nat) * pow2((n - 1) as nat)
    }
}

/// The bits `b` extended with zeros to length `len` (unchanged when already that long).
pub open spec fn extend_to(b: Seq<u8>, len: nat) -> Seq<u8> {
    if len <= b.len() {
        b
    } else {
        b + Seq::new((len - b.len()) as nat, |k: int| 0u8)
    }
}

/// The qubits of a bit string: its characters read right to left, `1` for
/// a `1` and 0 otherwise, padded with zeros to the string's length in bytes.
pub open spec fn bits_of_string(s: Seq<char>) -> Seq<u8> {
    Seq::new(
        encode_utf8(s).len(),
        |k: int|
            if k < s.len() && s[s.len() - 1 - k] == '1' {
                1u8
            } else {
                0u8
            },
    )
}

/// The bits with qubit `i` flipped; a qubit past the end reads 0, so the
/// bits are first extended with zeros up to it.
pub open spec fn flip(b: Seq<u8>, i: nat) -> Seq<u8> {
    extend_to(b, i + 1).update(i as int, (1 - bit_at(b, i as int)) as u8)
}

/// The bits after a CNOT gate: the target flipped when the control reads 1.
pub open spec fn cnot_bits(b: Seq<u8>, control: int, target: nat) -> Seq<u8> {
    if bit_at(b, control) == 1 {
        flip(b, target)
    } else {
        b
    }
}

/// The display of bits: most significant (last) qubit first, as `0`/`1` characters.
pub open spec fn bits_text(b: Seq<u8>) -> Seq<char>
    decreases b.len(),
{
    if b.len() == 0 {
        Seq::empty()
    } else {
        seq![if b.last() == 1 { '1' } else { '0' }] + bits_text(b.drop_last())
    }
}

/// Represents a computational basis state for a set of qubits.
/// Each qubit's value (0 or 1) is stored in a bit vector.
#[derive(Debug, Clone, PartialEq, Eq, PartialOrd, Ord, Hash)]
pub struct BasisState {
    /// Bit vector: least significant bit = qubit 0.
    bits: Vec<u8>,
    /// Number of qubits.
    n: usize,
}

impl BasisState {
    /// The qubits' bits, qubit 0 first.
    pub closed spec fn bits(&self) -> Seq<u8> {
        self.bits@
    }

    /// The number of qubits.
    pub closed spec fn width(&self) -> nat {
        self.n as nat
    }

    /// Well-formedness: one bit per qubit, each 0 or 1.
    pub closed spec fn wf(&self) -> bool {
        &&& self.n == self.bits@.len()
        &&& forall|k: int| 0 <= k < self.bits@.len() ==> #[trigger] self.bits@[k] <= 1
    }

    pub fn new(n: usize) -> (r: Self)
        ensures
            r.wf(),
            r.bits() == Seq::new(n as nat, |k: int| 0u8),
            r.width() == n,
    {
        let mut bits: Vec<u8> = Vec::new();
        let mut i: usize = 0;
        while i < n
            invariant
                i <= n,
                bits@ == Seq::new(i as nat, |k: int| 0u8),
            decreases n - i,
        {
            bits.push(0);
            i += 1;
            assert(bits@ =~= Seq::new(i as nat, |k: int| 0u8));
        }
        BasisState { bits, n }
    }

    pub fn from_bitstring(s: &str) -> (r: Self)
        ensures
            r.wf(),
            r.bits() == bits_of_string(s@),
            r.width() == s.spec_bytes().len(),
    {
        let n = s.as_bytes().len();
        let mut st = BasisState::new(n);
        let m = s.unicode_len();
        proof {
            lemma_encode_len(s@);
        }
        let mut i: usize = 0;
        while i < m
            invariant
                m == s@.len(),
                n == s.spec_bytes().len(),
                m <= n,
                i <= m,
                st.wf(),
                st.width() == n,
                st.bits().len() == n,
                forall|k: int|
                    0 <= k < n ==> #[trigger] st.bits()[k] == if k < i && s@[m - 1 - k] == '1' {
                        1u8
                    } else {
                        0u8
                    },
            decreases m - i,
        {
            let ch = s.get_char(m - 1 - i);
            let bit: u8 = if ch == '1' {
                1
            } else {
                0
            };
            st.bits.set(i, bit);
            i += 1;
        }
        proof {
            assert(st.bits() =~= bits_of_string(s@));
        }
        st
    }

    /// Get the value of qubit i.
    pub fn get(&self, i: usize) -> (r: u8)
        ensures
            r == bit_at(self.bits(), i as int),
            self.wf() ==> r <= 1,
    {
        if i < self.bits.len() {
            self.bits[i]
        } else {
            0
        }
    }

    /// Set the value of qubit i (to the low bit of `val`), extending the
    /// state with zeros when i is past the end.
    pub fn set(&mut self, i: usize, val: u8)
        requires
            old(self).wf(),
            i < usize::MAX,
        ensures
            final(self).wf(),
            final(self).bits() == extend_to(old(self).bits(), (i + 1) as nat).update(i as int, val & 1),
            final(self).width() == final(self).bits().len(),
    {
        if i >= self.bits.len() {
            let ghost before = self.bits@;
            while self.bits.len() < i + 1
                invariant
                    i < usize::MAX,
                    before.len() <= self.bits@.len() <= i + 1,
                    self.bits@ == before + Seq::new((self.bits@.len() - before.len()) as nat, |k: int| 0u8),
                decreases i + 1 - self.bits@.len(),
            {
                self.bits.push(0);
                assert(self.bits@ =~= before + Seq::new((self.bits@.len() - before.len()) as nat, |k: int| 0u8));
            }
            self.n = self.bits.len();
        }
        let v = val & 1;
        assert(v <= 1) by (bit_vector)
            requires
                v == val & 1,
        ;
        self.bits.set(i, v);
        proof {
            assert(self.bits@ =~= extend_to(old(self).bits(), (i + 1) as nat).update(i as int, val & 1));
        }
    }

    /// Get the integer value of qubits [start..start+n].
    pub fn get_range(&self, start: usize, n: usize) -> (r: u64)
        requires
            self.wf(),
            n <= 64,
            start + n <= usize::MAX,
        ensures
            r == range_value(self.bits(), start as int, n as nat),
    {
        let mut val = 0u64;
        let mut i: usize = 0;
        proof {
            lemma2_to64();
        }
        while i < n
            invariant
                self.wf(),
                i <= n <= 64,
                start + n <= usize::MAX,
                val == range_value(self.bits(), start as int, i as nat),
                val < pow2(i as nat),
            decreases n - i,
        {
            let b = self.get(start + i) as u64;
            let sh = i as u64;
            proof {
                lemma2_to64();
                lemma_pow2_pos(sh as nat);
                if sh < 63 {
                    lemma_pow2_strictly_increases(sh as nat, 63);
                }
                lemma2_to64_rest();
                assert(pow2(sh as nat) <= pow2(63));
                assert(pow2(63) == 0x8000_0000_0000_0000);
                assert(1u64 * pow2(sh as nat) <= u64::MAX);
                lemma_u64_shl_is_mul(1u64, sh);
                if b == 0 {
                    assert(b * pow2(sh as nat) == 0);
                } else {
                    assert(b * pow2(sh as nat) == pow2(sh as nat));
                }
                lemma_u64_shl_is_mul(b, sh);
                lemma_or_shift(val, b, sh);
                lemma_pow2_unfold((i + 1) as nat);
            }
            val = val | (b << sh);
            i += 1;
        }
        val
    }

    /// Set the integer value of qubits [start..start+n]: qubit start+i gets
    /// bit i of `val`.
    pub fn set_range(&mut self, start: usize, n: usize, val: u64)
        requires
            old(self).wf(),
            n <= 64,
            start + n < usize::MAX,
        ensures
            final(self).wf(),
            final(self).bits().len() == if n == 0 {
                old(self).bits().len()
            } else {
                extend_to(old(self).bits(), (start + n) as nat).len()
            },
            forall|k: int|
                start <= k < start + n ==> #[trigger] bit_at(final(self).bits(), k) == ((val >> (k - start) as u64) & 1) as u8,
            forall|k: int|
                !(start <= k < start + n) ==> #[trigger] bit_at(final(self).bits(), k) == bit_at(old(self).bits(), k),
    {
        let mut i: usize = 0;
        while i < n
            invariant
                self.wf(),
                i <= n <= 64,
                start + n < usize::MAX,
                self.bits().len() == if i == 0 {
                    old(self).bits().len()
                } else {
                    extend_to(old(self).bits(), (start + i) as nat).len()
                },
                forall|k: int|
                    start <= k < start + i ==> #[trigger] bit_at(self.bits(), k) == ((val >> (k - start) as u64) & 1) as u8,
                forall|k: int|
                    !(start <= k < start + i) ==> #[trigger] bit_at(self.bits(), k) == bit_at(old(self).bits(), k),
            decreases n - i,
        {
            let bit = ((val >> (i as u64)) & 1) as u8;
            let ghost before = self.bits();
            self.set(start + i, bit);
            proof {
                assert(bit & 1 == bit) by (bit_vector)
                    requires
                        bit == ((val >> (i as u64)) & 1) as u8,
                ;
                assert forall|k: int| start <= k < start + i + 1 implies #[trigger] bit_at(self.bits(), k)
                    == ((val >> (k - start) as u64) & 1) as u8 by {
                    if k < start + i {
                        assert(bit_at(before, k) == ((val >> (k - start) as u64) & 1) as u8);
                    }
                }
                assert forall|k: int| !(start <= k < start + i + 1) implies #[trigger] bit_at(self.bits(), k)
                    == bit_at(old(self).bits(), k) by {
                    assert(bit_at(before, k) == bit_at(old(self).bits(), k));
                }
            }
            i += 1;
        }
    }

    /// A copy of this state.
    fn copy(&self) -> (r: BasisState)
        ensures
            r.bits() == self.bits(),
            r.width() == self.width(),
            r.wf() == self.wf(),
    {
        let mut bits: Vec<u8> = Vec::new();
        let mut k: usize = 0;
        while k < self.bits.len()
            invariant
                k <= self.bits@.len(),
                bits@ == self.bits@.subrange(0, k as int),
            decreases self.bits@.len() - k,
        {
            bits.push(self.bits[k]);
            k += 1;
            assert(bits@ =~= self.bits@.subrange(0, k as int));
        }
        assert(bits@ =~= self.bits@);
        BasisState { bits, n: self.n }
    }

    /// Toggle qubit i: a copy with that qubit flipped (a qubit past the end
    /// reads 0, so the copy is extended with zeros up to it and it becomes 1).
    pub fn toggle(&self, i: usize) -> (r: BasisState)
        requires
            self.wf(),
            i < usize::MAX,
        ensures
            r.wf(),
            r.bits() == flip(self.bits(), i as nat),
            r.width() == r.bits().len(),
    {
        let mut new = self.copy();
        let cur = self.get(i);
        let flipped = 1 - cur;
        new.set(i, flipped);
        assert(flipped & 1 == flipped) by (bit_vector)
            requires
                flipped <= 1,
        ;
        new
    }

    /// The image of this state under a CNOT gate: the target qubit is
    /// flipped when the control qubit reads 1, and the state is unchanged
    /// otherwise.
    pub fn cnot_image(&self, control: usize, target: usize) -> (r: BasisState)
        requires
            self.wf(),
            target < usize::MAX,
        ensures
            r.wf(),
            r.width() == r.bits().len(),
            r.bits() == cnot_bits(self.bits(), control as int, target as nat),
    {
        if self.get(control) == 1 {
            self.toggle(target)
        } else {
            self.copy()
        }
    }

    /// The state as a ket: `|` then the bits, last qubit first, then `⟩`.
    pub fn display(&self) -> (r: String)
        requires
            self.wf(),
        ensures
            r@ == seq!['|'] + bits_text(self.bits()) + seq!['⟩'],
    {
        let mut out = String::new();
        push_char(&mut out, '|');
        let mut k: usize = self.bits.len();
        while k > 0
            invariant
                k <= self.bits@.len(),
                out@ == seq!['|'] + bits_text(self.bits@.subrange(k as int, self.bits@.len() as int)),
            decreases k,
        {
            k -= 1;
            let c = if self.bits[k] == 1 {
                '1'
            } else {
                '0'
            };
            let ghost before = out@;
            push_char(&mut out, c);
            proof {
                let t = self.bits@.subrange(k + 1, self.bits@.len() as int);
                assert(self.bits@.subrange(k as int, self.bits@.len() as int) =~= seq![self.bits@[k as int]] + t);
                lemma_bits_text_front(self.bits@[k as int], t);
                assert(out@ =~= seq!['|'] + bits_text(self.bits@.subrange(k as int, self.bits@.len() as int)));
            }
        }
        push_char(&mut out, '⟩');
        proof {
            assert(self.bits@.subrange(0, self.bits@.len() as int) =~= self.bits@);
        }
        out
    }
}

/// Reading a qubit after setting it gives the bit set, and every other
/// qubit reads as before.
pub proof fn lemma_get_after_set(before: Seq<u8>, after: Seq<u8>, i: nat, val: u8)
    requires
        after == extend_to(before, i + 1).update(i as int, val & 1),
    ensures
        bit_at(after, i as int) == val & 1,
        forall|j: int| j != i ==> #[trigger] bit_at(after, j) == bit_at(before, j),
{
    assert forall|j: int| j != i implies #[trigger] bit_at(after, j) == bit_at(before, j) by {
        if 0 <= j < after.len() && j >= before.len() {
            assert(extend_to(before, i + 1)[j] == 0);
        }
    }
}

/// Toggling the same qubit twice gives back the qubit values it started
/// from (the bits may have been extended with zeros).
pub proof fn lemma_toggle_twice(b: Seq<u8>, i: nat)
    requires
        forall|k: int| 0 <= k < b.len() ==> #[trigger] b[k] <= 1,
    ensures
        forall|j: int| #[trigger] bit_at(flip(flip(b, i), i), j) == bit_at(b, j),
{
    assert forall|j: int| #[trigger] bit_at(flip(flip(b, i), i), j) == bit_at(b, j) by {
        if 0 <= j < extend_to(b, i + 1).len() && j >= b.len() {
            assert(extend_to(b, i + 1)[j] == 0);
        }
        if 0 <= j < extend_to(flip(b, i), i + 1).len() && j >= flip(b, i).len() {
            assert(extend_to(flip(b, i), i + 1)[j] == 0);
        }
    }
}

/// Toggling a qubit flips it and leaves every other qubit as it was.
pub proof fn lemma_toggle_reads(b: Seq<u8>, i: nat)
    requires
        forall|k: int| 0 <= k < b.len() ==> #[trigger] b[k] <= 1,
    ensures
        bit_at(flip(b, i), i as int) == 1 - bit_at(b, i as int),
        forall|j: int| j != i ==> #[trigger] bit_at(flip(b, i), j) == bit_at(b, j),
{
    assert forall|j: int| j != i implies #[trigger] bit_at(flip(b, i), j) == bit_at(b, j) by {
        if 0 <= j < extend_to(b, i + 1).len() && j >= b.len() {
            assert(extend_to(b, i + 1)[j] == 0);
        }
    }
}

/// A CNOT gate undoes itself: applying it twice with the same control and
/// a different target gives back the qubit values it started from.
pub proof fn lemma_cnot_twice(b: Seq<u8>, control: int, target: nat)
    requires
        forall|k: int| 0 <= k < b.len() ==> #[trigger] b[k] <= 1,
        control != target,
    ensures
        forall|j: int| #[trigger] bit_at(cnot_bits(cnot_bits(b, control, target), control, target), j)
            == bit_at(b, j),
{
    let once = cnot_bits(b, control, target);
    if bit_at(b, control) == 1 {
        lemma_toggle_reads(b, target);
        assert(bit_at(once, control) == 1);
        assert forall|k: int| 0 <= k < once.len() implies #[trigger] once[k] <= 1 by {
            if k >= b.len() && k != target {
                assert(extend_to(b, target + 1)[k] == 0);
            }
        }
        lemma_toggle_twice(b, target);
    }
}

/// Reading back a range of qubits written with `val` gives the low bits of `val`.
pub proof fn lemma_range_roundtrip(b: Seq<u8>, start: int, n: nat, val: u64)
    requires
        n <= 64,
        forall|k: int|
            start <= k < start + n ==> #[trigger] bit_at(b, k) == ((val >> (k - start) as u64) & 1) as u8,
    ensures
        range_value(b, start, n) == (val as nat) % pow2(n),
    decreases n,
{
    if n == 0 {
        lemma2_to64();
    } else {
        let m = (n - 1) as nat;
        lemma_range_roundtrip(b, start, m, val);
        let k = start + m;
        assert(bit_at(b, k) == ((val >> (m as u64)) & 1) as u8);
        lemma_u64_shr_is_div(val, m as u64);
        let q = val >> (m as u64);
        assert(q & 1 == q % 2) by (bit_vector);
        lemma_pow2_pos(m);
        lemma_pow2_unfold(n);
        lemma_mod_breakdown(val as int, pow2(m) as int, 2);
        assert(pow2(m) * 2 == pow2(n));
        let qn = (val as nat) / pow2(m);
        assert(q == qn);
        assert(bit_at(b, k) as nat == qn % 2);
        assert(range_value(b, start, n) == range_value(b, start, m) + (bit_at(b, k) as nat) * pow2(m));
        assert((val as nat) % pow2(n) == pow2(m) * (qn % 2) + (val as nat) % pow2(m));
        assert((bit_at(b, k) as nat) * pow2(m) == pow2(m) * (qn % 2)) by (nonlinear_arith)
            requires
                bit_at(b, k) as nat == qn % 2,
        ;
    }
}

/// Or-ing a bit into a position above all bits of `val` adds it.
proof fn lemma_or_shift(val: u64, b: u64, i: u64)
    requires
        i < 64,
        b <= 1,
        val < (1u64 << i),
    ensures
        val | (b << i) == val + (b << i),
{
    assert(val | (b << i) == val + (b << i)) by (bit_vector)
        requires
            i < 64,
            b <= 1,
            val < (1u64 << i),
    ;
}

/// A string has at least as many bytes as characters.
proof fn lemma_encode_len(s: Seq<char>)
    ensures
        encode_utf8(s).len() >= s.len(),
    decreases s.len(),
{
    if s.len() > 0 {
        lemma_encode_len(s.drop_first());
        assert(encode_scalar(s[0] as u32).len() >= 1);
    }
}

/// A string of `0`s and `1`s has one byte per character.
proof fn lemma_bit_chars_encode_len(s: Seq<char>)
    requires
        forall|i: int| 0 <= i < s.len() ==> s[i] == '0' || s[i] == '1',
    ensures
        encode_utf8(s).len() == s.len(),
    decreases s.len(),
{
    if s.len() > 0 {
        lemma_bit_chars_encode_len(s.drop_first());
        assert(encode_scalar(s[0] as u32).len() == 1);
    }
}

/// Reading a string of `0`s and `1`s as qubits and displaying them gives
/// the string back (the last character is qubit 0 and is displayed last).
pub proof fn lemma_bitstring_round_trip(s: Seq<char>)
    requires
        forall|i: int| 0 <= i < s.len() ==> s[i] == '0' || s[i] == '1',
    ensures
        bits_text(bits_of_string(s)) == s,
    decreases s.len(),
{
    lemma_bit_chars_encode_len(s);
    let b = bits_of_string(s);
    if s.len() == 0 {
        assert(bits_text(b) =~= s);
    } else {
        let t = s.drop_first();
        lemma_bit_chars_encode_len(t);
        lemma_bitstring_round_trip(t);
        assert(b.drop_last() =~= bits_of_string(t));
        assert(b.last() == (if s[0] == '1' { 1u8 } else { 0u8 }));
        assert(bits_text(b) =~= seq![s[0]] + bits_text(bits_of_string(t)));
        assert(s =~= seq![s[0]] + t);
    }
}

/// Displaying a bit in front of others appends its character.
proof fn lemma_bits_text_front(x: u8, t: Seq<u8>)
    ensures
        bits_text(seq![x] + t) == bits_text(t) + seq![if x == 1 { '1' } else { '0' }],
    decreases t.len(),
{
    let s = seq![x] + t;
    if t.len() == 0 {
        assert(s.drop_last() =~= Seq::<u8>::empty());
        assert(s.last() == x);
        assert(bits_text(Seq::<u8>::empty()) =~= Seq::<char>::empty());
        assert(bits_text(s) =~= seq![if x == 1 { '1' } else { '0' }] + bits_text(Seq::<u8>::empty()));
    } else {
        assert(s.drop_last() =~= seq![x] + t.drop_last());
        lemma_bits_text_front(x, t.drop_last());
        assert(bits_text(s) =~= bits_text(t) + seq![if x == 1 { '1' } else { '0' }]);
    }
}

} // verus!
