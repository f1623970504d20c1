//! Classical simulation of a quantum register.
use vstd::arithmetic::div_mod::{lemma_mod_breakdown, lemma_small_mod};
use vstd::arithmetic::power2::{lemma_pow2_pos, lemma_pow2_unfold, pow2};
use vstd::bits::{lemma_u64_shl_is_mul, lemma_u64_shr_is_div};
use vstd::prelude::*;
use vstd::string::StringExecFns;

verus! {

/// A quantum register abstraction for classical simulation.
///
/// Each register holds a fixed number of bits and tracks whether it
/// represents ancilla qubits that will need uncomputation.
#[derive(Clone, Debug)]
pub struct QuantumRegister {
    /// Current classical state of each qubit.
    pub bits: Vec<bool>,
    /// Human-readable label for this register.
    pub label: String,
    /// Whether this register holds ancilla qubits.
    pub is_ancilla: bool,
    /// Global qubit index offset (position within the full circuit).
    pub offset: usize,
}

/// Bit `i` of `v` (little-endian).
pub open spec fn bit_of(v: nat, i: nat) -> bool {
    (v / pow2(i)) % 2 == 1
}

/// The unsigned integer whose little-endian bits are `s`.
pub open spec fn bits_value(s: Seq<bool>) -> nat
    decreases s.len(),
{
    if s.len() == 0 {
        0
    } else {
        bits_value(s.drop_last()) + if s.last() {
            pow2((s.len() - 1) as nat)
        } else {
            0
        }
    }
}

/// The number of bits that a 64-bit load or read touches.
pub open spec fn word_width(len: nat) -> nat {
    if len < 64 {
        len
    } else {
        64
    }
}

/// A register of `n` zero bits.
fn zero_bits(n: usize) -> (v: Vec<bool>)
    ensures
        v@ == Seq::new(n as nat, |i: int| false),
{
    let mut v: Vec<bool> = Vec::new();
    let mut i: usize = 0;
    while i < n
        invariant
            i <= n,
            v@ == Seq::new(i as nat, |j: int| false),
        decreases n - i,
    {
        v.push(false);
        i = i + 1;
        assert(v@ =~= Seq::new(i as nat, |j: int| false));
    }
    v
}

/// Bit `i` of a 64-bit word, computed with shifts.
pub fn word_bit(value: u64, i: usize) -> (b: bool)
    requires
        i < 64,
    ensures
        b == bit_of(value as nat, i as nat),
{
    let s = value >> i;
    proof {
        lemma_u64_shr_is_div(value, i as u64);
        assert(s & 1 == s % 2) by (bit_vector);
    }
    (s & 1) == 1
}

impl QuantumRegister {
    /// Create a new register initialized to all zeros.
    pub fn new(label: &str, num_bits: usize) -> (r: Self)
        ensures
            r.bits@ == Seq::new(num_bits as nat, |i: int| false),
            r.label@ == label@,
            !r.is_ancilla,
            r.offset == 0,
    {
        QuantumRegister {
            bits: zero_bits(num_bits),
            label: String::from_str(label),
            is_ancilla: false,
            offset: 0,
        }
    }

    /// Create a new ancilla register initialized to all zeros.
    pub fn new_ancilla(label: &str, num_bits: usize) -> (r: Self)
        ensures
            r.bits@ == Seq::new(num_bits as nat, |i: int| false),
            r.label@ == label@,
            r.is_ancilla,
            r.offset == 0,
    {
        QuantumRegister {
            bits: zero_bits(num_bits),
            label: String::from_str(label),
            is_ancilla: true,
            offset: 0,
        }
    }

    /// Load a u64 value into this register (little-endian bit order); bits
    /// beyond the 64th keep their state.
    pub fn load_u64(&mut self, value: u64)
        ensures
            final(self).bits@.len() == old(self).bits@.len(),
            forall|i: int|
                0 <= i < old(self).bits@.len() ==> #[trigger] final(self).bits@[i] == if i < 64 {
                    bit_of(value as nat, i as nat)
                } else {
                    old(self).bits@[i]
                },
            final(self).label == old(self).label,
            final(self).is_ancilla == old(self).is_ancilla,
            final(self).offset == old(self).offset,
    {
        let len = self.bits.len();
        let top = if len < 64 {
            len
        } else {
            64
        };
        let mut i: usize = 0;
        while i < top
            invariant
                i <= top,
                top <= 64,
                top <= len,
                len == old(self).bits@.len(),
                self.bits@.len() == len,
                forall|j: int|
                    0 <= j < len ==> #[trigger] self.bits@[j] == if j < i {
                        bit_of(value as nat, j as nat)
                    } else {
                        old(self).bits@[j]
                    },
                self.label == old(self).label,
                self.is_ancilla == old(self).is_ancilla,
                self.offset == old(self).offset,
            decreases top - i,
        {
            let b = word_bit(value, i);
            self.bits.set(i, b);
            i = i + 1;
        }
    }

    /// Read the register contents as a u64 (little-endian bit order); bits
    /// beyond the 64th are ignored.
    pub fn read_u64(&self) -> (r: u64)
        ensures
            r == bits_value(self.bits@.take(word_width(self.bits@.len()) as int)),
    {
        let len = self.bits.len();
        let mut value: u64 = 0;
        let mut i: usize = 0;
        proof {
            lemma_pow2_pos(0);
            assert(self.bits@.take(0) =~= Seq::<bool>::empty());
        }
        while i < len
            invariant
                i <= len,
                len == self.bits@.len(),
                value == bits_value(self.bits@.take(word_width(i as nat) as int)),
                value < pow2(word_width(i as nat)),
            decreases len - i,
        {
            proof {
                lemma_pow2_pos(word_width(i as nat));
            }
            if self.bits[i] && i < 64 {
                let bit = 1u64 << i;
                proof {
                    lemma_u64_pow2_fits(i as nat);
                    lemma_u64_shl_is_mul(1u64, i as u64);
                    let v = value;
                    let ii = i as u64;
                    assert(v | (1u64 << ii) == v + (1u64 << ii)) by (bit_vector)
                        requires
                            v < (1u64 << ii),
                            ii < 64,
                    ;
                }
                value = value | bit;
            }
            proof {
                let s = self.bits@;
                let w = word_width(i as nat);
                if i < 64 {
                    assert(s.take(i + 1).drop_last() =~= s.take(i as int));
                    assert(s.take(i + 1).last() == s[i as int]);
                    lemma_pow2_unfold((i + 1) as nat);
                } else {
                    assert(word_width((i + 1) as nat) == w);
                }
            }
            i = i + 1;
        }
        value
    }

    /// Number of qubits in this register.
    pub fn len(&self) -> (r: usize)
        ensures
            r == self.bits@.len(),
    {
        self.bits.len()
    }

    /// Check if register is empty.
    pub fn is_empty(&self) -> (r: bool)
        ensures
            r == (self.bits@.len() == 0),
    {
        self.bits.len() == 0
    }

    /// Check that all qubits are in the |0⟩ state (for ancilla verification).
    pub fn is_clean(&self) -> (r: bool)
        ensures
            r == (forall|i: int| 0 <= i < self.bits@.len() ==> !#[trigger] self.bits@[i]),
    {
        let mut i: usize = 0;
        while i < self.bits.len()
            invariant
                i <= self.bits@.len(),
                forall|j: int| 0 <= j < i ==> !#[trigger] self.bits@[j],
            decreases self.bits@.len() - i,
        {
            if self.bits[i] {
                return false;
            }
            i = i + 1;
        }
        true
    }

    /// The global qubit indices of the sub-range `start .. start + len`.
    pub fn qubit_indices(&self, start: usize, len: usize) -> (r: Vec<usize>)
        requires
            start + len <= usize::MAX,
            self.offset + start + len <= usize::MAX,
        ensures
            r@ == Seq::new(len as nat, |k: int| (self.offset + start + k) as usize),
    {
        let mut r: Vec<usize> = Vec::new();
        let mut k: usize = 0;
        while k < len
            invariant
                k <= len,
                self.offset + start + len <= usize::MAX,
                r@ == Seq::new(k as nat, |j: int| (self.offset + start + j) as usize),
            decreases len - k,
        {
            r.push(self.offset + (start + k));
            k = k + 1;
            assert(r@ =~= Seq::new(k as nat, |j: int| (self.offset + start + j) as usize));
        }
        r
    }
}

/// 2^i fits in a 64-bit word for i < 64.
proof fn lemma_u64_pow2_fits(i: nat)
    requires
        i < 64,
    ensures
        pow2(i) <= u64::MAX,
{
    vstd::bits::lemma_u64_pow2_no_overflow(i);
}

/// The first k bits of v, read back, give v modulo 2^k.
pub proof fn lemma_bits_value_of_word(s: Seq<bool>, v: nat, k: nat)
    requires
        k <= s.len(),
        forall|i: int| 0 <= i < k ==> #[trigger] s[i] == bit_of(v, i as nat),
    ensures
        bits_value(s.take(k as int)) == v % pow2(k),
    decreases k,
{
    lemma_pow2_pos(k);
    if k == 0 {
        assert(s.take(0) =~= Seq::<bool>::empty());
        vstd::arithmetic::power2::lemma2_to64();
        assert(v % 1 == 0);
    } else {
        let k1 = (k - 1) as nat;
        lemma_bits_value_of_word(s, v, k1);
        assert(s.take(k as int).drop_last() =~= s.take(k1 as int));
        assert(s.take(k as int).last() == s[k1 as int]);
        lemma_pow2_pos(k1);
        lemma_pow2_unfold(k);
        lemma_mod_breakdown(v as int, pow2(k1) as int, 2);
        assert(s[k1 as int] == bit_of(v, k1));
        let y = pow2(k1) as int;
        let q = (v as int / y) % 2;
        assert(q == 0 || q == 1);
        assert(y * q == if q == 1 { y } else { 0 }) by (nonlinear_arith)
            requires
                q == 0 || q == 1,
        ;
        assert(bits_value(s.take(k as int)) == v % pow2(k1) + if q == 1 { y } else { 0 });
    }
}

/// Loading a word into a register of at least 64 bits and reading it back
/// gives the word.
pub proof fn lemma_load_read_roundtrip(s: Seq<bool>, v: u64)
    requires
        s.len() >= 64,
        forall|i: int| 0 <= i < 64 ==> #[trigger] s[i] == bit_of(v as nat, i as nat),
    ensures
        bits_value(s.take(word_width(s.len()) as int)) == v,
{
    lemma_bits_value_of_word(s, v as nat, 64);
    vstd::arithmetic::power2::lemma2_to64_rest();
    lemma_small_mod(v as nat, pow2(64));
}

} // verus!
