use everscale_types::cell::Cell;
use vstd::arithmetic::power2::{lemma2_to64, lemma_pow2_adds, pow2};
use vstd::prelude::*;

use crate::cell::{bit_len_of, cell_bit_len, cell_data, cell_references, clone_cell, data_of, refs_of};

verus! {

/// Bit `i` of `data`, most significant bit of each byte first.
pub open spec fn bit_at(data: Seq<u8>, i: int) -> bool {
    (data[i / 8] >> ((7 - i % 8) as u8)) & 1u8 == 1u8
}

/// Unsigned value of a bit string, most significant bit first.
pub open spec fn bits_value(s: Seq<bool>) -> nat
    decreases s.len(),
{
    if s.len() == 0 {
        0
    } else {
        2 * bits_value(s.drop_last()) + if s.last() { 1nat } else { 0nat }
    }
}

/// The remaining code of a continuation: a window of a cell's data bits and
/// of its references.
pub struct CodeSlice {
    data: Vec<u8>,
    bits_start: usize,
    bits_end: usize,
    refs: Vec<Cell>,
    refs_start: usize,
}

impl CodeSlice {
    #[verifier::type_invariant]
    spec fn wf(&self) -> bool {
        &&& self.bits_start <= self.bits_end <= 8 * self.data@.len()
        &&& self.refs_start <= self.refs@.len()
    }

    /// The remaining references.
    pub closed spec fn refs_view(&self) -> Seq<Cell> {
        self.refs@.subrange(self.refs_start as int, self.refs@.len() as int)
    }

    /// The remaining data bits.
    pub closed spec fn bits(&self) -> Seq<bool> {
        Seq::new(
            (self.bits_end - self.bits_start) as nat,
            |i: int| bit_at(self.data@, self.bits_start + i),
        )
    }

    /// Number of remaining references.
    pub open spec fn refs_len(&self) -> nat {
        self.refs_view().len()
    }

    /// Code without bits or references.
    pub fn empty() -> (r: CodeSlice)
        ensures
            r.bits().len() == 0,
            r.refs_len() == 0,
    {
        CodeSlice { data: Vec::new(), bits_start: 0, bits_end: 0, refs: Vec::new(), refs_start: 0 }
    }

    /// The first `bits` bits of `data`, without references.
    pub fn from_bits(data: Vec<u8>, bits: usize) -> (r: CodeSlice)
        requires
            bits <= 8 * data@.len(),
        ensures
            r.bits() == Seq::new(bits as nat, |i: int| bit_at(data@, i)),
            r.refs_len() == 0,
    {
        CodeSlice { data, bits_start: 0, bits_end: bits, refs: Vec::new(), refs_start: 0 }
    }

    /// All data bits and references of a cell. A cell whose bit length
    /// exceeds its data bytes yields no bits.
    pub fn from_cell(cell: &Cell) -> (r: CodeSlice)
        ensures
            bit_len_of(*cell) <= 8 * data_of(*cell).len() ==> r.bits() == Seq::new(
                bit_len_of(*cell) as nat,
                |i: int| bit_at(data_of(*cell), i),
            ),
            bit_len_of(*cell) > 8 * data_of(*cell).len() ==> r.bits().len() == 0,
            r.refs_view() == refs_of(*cell),
    {
        let data = cell_data(cell);
        let bit_len = cell_bit_len(cell);
        let refs = cell_references(cell);
        let cap = data.len();
        let bits_end: usize = if cap >= 8192 || (bit_len as usize) <= 8 * cap {
            bit_len as usize
        } else {
            0
        };
        let r = CodeSlice { data, bits_start: 0, bits_end, refs, refs_start: 0 };
        assert(r.refs_view() =~= refs_of(*cell));
        assert(bits_end > 0 ==> r.bits() =~= Seq::new(bit_len_of(*cell) as nat, |i: int| bit_at(data_of(*cell), i)));
        r
    }

    /// Number of remaining data bits.
    pub fn size_bits(&self) -> (r: usize)
        ensures
            r == self.bits().len(),
    {
        proof { use_type_invariant(self); }
        self.bits_end - self.bits_start
    }

    /// Number of remaining references.
    pub fn size_refs(&self) -> (r: usize)
        ensures
            r == self.refs_len(),
    {
        proof { use_type_invariant(self); }
        self.refs.len() - self.refs_start
    }

    /// Whether `bits` data bits and `refs` references remain.
    pub fn has_remaining(&self, bits: usize, refs: usize) -> (r: bool)
        ensures
            r == (bits <= self.bits().len() && refs <= self.refs_len()),
    {
        proof { use_type_invariant(self); }
        bits <= self.bits_end - self.bits_start && refs <= self.refs.len() - self.refs_start
    }

    /// Skips `bits` data bits and `refs` references.
    pub fn skip_first(&mut self, bits: usize, refs: usize)
        requires
            bits <= old(self).bits().len(),
            refs <= old(self).refs_len(),
        ensures
            final(self).bits() == old(self).bits().subrange(bits as int, old(self).bits().len() as int),
            final(self).refs_len() == old(self).refs_len() - refs,
            final(self).refs_view() == old(self).refs_view().subrange(refs as int, old(self).refs_len() as int),
    {
        proof { use_type_invariant(&*self); }
        let remaining = self.refs.len() - self.refs_start;
        self.bits_start = self.bits_start + bits;
        self.refs_start = self.refs.len() - (remaining - refs);
        assert(self.bits() =~= old(self).bits().subrange(bits as int, old(self).bits().len() as int));
        assert(self.refs_view() =~= old(self).refs_view().subrange(refs as int, old(self).refs_len() as int));
    }

    /// The remaining bit at `offset`.
    pub fn get_bit(&self, offset: usize) -> (r: bool)
        requires
            offset < self.bits().len(),
        ensures
            r == self.bits()[offset as int],
    {
        proof { use_type_invariant(self); }
        let i = self.bits_start + offset;
        (self.data[i / 8] >> ((7 - i % 8) as u8)) & 1u8 == 1u8
    }

    /// The unsigned value of `n` remaining bits starting at `offset`.
    pub fn get_uint(&self, offset: usize, n: usize) -> (r: u64)
        requires
            n <= 32,
            offset + n <= self.bits().len(),
        ensures
            r == bits_value(self.bits().subrange(offset as int, offset + n)),
            r < pow2(n as nat),
    {
        let mut r: u64 = 0;
        let mut k: usize = 0;
        proof { lemma2_to64(); }
        while k < n
            invariant
                    n <= 32,
                offset + n <= self.bits().len(),
                k <= n,
                r == bits_value(self.bits().subrange(offset as int, offset + k)),
                r < pow2(k as nat),
            decreases n - k,
        {
            proof { use_type_invariant(self); }
            let b = self.get_bit(offset + k);
            proof {
                let s = self.bits().subrange(offset as int, offset + k + 1);
                assert(s.drop_last() =~= self.bits().subrange(offset as int, offset + k));
                assert(s.last() == b);
                lemma2_to64();
                lemma_pow2_adds(k as nat, 1);
                if k < 31 {
                    vstd::arithmetic::power2::lemma_pow2_strictly_increases(k as nat, 31);
                }
            }
            r = 2 * r + if b { 1u64 } else { 0u64 };
            k += 1;
        }
        r
    }

    /// The reference at `index` among the remaining ones.
    pub fn reference(&self, index: usize) -> (r: &Cell)
        requires
            index < self.refs_len(),
        ensures
            *r == self.refs_view()[index as int],
    {
        proof { use_type_invariant(self); }
        let total = self.refs.len();
        assert(self.refs_start + index < total);
        &self.refs[self.refs_start + index]
    }
}

impl CodeSlice {
    /// A copy of this code, sharing its references.
    pub fn duplicate(&self) -> (r: CodeSlice)
        ensures
            r.bits() == self.bits(),
            r.refs_view() == self.refs_view(),
    {
        proof { use_type_invariant(self); }
        let data = self.data.clone();
        let mut refs: Vec<Cell> = Vec::new();
        let mut i: usize = 0;
        while i < self.refs.len()
            invariant
                i <= self.refs@.len(),
                refs@ == self.refs@.subrange(0, i as int),
            decreases self.refs@.len() - i,
        {
            refs.push(clone_cell(&self.refs[i]));
            i += 1;
            assert(refs@ =~= self.refs@.subrange(0, i as int));
        }
        assert(refs@ =~= self.refs@);
        let r = CodeSlice {
            data,
            bits_start: self.bits_start,
            bits_end: self.bits_end,
            refs,
            refs_start: self.refs_start,
        };
        assert(r.bits() =~= self.bits());
        assert(r.refs_view() =~= self.refs_view());
        r
    }
}

/// Reading `a` bits and then `c` more is reading `a + c` bits.
pub proof fn lemma_bits_value_split(s: Seq<bool>, a: int, c: int)
    requires
        0 <= a,
        0 <= c,
        a + c <= s.len(),
    ensures
        bits_value(s.subrange(0, a + c)) == bits_value(s.subrange(0, a)) * pow2(c as nat) + bits_value(
            s.subrange(a, a + c),
        ),
    decreases c,
{
    if c == 0 {
        lemma2_to64();
        assert(s.subrange(0, a + c) =~= s.subrange(0, a));
        assert(s.subrange(a, a + c) =~= Seq::<bool>::empty());
        assert(pow2(0) == 1);
        assert(bits_value(Seq::<bool>::empty()) == 0);
        assert(pow2(c as nat) == 1);
        let x = bits_value(s.subrange(0, a));
        assert(x * pow2(c as nat) == x);
    } else {
        lemma_bits_value_split(s, a, c - 1);
        let t = s.subrange(0, a + c);
        let u = s.subrange(a, a + c);
        assert(t.drop_last() =~= s.subrange(0, a + c - 1));
        assert(u.drop_last() =~= s.subrange(a, a + c - 1));
        assert(t.last() == u.last());
        vstd::arithmetic::power2::lemma_pow2_unfold(c as nat);
        let p = pow2((c - 1) as nat);
        let x = bits_value(s.subrange(0, a));
        let y = bits_value(s.subrange(a, a + c - 1));
        let b: nat = if t.last() { 1 } else { 0 };
        assert(bits_value(t) == 2 * bits_value(s.subrange(0, a + c - 1)) + b);
        assert(bits_value(u) == 2 * y + b);
        assert(pow2(c as nat) == 2 * p);
        assert(2 * (x * p + y) == x * (2 * p) + 2 * y) by (nonlinear_arith);
        assert(bits_value(t) == x * pow2(c as nat) + bits_value(u));
    }
}

/// The eight bits of byte `j` of `d`, read most significant first, give
/// the byte's value.
pub proof fn lemma_byte_bits(d: Seq<u8>, j: int)
    requires
        0 <= j < d.len(),
    ensures
        bits_value(Seq::new(8, |i: int| bit_at(d, 8 * j + i))) == d[j],
{
    let s = Seq::new(8, |i: int| bit_at(d, 8 * j + i));
    let b = d[j];
    vstd::arithmetic::div_mod::lemma_fundamental_div_mod_converse(8 * j + 0, 8, j, 0);
    vstd::arithmetic::div_mod::lemma_fundamental_div_mod_converse(8 * j + 1, 8, j, 1);
    vstd::arithmetic::div_mod::lemma_fundamental_div_mod_converse(8 * j + 2, 8, j, 2);
    vstd::arithmetic::div_mod::lemma_fundamental_div_mod_converse(8 * j + 3, 8, j, 3);
    vstd::arithmetic::div_mod::lemma_fundamental_div_mod_converse(8 * j + 4, 8, j, 4);
    vstd::arithmetic::div_mod::lemma_fundamental_div_mod_converse(8 * j + 5, 8, j, 5);
    vstd::arithmetic::div_mod::lemma_fundamental_div_mod_converse(8 * j + 6, 8, j, 6);
    vstd::arithmetic::div_mod::lemma_fundamental_div_mod_converse(8 * j + 7, 8, j, 7);
    assert(s[0] == ((b >> 7u8) & 1u8 == 1u8));
    assert(s[1] == ((b >> 6u8) & 1u8 == 1u8));
    assert(s[2] == ((b >> 5u8) & 1u8 == 1u8));
    assert(s[3] == ((b >> 4u8) & 1u8 == 1u8));
    assert(s[4] == ((b >> 3u8) & 1u8 == 1u8));
    assert(s[5] == ((b >> 2u8) & 1u8 == 1u8));
    assert(s[6] == ((b >> 1u8) & 1u8 == 1u8));
    assert(s[7] == ((b >> 0u8) & 1u8 == 1u8));
    let v0: nat = if s[0] { 1 } else { 0 };
    let v1: nat = if s[1] { 1 } else { 0 };
    let v2: nat = if s[2] { 1 } else { 0 };
    let v3: nat = if s[3] { 1 } else { 0 };
    let v4: nat = if s[4] { 1 } else { 0 };
    let v5: nat = if s[5] { 1 } else { 0 };
    let v6: nat = if s[6] { 1 } else { 0 };
    let v7: nat = if s[7] { 1 } else { 0 };
    assert(v0 == ((b >> 7u8) & 1u8)) by {
        assert((b >> 7u8) & 1u8 <= 1u8) by (bit_vector);
    }
    assert(v1 == ((b >> 6u8) & 1u8)) by {
        assert((b >> 6u8) & 1u8 <= 1u8) by (bit_vector);
    }
    assert(v2 == ((b >> 5u8) & 1u8)) by {
        assert((b >> 5u8) & 1u8 <= 1u8) by (bit_vector);
    }
    assert(v3 == ((b >> 4u8) & 1u8)) by {
        assert((b >> 4u8) & 1u8 <= 1u8) by (bit_vector);
    }
    assert(v4 == ((b >> 3u8) & 1u8)) by {
        assert((b >> 3u8) & 1u8 <= 1u8) by (bit_vector);
    }
    assert(v5 == ((b >> 2u8) & 1u8)) by {
        assert((b >> 2u8) & 1u8 <= 1u8) by (bit_vector);
    }
    assert(v6 == ((b >> 1u8) & 1u8)) by {
        assert((b >> 1u8) & 1u8 <= 1u8) by (bit_vector);
    }
    assert(v7 == ((b >> 0u8) & 1u8)) by {
        assert((b >> 0u8) & 1u8 <= 1u8) by (bit_vector);
    }
    assert(b == ((b >> 7u8) & 1u8) * 128 + ((b >> 6u8) & 1u8) * 64 + ((b >> 5u8) & 1u8) * 32 + ((b
        >> 4u8) & 1u8) * 16 + ((b >> 3u8) & 1u8) * 8 + ((b >> 2u8) & 1u8) * 4 + ((b >> 1u8) & 1u8)
        * 2 + ((b >> 0u8) & 1u8)) by (bit_vector);
    assert(s.subrange(0, 0) =~= Seq::<bool>::empty());
    assert(s.subrange(0, 1).drop_last() =~= s.subrange(0, 0));
    assert(s.subrange(0, 2).drop_last() =~= s.subrange(0, 1));
    assert(s.subrange(0, 3).drop_last() =~= s.subrange(0, 2));
    assert(s.subrange(0, 4).drop_last() =~= s.subrange(0, 3));
    assert(s.subrange(0, 5).drop_last() =~= s.subrange(0, 4));
    assert(s.subrange(0, 6).drop_last() =~= s.subrange(0, 5));
    assert(s.subrange(0, 7).drop_last() =~= s.subrange(0, 6));
    assert(s.drop_last() =~= s.subrange(0, 7));
    assert(bits_value(s.subrange(0, 0)) == 0);
    assert(s.subrange(0, 1).last() == s[0]);
    assert(s.subrange(0, 2).last() == s[1]);
    assert(s.subrange(0, 3).last() == s[2]);
    assert(s.subrange(0, 4).last() == s[3]);
    assert(s.subrange(0, 5).last() == s[4]);
    assert(s.subrange(0, 6).last() == s[5]);
    assert(s.subrange(0, 7).last() == s[6]);
    assert(s.last() == s[7]);
    assert(bits_value(s.subrange(0, 1)) == v0);
    assert(bits_value(s.subrange(0, 2)) == 2 * v0 + v1);
    assert(bits_value(s.subrange(0, 3)) == 4 * v0 + 2 * v1 + v2);
    assert(bits_value(s.subrange(0, 4)) == 8 * v0 + 4 * v1 + 2 * v2 + v3);
    assert(bits_value(s.subrange(0, 5)) == 16 * v0 + 8 * v1 + 4 * v2 + 2 * v3 + v4);
    assert(bits_value(s.subrange(0, 6)) == 32 * v0 + 16 * v1 + 8 * v2 + 4 * v3 + 2 * v4 + v5);
    assert(bits_value(s.subrange(0, 7)) == 64 * v0 + 32 * v1 + 16 * v2 + 8 * v3 + 4 * v4 + 2 * v5 + v6);
    assert(bits_value(s) == 128 * v0 + 64 * v1 + 32 * v2 + 16 * v3 + 8 * v4 + 4 * v5 + 2 * v6 + v7);
}

/// Unsigned big-endian value of bytes.
pub open spec fn bytes_value(d: Seq<u8>) -> nat
    decreases d.len(),
{
    if d.len() == 0 {
        0
    } else {
        bytes_value(d.drop_last()) * 256 + d.last() as nat
    }
}

/// The first `8 k` bits of `d` give the value of its first `k` bytes.
pub proof fn lemma_bytes_bits(d: Seq<u8>, k: int)
    requires
        0 <= k <= d.len(),
    ensures
        bits_value(Seq::new((8 * k) as nat, |i: int| bit_at(d, i))) == bytes_value(d.subrange(0, k)),
    decreases k,
{
    let s = Seq::new((8 * k) as nat, |i: int| bit_at(d, i));
    if k == 0 {
        assert(s =~= Seq::<bool>::empty());
        assert(d.subrange(0, 0) =~= Seq::<u8>::empty());
    } else {
        lemma_bytes_bits(d, k - 1);
        lemma_bits_value_split(s, 8 * (k - 1), 8);
        assert(s.subrange(0, 8 * k) =~= s);
        assert(s.subrange(0, 8 * (k - 1)) =~= Seq::new((8 * (k - 1)) as nat, |i: int| bit_at(d, i)));
        assert(s.subrange(8 * (k - 1), 8 * k) =~= Seq::new(8, |i: int| bit_at(d, 8 * (k - 1) + i)));
        lemma_byte_bits(d, k - 1);
        lemma2_to64();
        assert(d.subrange(0, k).drop_last() =~= d.subrange(0, k - 1));
        assert(d.subrange(0, k).last() == d[k - 1]);
    }
}

} // verus!
