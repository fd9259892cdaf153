use vstd::arithmetic::mul::lemma_mul_inequality;
use vstd::arithmetic::power2::{lemma2_to64, lemma_pow2_adds, pow2};
use vstd::bits::{lemma_u32_shl_is_mul, lemma_u32_shr_is_div};
use vstd::prelude::*;

use crate::arithops::{arg_outcome, long_int_bits, simple_outcome, Arithops};
use crate::code::{bits_value, CodeSlice};
use crate::error::VmError;
use crate::instr::{ArgInstr, ExtInstr, SimpleInstr};
use crate::state::VmState;

verus! {

/// Number of bits of an opcode word.
pub const MAX_OPCODE_BITS: u16 = 24;

/// Size of the opcode space.
pub const MAX_OPCODE: u32 = 0x1000000;

/// Gas charged for every instruction.
pub const GAS_PER_INSTRUCTION: u64 = 10;

/// Gas charged for every opcode bit.
pub const GAS_PER_BIT: u64 = 1;

/// How an opcode range is executed.
#[allow(inconsistent_fields)]
#[derive(Debug, Clone, Copy, PartialEq, Eq, Structural)]
pub enum OpcodeKind {
    /// Gap filler: charges the base gas and fails with `InvalidOpcode`.
    Dummy,
    /// A fixed prefix of `opcode_bits` bits.
    Simple { opcode_bits: u16, handler: SimpleInstr },
    /// A prefix followed by argument bits, `total_bits` in all.
    Fixed { total_bits: u16, handler: ArgInstr },
    /// Like `Fixed`, but the handler advances the cursor itself.
    Ext { total_bits: u16, handler: ExtInstr },
}

/// An opcode handler and the half-open range `[opcode_min, opcode_max)` of
/// 24-bit opcode words that it serves.
#[derive(Debug, Clone, Copy, PartialEq, Eq, Structural)]
pub struct Opcode {
    pub opcode_min: u32,
    pub opcode_max: u32,
    pub kind: OpcodeKind,
}

/// Why an opcode could not be registered.
#[derive(Debug, Clone, Copy, PartialEq, Eq, Structural)]
pub enum DispatchError {
    /// The range reaches into the next registered range, which starts here.
    OverlapsNextMin(u32),
    /// The previous registered range reaches into this one; it ends here.
    OverlapsPrevMax(u32),
}

impl Opcode {
    pub open spec fn valid(self) -> bool {
        &&& self.opcode_min < self.opcode_max <= MAX_OPCODE
        &&& opcode_bits(self) <= MAX_OPCODE_BITS
    }

    pub open spec fn contains(self, opcode: u32) -> bool {
        self.opcode_min <= opcode < self.opcode_max
    }

    /// The opcode range served by this handler.
    pub fn range(&self) -> (r: (u32, u32))
        ensures
            r == (self.opcode_min, self.opcode_max),
    {
        (self.opcode_min, self.opcode_max)
    }
}

/// Number of opcode bits the handler consumes before it runs.
pub open spec fn opcode_bits(op: Opcode) -> nat {
    match op.kind {
        OpcodeKind::Dummy => 0,
        OpcodeKind::Simple { opcode_bits, .. } => opcode_bits as nat,
        OpcodeKind::Fixed { total_bits, .. } => total_bits as nat,
        OpcodeKind::Ext { total_bits, .. } => total_bits as nat,
    }
}

/// Gas charged before the handler runs: the base price and one unit per
/// opcode bit.
pub open spec fn gas_charge(op: Opcode) -> nat {
    (GAS_PER_INSTRUCTION + opcode_bits(op) * GAS_PER_BIT) as nat
}

/// Two half-open ranges share at least one opcode.
pub open spec fn intersects(a: Opcode, b: Opcode) -> bool {
    a.opcode_min < b.opcode_max && b.opcode_min < a.opcode_max
}

/// Some registered range shares an opcode with `op`.
pub open spec fn conflicts(entries: Seq<Opcode>, op: Opcode) -> bool {
    exists|i: int| 0 <= i < entries.len() && intersects(#[trigger] entries[i], op)
}

/// Valid ranges in ascending order, pairwise disjoint.
pub open spec fn sorted_disjoint(entries: Seq<Opcode>) -> bool {
    &&& forall|i: int| 0 <= i < entries.len() ==> (#[trigger] entries[i]).valid()
    &&& forall|i: int, j: int|
        0 <= i < j < entries.len() ==> (#[trigger] entries[i]).opcode_max
            <= (#[trigger] entries[j]).opcode_min
}

/// Valid ranges that cover the whole opcode space without gaps, in order.
pub open spec fn gap_free(entries: Seq<Opcode>) -> bool {
    &&& entries.len() > 0
    &&& entries[0].opcode_min == 0
    &&& entries.last().opcode_max == MAX_OPCODE
    &&& forall|i: int| 0 <= i < entries.len() ==> (#[trigger] entries[i]).valid()
    &&& forall|i: int|
        0 <= i < entries.len() - 1 ==> (#[trigger] entries[i]).opcode_max == entries[i
            + 1].opcode_min
}

/// The range `[opcode << (24 - bits), (opcode + 1) << (24 - bits))` of a prefix.
pub open spec fn prefix_range(opcode: u32, bits: u16) -> (u32, u32) {
    let shift = (MAX_OPCODE_BITS - bits) as nat;
    (
        (opcode as nat * pow2(shift)) as u32,
        (opcode as nat * pow2(shift) + pow2(shift)) as u32,
    )
}

/// The outcome of registering `op` over `before`, leaving `after`: it fails
/// exactly when `op` shares an opcode with a registered range, and otherwise
/// `op` joins the registered ranges.
pub open spec fn registered(
    before: Seq<Opcode>,
    after: Seq<Opcode>,
    op: Opcode,
    r: Result<(), DispatchError>,
) -> bool {
    &&& (r is Err <==> conflicts(before, op))
    &&& (r is Err ==> after == before)
    &&& (before.len() == 0 || before.last().opcode_max <= op.opcode_min) ==> r is Ok && after
        == before.push(op)
    &&& (r is Ok ==> exists|k: int| 0 <= k <= before.len() && after == before.insert(k, op))
    &&& (r matches Err(DispatchError::OverlapsNextMin(m)) ==> exists|i: int|
        0 <= i < before.len() && (#[trigger] before[i]).opcode_min == m && op.opcode_min <= m
            < op.opcode_max)
    &&& (r matches Err(DispatchError::OverlapsPrevMax(m)) ==> exists|i: int|
        0 <= i < before.len() && (#[trigger] before[i]).opcode_max == m && before[i].opcode_min
            < op.opcode_min < m)
}

/// The gap filler over `[min, max)`.
pub open spec fn dummy(min: u32, max: u32) -> Opcode {
    Opcode { opcode_min: min, opcode_max: max, kind: OpcodeKind::Dummy }
}

/// The ranges `s`, registered in ascending order above `upto`, with a
/// filler before each gap and one after the last range up to the end of
/// the opcode space.
pub open spec fn filled(s: Seq<Opcode>, upto: u32) -> Seq<Opcode>
    decreases s.len(),
{
    if s.len() == 0 {
        if upto < MAX_OPCODE {
            seq![dummy(upto, MAX_OPCODE)]
        } else {
            Seq::empty()
        }
    } else {
        let head = if s[0].opcode_min > upto {
            seq![dummy(upto, s[0].opcode_min), s[0]]
        } else {
            seq![s[0]]
        };
        head + filled(s.drop_first(), s[0].opcode_max)
    }
}

/// At most one filler joins each range, and one more closes the space.
pub proof fn lemma_filled_len(s: Seq<Opcode>, upto: u32)
    ensures
        filled(s, upto).len() <= 2 * s.len() + 1,
    decreases s.len(),
{
    if s.len() > 0 {
        lemma_filled_len(s.drop_first(), s[0].opcode_max);
    }
}

/// A builder of a [`DispatchTable`].
pub struct Opcodes {
    pub id: u16,
    pub opcodes: Vec<Opcode>,
}

/// A compiled code page: ranges covering the whole opcode space.
pub struct DispatchTable {
    pub id: u16,
    pub opcodes: Vec<Opcode>,
}

/// `x << shift`, which stays inside the opcode space.
fn shift_into_space(x: u32, shift: u16) -> (r: u32)
    requires
        shift <= MAX_OPCODE_BITS,
        x as nat * pow2(shift as nat) <= MAX_OPCODE,
    ensures
        r == x as nat * pow2(shift as nat),
{
    proof {
        lemma2_to64();
        lemma_u32_shl_is_mul(x, shift as u32);
    }
    x << (shift as u32)
}

/// The range of a prefix of `bits` bits, as `prefix_range` gives it.
fn prefix_bounds(opcode: u32, bits: u16) -> (r: (u32, u32))
    requires
        bits <= MAX_OPCODE_BITS,
        opcode < pow2(bits as nat),
    ensures
        r == prefix_range(opcode, bits),
        r.0 < r.1 <= MAX_OPCODE,
{
    let shift = MAX_OPCODE_BITS - bits;
    proof {
        lemma2_to64();
        lemma_pow2_adds(bits as nat, shift as nat);
        lemma_mul_inequality(opcode as int + 1, pow2(bits as nat) as int, pow2(shift as nat) as int);
        assert(pow2(shift as nat) > 0) by {
            vstd::arithmetic::power2::lemma_pow2_pos(shift as nat);
        }
        assert((opcode as nat + 1) * pow2(shift as nat) == opcode as nat * pow2(shift as nat) + pow2(shift as nat)) by (nonlinear_arith);
    }
    (shift_into_space(opcode, shift), shift_into_space(opcode + 1, shift))
}

impl Opcodes {
    pub open spec fn wf(&self) -> bool {
        sorted_disjoint(self.opcodes@)
    }

    /// Registers a handler, unless its range shares an opcode with one
    /// registered before.
    pub fn add_opcode(&mut self, opcode: Opcode) -> (r: Result<(), DispatchError>)
        requires
            old(self).wf(),
            opcode.valid(),
        ensures
            final(self).wf(),
            final(self).id == old(self).id,
            registered(old(self).opcodes@, final(self).opcodes@, opcode, r),
    {
        let min = opcode.opcode_min;
        let max = opcode.opcode_max;
        let n = self.opcodes.len();
        let mut p: usize = 0;
        while p < n && self.opcodes[p].opcode_min < min
            invariant
                p <= n == self.opcodes@.len(),
                forall|i: int| 0 <= i < p ==> (#[trigger] self.opcodes@[i]).opcode_min < min,
            decreases n - p,
        {
            p += 1;
        }
        if p < n && self.opcodes[p].opcode_min < max {
            let m = self.opcodes[p].opcode_min;
            assert(intersects(self.opcodes@[p as int], opcode));
            return Err(DispatchError::OverlapsNextMin(m));
        }
        if p > 0 && self.opcodes[p - 1].opcode_max > min {
            let m = self.opcodes[p - 1].opcode_max;
            assert(intersects(self.opcodes@[p - 1], opcode));
            return Err(DispatchError::OverlapsPrevMax(m));
        }
        proof {
            let s = self.opcodes@;
            assert forall|i: int| 0 <= i < s.len() implies !intersects(#[trigger] s[i], opcode) by {
                if i >= p {
                    if i > p {
                        assert(s[p as int].opcode_max <= s[i].opcode_min);
                    }
                } else if i < p - 1 {
                    assert(s[i].opcode_max <= s[p - 1].opcode_min);
                }
            }
        }
        let ghost before = self.opcodes@;
        proof {
            if n > 0 && before.last().opcode_max <= min {
                assert forall|i: int| 0 <= i < n implies (#[trigger] before[i]).opcode_min < min by {
                    if i < n - 1 {
                        assert(before[i].opcode_max <= before[n - 1].opcode_min);
                    }
                    assert(before[i].valid());
                }
                if p < n {
                    assert(before[p as int].opcode_min < min);
                }
            }
        }
        self.opcodes.insert(p, opcode);
        proof {
            let s = self.opcodes@;
            assert(s == before.insert(p as int, opcode));
            if p == n {
                assert(s =~= before.push(opcode));
            }
            assert forall|i: int, j: int| 0 <= i < j < s.len() implies (#[trigger] s[i]).opcode_max
                <= (#[trigger] s[j]).opcode_min by {
                if j < p {
                } else if j == p {
                    if i < p - 1 {
                        assert(before[i].opcode_max <= before[p - 1].opcode_min);
                    }
                } else if i < p {
                    assert(before[i].opcode_max <= before[j - 1].opcode_min);
                } else if i == p {
                    if j > p + 1 {
                        assert(before[p as int].opcode_max <= before[j - 1].opcode_min);
                    }
                } else {
                    assert(before[i - 1].opcode_max <= before[j - 1].opcode_min);
                }
            }
        }
        Ok(())
    }

    /// Registers an instruction given by a prefix of `bits` bits.
    pub fn add_simple(&mut self, opcode: u32, bits: u16, handler: SimpleInstr) -> (r: Result<
        (),
        DispatchError,
    >)
        requires
            old(self).wf(),
            bits <= MAX_OPCODE_BITS,
            opcode < pow2(bits as nat),
        ensures
            final(self).wf(),
            final(self).id == old(self).id,
            registered(
                old(self).opcodes@,
                final(self).opcodes@,
                Opcode {
                    opcode_min: prefix_range(opcode, bits).0,
                    opcode_max: prefix_range(opcode, bits).1,
                    kind: OpcodeKind::Simple { opcode_bits: bits, handler },
                },
                r,
            ),
    {
        let (min, max) = prefix_bounds(opcode, bits);
        self.add_opcode(
            Opcode {
                opcode_min: min,
                opcode_max: max,
                kind: OpcodeKind::Simple { opcode_bits: bits, handler },
            },
        )
    }

    /// Registers an instruction given by a prefix of `opcode_bits` bits and
    /// followed by `arg_bits` argument bits.
    pub fn add_fixed(
        &mut self,
        opcode: u32,
        opcode_bits: u16,
        arg_bits: u16,
        handler: ArgInstr,
    ) -> (r: Result<(), DispatchError>)
        requires
            old(self).wf(),
            opcode_bits + arg_bits <= MAX_OPCODE_BITS,
            opcode < pow2(opcode_bits as nat),
        ensures
            final(self).wf(),
            final(self).id == old(self).id,
            registered(
                old(self).opcodes@,
                final(self).opcodes@,
                Opcode {
                    opcode_min: prefix_range(opcode, opcode_bits).0,
                    opcode_max: prefix_range(opcode, opcode_bits).1,
                    kind: OpcodeKind::Fixed { total_bits: (opcode_bits + arg_bits) as u16, handler },
                },
                r,
            ),
    {
        let (min, max) = prefix_bounds(opcode, opcode_bits);
        self.add_opcode(
            Opcode {
                opcode_min: min,
                opcode_max: max,
                kind: OpcodeKind::Fixed { total_bits: opcode_bits + arg_bits, handler },
            },
        )
    }

    /// Registers an instruction over the words `[opcode_min, opcode_max)` of
    /// `total_bits` bits.
    pub fn add_fixed_range(
        &mut self,
        opcode_min: u32,
        opcode_max: u32,
        total_bits: u16,
        arg_bits: u16,
        handler: ArgInstr,
    ) -> (r: Result<(), DispatchError>)
        requires
            old(self).wf(),
            total_bits <= MAX_OPCODE_BITS,
            arg_bits <= total_bits,
            opcode_min < opcode_max <= pow2(total_bits as nat),
        ensures
            final(self).wf(),
            final(self).id == old(self).id,
            registered(
                old(self).opcodes@,
                final(self).opcodes@,
                Opcode {
                    opcode_min: aligned(opcode_min, total_bits),
                    opcode_max: aligned(opcode_max, total_bits),
                    kind: OpcodeKind::Fixed { total_bits, handler },
                },
                r,
            ),
    {
        let (min, max) = aligned_bounds(opcode_min, opcode_max, total_bits);
        self.add_opcode(
            Opcode { opcode_min: min, opcode_max: max, kind: OpcodeKind::Fixed { total_bits, handler } },
        )
    }

    /// Registers an extended instruction given by a prefix of `opcode_bits`
    /// bits and followed by `arg_bits` argument bits.
    pub fn add_ext(
        &mut self,
        opcode: u32,
        opcode_bits: u16,
        arg_bits: u16,
        handler: ExtInstr,
    ) -> (r: Result<(), DispatchError>)
        requires
            old(self).wf(),
            opcode_bits + arg_bits <= MAX_OPCODE_BITS,
            opcode < pow2(opcode_bits as nat),
        ensures
            final(self).wf(),
            final(self).id == old(self).id,
            registered(
                old(self).opcodes@,
                final(self).opcodes@,
                Opcode {
                    opcode_min: prefix_range(opcode, opcode_bits).0,
                    opcode_max: prefix_range(opcode, opcode_bits).1,
                    kind: OpcodeKind::Ext { total_bits: (opcode_bits + arg_bits) as u16, handler },
                },
                r,
            ),
    {
        let (min, max) = prefix_bounds(opcode, opcode_bits);
        self.add_opcode(
            Opcode {
                opcode_min: min,
                opcode_max: max,
                kind: OpcodeKind::Ext { total_bits: opcode_bits + arg_bits, handler },
            },
        )
    }

    /// Registers an extended instruction over the words
    /// `[opcode_min, opcode_max)` of `total_bits` bits.
    pub fn add_ext_range(
        &mut self,
        opcode_min: u32,
        opcode_max: u32,
        total_bits: u16,
        handler: ExtInstr,
    ) -> (r: Result<(), DispatchError>)
        requires
            old(self).wf(),
            total_bits <= MAX_OPCODE_BITS,
            opcode_min < opcode_max <= pow2(total_bits as nat),
        ensures
            final(self).wf(),
            final(self).id == old(self).id,
            registered(
                old(self).opcodes@,
                final(self).opcodes@,
                Opcode {
                    opcode_min: aligned(opcode_min, total_bits),
                    opcode_max: aligned(opcode_max, total_bits),
                    kind: OpcodeKind::Ext { total_bits, handler },
                },
                r,
            ),
    {
        let (min, max) = aligned_bounds(opcode_min, opcode_max, total_bits);
        self.add_opcode(
            Opcode { opcode_min: min, opcode_max: max, kind: OpcodeKind::Ext { total_bits, handler } },
        )
    }

    /// Fills the gaps between registered ranges with dummy handlers.
    pub fn build(self) -> (r: DispatchTable)
        requires
            self.wf(),
        ensures
            r.wf(),
            r.id == self.id,
            r.opcodes@ == filled(self.opcodes@, 0),
            r.opcodes@.len() <= 2 * self.opcodes@.len() + 1,
            forall|i: int|
                0 <= i < self.opcodes@.len() ==> exists|j: int|
                    0 <= j < r.opcodes@.len() && r.opcodes@[j] == #[trigger] self.opcodes@[i],
            forall|j: int|
                0 <= j < r.opcodes@.len() ==> (#[trigger] r.opcodes@[j]).kind is Dummy || exists|
                    i: int,
                | 0 <= i < self.opcodes@.len() && r.opcodes@[j] == self.opcodes@[i],
    {
        let src = &self.opcodes;
        let n = src.len();
        let mut out: Vec<Opcode> = Vec::new();
        let mut upto: u32 = 0;
        let mut i: usize = 0;
        assert(out@ + filled(src@.subrange(0, n as int), 0) =~= filled(src@, 0)) by {
            assert(src@.subrange(0, n as int) =~= src@);
        }
        while i < n
            invariant
                n == src@.len(),
                sorted_disjoint(src@),
                i <= n,
                upto <= MAX_OPCODE,
                i < n ==> upto <= src@[i as int].opcode_min,
                out@.len() == 0 ==> upto == 0,
                out@.len() > 0 ==> out@[0].opcode_min == 0 && out@.last().opcode_max == upto,
                forall|k: int| 0 <= k < out@.len() ==> (#[trigger] out@[k]).valid(),
                out@ + filled(src@.subrange(i as int, n as int), upto) == filled(src@, 0),
                forall|k: int|
                    0 <= k < out@.len() - 1 ==> (#[trigger] out@[k]).opcode_max == out@[k
                        + 1].opcode_min,
                forall|k: int|
                    0 <= k < i ==> exists|j: int|
                        0 <= j < out@.len() && out@[j] == #[trigger] src@[k],
                forall|j: int|
                    0 <= j < out@.len() ==> (#[trigger] out@[j]).kind is Dummy || exists|k: int|
                        0 <= k < n && out@[j] == src@[k],
            decreases n - i,
        {
            let op = src[i];
            let ghost prev = out@;
            proof {
                let sub = src@.subrange(i as int, n as int);
                assert(sub.drop_first() =~= src@.subrange(i + 1, n as int));
                assert(sub[0] == op);
                if op.opcode_min > upto {
                    assert(prev + filled(sub, upto) =~= prev.push(dummy(upto, op.opcode_min)).push(op)
                        + filled(src@.subrange(i + 1, n as int), op.opcode_max));
                } else {
                    assert(prev + filled(sub, upto) =~= prev.push(op) + filled(src@.subrange(i + 1, n as int), op.opcode_max));
                }
            }
            if op.opcode_min > upto {
                out.push(Opcode { opcode_min: upto, opcode_max: op.opcode_min, kind: OpcodeKind::Dummy });
            }
            out.push(op);
            assert(out@[out@.len() - 1] == src@[i as int]);
            upto = op.opcode_max;
            proof {
                assert(prev.is_prefix_of(out@));
                assert forall|k: int| 0 <= k < i + 1 implies exists|j: int|
                    0 <= j < out@.len() && out@[j] == #[trigger] src@[k] by {
                    if k < i {
                        let j = choose|j: int| 0 <= j < prev.len() && prev[j] == src@[k];
                        assert(out@[j] == prev[j]);
                    } else {
                        assert(out@[out@.len() - 1] == src@[k]);
                    }
                }
                if i + 1 < n {
                    assert(src@[i as int].opcode_max <= src@[i + 1].opcode_min);
                }
            }
            i += 1;
        }
        let ghost prev = out@;
        proof {
            assert(src@.subrange(n as int, n as int) =~= Seq::<Opcode>::empty());
            lemma_filled_len(src@, 0);
        }
        if upto < MAX_OPCODE {
            out.push(Opcode { opcode_min: upto, opcode_max: MAX_OPCODE, kind: OpcodeKind::Dummy });
        }
        assert(out@ =~= filled(src@, 0));
        proof {
            assert forall|k: int| 0 <= k < n implies exists|j: int|
                0 <= j < out@.len() && out@[j] == #[trigger] src@[k] by {
                let j = choose|j: int| 0 <= j < prev.len() && prev[j] == src@[k];
                assert(out@[j] == prev[j]);
            }
        }
        DispatchTable { id: self.id, opcodes: out }
    }
}

/// The words `[x << (24 - total_bits)]` where a range of `total_bits`-bit
/// words starts or ends.
pub open spec fn aligned(x: u32, total_bits: u16) -> u32 {
    (x as nat * pow2((MAX_OPCODE_BITS - total_bits) as nat)) as u32
}

fn aligned_bounds(min: u32, max: u32, total_bits: u16) -> (r: (u32, u32))
    requires
        total_bits <= MAX_OPCODE_BITS,
        min < max <= pow2(total_bits as nat),
    ensures
        r == (aligned(min, total_bits), aligned(max, total_bits)),
        r.0 < r.1 <= MAX_OPCODE,
{
    let shift = MAX_OPCODE_BITS - total_bits;
    proof {
        lemma2_to64();
        lemma_pow2_adds(total_bits as nat, shift as nat);
        vstd::arithmetic::power2::lemma_pow2_pos(shift as nat);
        lemma_mul_inequality(max as int, pow2(total_bits as nat) as int, pow2(shift as nat) as int);
        lemma_mul_inequality(min as int + 1, max as int, pow2(shift as nat) as int);
        assert((min as nat + 1) * pow2(shift as nat) == min as nat * pow2(shift as nat) + pow2(shift as nat)) by (nonlinear_arith);
    }
    (shift_into_space(min, shift), shift_into_space(max, shift))
}

impl DispatchTable {
    /// A builder of an empty code page with the given id.
    pub fn builder(id: u16) -> (r: Opcodes)
        ensures
            r.id == id,
            r.opcodes@ == Seq::<Opcode>::empty(),
            r.wf(),
    {
        Opcodes { id, opcodes: Vec::new() }
    }

    pub open spec fn wf(&self) -> bool {
        gap_free(self.opcodes@)
    }

    /// The code page id.
    pub fn id(&self) -> (r: u16)
        ensures
            r == self.id,
    {
        self.id
    }

    /// The handler whose range holds `opcode`, found by binary search.
    #[verifier::rlimit(40)]
    pub fn lookup(&self, opcode: u32) -> (r: Opcode)
        requires
            self.wf(),
            opcode < MAX_OPCODE,
        ensures
            r.contains(opcode),
            exists|i: int| 0 <= i < self.opcodes@.len() && self.opcodes@[i] == r,
    {
        let ops = &self.opcodes;
        let mut i: usize = 0;
        let mut j: usize = ops.len();
        proof { lemma_gap_free_ordered(ops@); }
        while j - i > 1
            invariant
                gap_free(ops@),
                forall|a: int, b: int| 0 <= a <= b < ops@.len() ==> (#[trigger] ops@[a]).opcode_min <= (#[trigger] ops@[b]).opcode_min,
                i < j <= ops@.len(),
                ops@[i as int].opcode_min <= opcode,
                j < ops@.len() ==> opcode < ops@[j as int].opcode_min,
            decreases j - i,
        {
            let k = i + (j - i) / 2;
            if ops[k].opcode_min <= opcode {
                i = k;
            } else {
                j = k;
            }
        }
        ops[i]
    }
}

proof fn lemma_gap_free_ordered(s: Seq<Opcode>)
    requires
        gap_free(s),
    ensures
        forall|a: int, b: int| 0 <= a <= b < s.len() ==> (#[trigger] s[a]).opcode_min <= (#[trigger] s[b]).opcode_min,
{
    assert forall|a: int, b: int| 0 <= a <= b < s.len() implies (#[trigger] s[a]).opcode_min <= (#[trigger] s[b]).opcode_min by {
        lemma_gap_free_step(s, a, b);
    }
}

proof fn lemma_gap_free_step(s: Seq<Opcode>, a: int, b: int)
    requires
        gap_free(s),
        0 <= a <= b < s.len(),
    ensures
        s[a].opcode_min <= s[b].opcode_min,
    decreases b - a,
{
    if a < b {
        lemma_gap_free_step(s, a + 1, b);
        assert(s[a].valid());
    }
}

/// Every opcode word falls in the range of exactly one handler of a built
/// code page.
pub proof fn lemma_dispatch_coverage(t: DispatchTable, opcode: u32)
    requires
        t.wf(),
        opcode < MAX_OPCODE,
    ensures
        exists|i: int| 0 <= i < t.opcodes@.len() && (#[trigger] t.opcodes@[i]).contains(opcode),
        forall|i: int, j: int|
            0 <= i < t.opcodes@.len() && 0 <= j < t.opcodes@.len() && (#[trigger] t.opcodes@[i]).contains(opcode)
                && (#[trigger] t.opcodes@[j]).contains(opcode) ==> i == j,
{
    let s = t.opcodes@;
    lemma_cover_prefix(s, s.len() as int, opcode);
    lemma_gap_free_ordered(s);
    assert forall|i: int, j: int|
        0 <= i < s.len() && 0 <= j < s.len() && (#[trigger] s[i]).contains(opcode)
            && (#[trigger] s[j]).contains(opcode) implies i == j by {
        if i < j {
            assert(s[i].opcode_max == s[i + 1].opcode_min);
            assert(s[i + 1].opcode_min <= s[j].opcode_min);
        } else if j < i {
            assert(s[j].opcode_max == s[j + 1].opcode_min);
            assert(s[j + 1].opcode_min <= s[i].opcode_min);
        }
    }
}

/// At most one range of a gap-free table holds `opcode`.
pub proof fn lemma_cover_unique(s: Seq<Opcode>, opcode: u32, i: int, j: int)
    requires
        gap_free(s),
        0 <= i < s.len(),
        0 <= j < s.len(),
        s[i].contains(opcode),
        s[j].contains(opcode),
    ensures
        i == j,
{
    lemma_gap_free_ordered(s);
    if i < j {
        assert(s[i].opcode_max == s[i + 1].opcode_min);
        assert(s[i + 1].opcode_min <= s[j].opcode_min);
    } else if j < i {
        assert(s[j].opcode_max == s[j + 1].opcode_min);
        assert(s[j + 1].opcode_min <= s[i].opcode_min);
    }
}

proof fn lemma_cover_prefix(s: Seq<Opcode>, n: int, opcode: u32)
    requires
        gap_free(s),
        1 <= n <= s.len(),
        opcode < s[n - 1].opcode_max,
    ensures
        exists|i: int| 0 <= i < n && (#[trigger] s[i]).contains(opcode),
    decreases n,
{
    if opcode >= s[n - 1].opcode_min {
        assert(s[n - 1].contains(opcode));
    } else {
        assert(n > 1);
        assert(s[n - 2].opcode_max == s[n - 1].opcode_min);
        lemma_cover_prefix(s, n - 1, opcode);
        let i = choose|i: int| 0 <= i < n - 1 && (#[trigger] s[i]).contains(opcode);
        assert(s[i].contains(opcode));
    }
}

/// After a range is registered, registering any range that shares an opcode
/// with it fails.
pub proof fn lemma_overlapping_add_fails(
    before: Seq<Opcode>,
    middle: Seq<Opcode>,
    after: Seq<Opcode>,
    a: Opcode,
    b: Opcode,
    ra: Result<(), DispatchError>,
    rb: Result<(), DispatchError>,
)
    requires
        registered(before, middle, a, ra),
        ra is Ok,
        intersects(a, b),
        registered(middle, after, b, rb),
    ensures
        rb is Err,
        after == middle,
{
    let k = choose|k: int| 0 <= k <= before.len() && middle == before.insert(k, a);
    assert(middle[k] == a);
    assert(intersects(middle[k], b));
}

/// Registering a range that shares no opcode with any registered range
/// succeeds.
pub proof fn lemma_disjoint_add_succeeds(
    before: Seq<Opcode>,
    after: Seq<Opcode>,
    b: Opcode,
    r: Result<(), DispatchError>,
)
    requires
        registered(before, after, b, r),
        forall|i: int| 0 <= i < before.len() ==> !intersects(#[trigger] before[i], b),
    ensures
        r is Ok,
        exists|k: int| 0 <= k <= before.len() && after == before.insert(k, b),
{
}

/// The argument word of a handler of `n` bits given the 24-bit `opcode`.
pub open spec fn arg_word(opcode: u32, n: nat) -> u32 {
    (opcode as nat / pow2((MAX_OPCODE_BITS - n) as nat)) as u32
}

/// The outcome `r`, `after` of running the handler `op` from `before` on
/// the opcode word `opcode` with `bits` of its bits present.
pub open spec fn dispatches(
    op: Opcode,
    before: VmState,
    after: VmState,
    opcode: u32,
    bits: u16,
    r: Result<i32, VmError>,
) -> bool {
    &&& gas_charge(op) > before.gas.gas_remaining ==> r == Err::<i32, VmError>(VmError::OutOfGas)
        && after == before
    &&& gas_charge(op) <= before.gas.gas_remaining ==> after.gas.gas_remaining
        == before.gas.gas_remaining - gas_charge(op)
    &&& after.steps == before.steps
    &&& after.cp == before.cp
    &&& after.cr == before.cr
    &&& after.gas.loaded_cells == before.gas.loaded_cells
    &&& gas_charge(op) <= before.gas.gas_remaining ==> match op.kind {
        OpcodeKind::Dummy => r == Err::<i32, VmError>(VmError::InvalidOpcode),
        OpcodeKind::Simple { opcode_bits: n, handler } => {
            &&& short(before, bits, n) ==> r == Err::<i32, VmError>(VmError::InvalidOpcode)
                && after.code == before.code && after.stack == before.stack
            &&& !short(before, bits, n) ==> simple_outcome(handler, before.stack.items@, after.stack.items@, r)
                && after.code.bits() == before.code.bits().subrange(n as int, before.code.bits().len() as int)
        },
        OpcodeKind::Fixed { total_bits: n, handler } => {
            &&& short(before, bits, n) ==> r == Err::<i32, VmError>(VmError::InvalidOpcode)
                && after.code == before.code && after.stack == before.stack
            &&& !short(before, bits, n) ==> arg_outcome(
                handler,
                arg_word(opcode, n as nat),
                before.stack.items@,
                after.stack.items@,
                r,
            ) && after.code.bits() == before.code.bits().subrange(n as int, before.code.bits().len() as int)
        },
        OpcodeKind::Ext { total_bits: n, handler } => {
            &&& short(before, bits, n) ==> r == Err::<i32, VmError>(VmError::InvalidOpcode)
                && after.code == before.code && after.stack == before.stack
            &&& !short(before, bits, n) ==> match handler {
                ExtInstr::PushIntLong => {
                    let code = before.code.bits();
                    let len = long_int_bits(arg_word(opcode, n as nat));
                    &&& !(n + len <= code.len()) ==> r == Err::<i32, VmError>(VmError::InvalidOpcode)
                    &&& n + len <= code.len() ==> crate::arithops::result_pushed(
                        before.stack.items@,
                        after.stack.items@,
                        r,
                        false,
                        Some(bits_value(code.subrange(n as int, n + len)) as int),
                    )
                },
            }
        },
    }
}

/// Fewer than `n` opcode bits are present, or the code holds fewer.
pub open spec fn short(before: VmState, bits: u16, n: u16) -> bool {
    bits < n || before.code.bits().len() < n
}

/// The number of bits of the next opcode word: all remaining bits, at most
/// 24.
pub open spec fn opcode_len(code: Seq<bool>) -> nat {
    if code.len() < 24 {
        code.len()
    } else {
        24
    }
}

/// The next opcode word of `code`, left-aligned to 24 bits.
pub open spec fn opcode_word(code: Seq<bool>) -> u32 {
    (bits_value(code.subrange(0, opcode_len(code) as int)) * pow2((MAX_OPCODE_BITS - opcode_len(code)) as nat)) as u32
}

impl Opcode {
    /// Charges the gas of this handler and runs it on `st`, where `opcode`
    /// is the next opcode word and `bits` the number of its bits present.
    pub fn dispatch(&self, st: &mut VmState, opcode: u32, bits: u16) -> (r: Result<i32, VmError>)
        requires
            self.valid(),
        ensures
            dispatches(*self, *old(st), *final(st), opcode, bits, r),
    {
        match self.kind {
            OpcodeKind::Dummy => {
                st.gas.try_consume(GAS_PER_INSTRUCTION)?;
                Err(VmError::InvalidOpcode)
            },
            OpcodeKind::Simple { opcode_bits, handler } => {
                st.gas.try_consume(GAS_PER_INSTRUCTION + opcode_bits as u64 * GAS_PER_BIT)?;
                if bits < opcode_bits || st.code.size_bits() < opcode_bits as usize {
                    return Err(VmError::InvalidOpcode);
                }
                st.code.skip_first(opcode_bits as usize, 0);
                Arithops::exec_simple(st, handler)
            },
            OpcodeKind::Fixed { total_bits, handler } => {
                st.gas.try_consume(GAS_PER_INSTRUCTION + total_bits as u64 * GAS_PER_BIT)?;
                if bits < total_bits || st.code.size_bits() < total_bits as usize {
                    return Err(VmError::InvalidOpcode);
                }
                st.code.skip_first(total_bits as usize, 0);
                proof {
                    lemma_u32_shr_is_div(opcode, (MAX_OPCODE_BITS - total_bits) as u32);
                }
                Arithops::exec_arg(st, handler, opcode >> ((MAX_OPCODE_BITS - total_bits) as u32))
            },
            OpcodeKind::Ext { total_bits, handler } => {
                st.gas.try_consume(GAS_PER_INSTRUCTION + total_bits as u64 * GAS_PER_BIT)?;
                if bits < total_bits || st.code.size_bits() < total_bits as usize {
                    return Err(VmError::InvalidOpcode);
                }
                proof {
                    lemma_u32_shr_is_div(opcode, (MAX_OPCODE_BITS - total_bits) as u32);
                }
                Arithops::exec_ext(st, handler, opcode >> ((MAX_OPCODE_BITS - total_bits) as u32), total_bits)
            },
        }
    }
}

impl DispatchTable {
    /// The next opcode word of `slice`: its first 24 bits, or all of them
    /// padded with zero bits when fewer remain, and the number of bits read.
    pub fn get_opcode_from_slice(slice: &CodeSlice) -> (r: (u32, u16))
        ensures
            r.1 as nat == opcode_len(slice.bits()),
            r.0 == opcode_word(slice.bits()),
            r.0 == bits_value(slice.bits().subrange(0, r.1 as int)) * pow2((MAX_OPCODE_BITS - r.1) as nat),
            r.0 < MAX_OPCODE,
    {
        let size = slice.size_bits();
        let bits: usize = if size < 24 {
            size
        } else {
            24
        };
        let word = slice.get_uint(0, bits);
        proof {
            lemma2_to64();
            lemma_pow2_adds(bits as nat, (24 - bits) as nat);
            vstd::arithmetic::power2::lemma_pow2_pos((24 - bits) as nat);
            lemma_mul_inequality(word as int + 1, pow2(bits as nat) as int, pow2((24 - bits) as nat) as int);
            assert((word as nat + 1) * pow2((24 - bits) as nat) == word as nat * pow2((24 - bits) as nat) + pow2((24 - bits) as nat)) by (nonlinear_arith);
        }
        (shift_into_space(word as u32, (24 - bits) as u16), bits as u16)
    }

    /// Runs the next instruction of `st`'s code with this table.
    pub fn dispatch(&self, st: &mut VmState) -> (r: Result<i32, VmError>)
        requires
            self.wf(),
        ensures
            exists|i: int|
                0 <= i < self.opcodes@.len() && self.opcodes@[i].contains(opcode_word(old(st).code.bits()))
                    && #[trigger] dispatches(
                    self.opcodes@[i],
                    *old(st),
                    *final(st),
                    opcode_word(old(st).code.bits()),
                    opcode_len(old(st).code.bits()) as u16,
                    r,
                ),
            r == Err::<i32, VmError>(VmError::OutOfGas) ==> *final(st) == *old(st),
            r != Err::<i32, VmError>(VmError::OutOfGas) ==> final(st).gas.gas_remaining + GAS_PER_INSTRUCTION
                <= old(st).gas.gas_remaining,
            final(st).steps == old(st).steps,
            final(st).cp == old(st).cp,
            final(st).cr == old(st).cr,
    {
        let (opcode, bits) = Self::get_opcode_from_slice(&st.code);
        let op = self.lookup(opcode);
        let ghost i = choose|i: int| 0 <= i < self.opcodes@.len() && self.opcodes@[i] == op;
        assert(self.opcodes@[i].valid());
        let r = op.dispatch(st, opcode, bits);
        assert(dispatches(self.opcodes@[i], *old(st), *st, opcode, bits, r));
        assert(bits == opcode_len(old(st).code.bits()) as u16);
        assert(opcode == opcode_word(old(st).code.bits()));
        assert(self.opcodes@[i].contains(opcode));
        r
    }
}

} // verus!
