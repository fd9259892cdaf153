use vstd::prelude::*;

use crate::dispatch::{DispatchError, Opcode, OpcodeKind, Opcodes};
use vstd::arithmetic::power2::{lemma2_to64, pow2};
use crate::error::VmError;
use crate::instr::{ArgInstr, ExtInstr, SimpleInstr};
use crate::code::{bits_value, lemma_bits_value_split};
use crate::integer::{fits_int257, lemma_small_fits, IntValue};
use crate::stack::{pushed_int, slot_ok, stack_ok, StackValue};
use crate::state::{same_but_stack, VmState};

verus! {

/// The arithmetic instruction family.
pub struct Arithops;

/// What a slot offers to an arithmetic operand: `Some(Some(x))` for the
/// integer `x`, `Some(None)` for NaN, `None` for any other value.
pub open spec fn int_arg(v: StackValue) -> Option<Option<int>> {
    match v {
        StackValue::Int(w) => Some(Some(w.value())),
        StackValue::Nan => Some(None),
        _ => None,
    }
}

/// Pushing the result `v` over `rest`: the integer when it fits, NaN when
/// it does not and `quiet` is set, `IntegerOverflow` otherwise.
pub open spec fn result_pushed(rest: Seq<StackValue>, after: Seq<StackValue>, r: Result<i32, VmError>, quiet: bool, v: Option<int>) -> bool {
    match v {
        Some(x) => if fits_int257(x) {
            r == Ok::<i32, VmError>(0) && pushed_int(rest, after, x)
        } else if quiet {
            r == Ok::<i32, VmError>(0) && after == rest.push(StackValue::Nan)
        } else {
            r == Err::<i32, VmError>(VmError::IntegerOverflow)
        },
        None => if quiet {
            r == Ok::<i32, VmError>(0) && after == rest.push(StackValue::Nan)
        } else {
            r == Err::<i32, VmError>(VmError::IntegerOverflow)
        },
    }
}

/// A two-operand operation.
#[derive(Debug, Clone, Copy, PartialEq, Eq, Structural)]
pub enum BinOp {
    Add,
    Sub,
    Subr,
    Mul,
}

/// `x ⊕ y` for the operation `op`.
pub open spec fn bin_value(op: BinOp, x: int, y: int) -> int {
    match op {
        BinOp::Add => x + y,
        BinOp::Sub => x - y,
        BinOp::Subr => y - x,
        BinOp::Mul => x * y,
    }
}

/// The outcome of a two-operand operation: `y` is popped, then `x`, and
/// `x ⊕ y` is pushed.
pub open spec fn binary_outcome(before: Seq<StackValue>, after: Seq<StackValue>, r: Result<i32, VmError>, quiet: bool, op: BinOp) -> bool {
    let n = before.len();
    if n == 0 {
        r == Err::<i32, VmError>(VmError::StackUnderflow(1))
    } else if int_arg(before[n - 1]) is None {
        r == Err::<i32, VmError>(VmError::TypeCheckError)
    } else if n == 1 {
        r == Err::<i32, VmError>(VmError::StackUnderflow(1))
    } else if int_arg(before[n - 2]) is None {
        r == Err::<i32, VmError>(VmError::TypeCheckError)
    } else {
        let x = int_arg(before[n - 2])->Some_0;
        let y = int_arg(before[n - 1])->Some_0;
        result_pushed(
            before.subrange(0, n - 2),
            after,
            r,
            quiet,
            if x is Some && y is Some {
                Some(bin_value(op, x->Some_0, y->Some_0))
            } else {
                None
            },
        )
    }
}

/// A one-operand operation.
#[derive(Debug, Clone, Copy, PartialEq, Eq, Structural)]
pub enum UnOp {
    Negate,
    AddConst(i64),
    MulConst(i64),
}

/// The value of `op` on `x`.
pub open spec fn un_value(op: UnOp, x: int) -> int {
    match op {
        UnOp::Negate => -x,
        UnOp::AddConst(c) => x + c,
        UnOp::MulConst(c) => x * c,
    }
}

/// The outcome of a one-operand operation: `x` is popped and `op(x)` pushed.
pub open spec fn unary_outcome(before: Seq<StackValue>, after: Seq<StackValue>, r: Result<i32, VmError>, quiet: bool, op: UnOp) -> bool {
    let n = before.len();
    if n == 0 {
        r == Err::<i32, VmError>(VmError::StackUnderflow(1))
    } else if int_arg(before[n - 1]) is None {
        r == Err::<i32, VmError>(VmError::TypeCheckError)
    } else {
        let x = int_arg(before[n - 1])->Some_0;
        result_pushed(
            before.subrange(0, n - 1),
            after,
            r,
            quiet,
            if x is Some {
                Some(un_value(op, x->Some_0))
            } else {
                None
            },
        )
    }
}

/// The value of a 4-bit `PUSHINT` argument: `((args + 5) mod 16) - 5`.
pub open spec fn tiny4_value(args: u32) -> int {
    ((args + 5) % 16) as int - 5
}

/// The low byte of `args` as a signed 8-bit integer.
pub open spec fn signed8(args: u32) -> int {
    let b = args % 256;
    if b < 128 {
        b as int
    } else {
        b - 256
    }
}

/// The low 16 bits of `args` as a signed 16-bit integer.
pub open spec fn signed16(args: u32) -> int {
    let b = args % 65536;
    if b < 32768 {
        b as int
    } else {
        b - 65536
    }
}

/// The exponent of `PUSHPOW2` and its relatives: `(args & 0xff) + 1`.
pub open spec fn pow_arg(args: u32) -> nat {
    (args % 256 + 1) as nat
}

/// The outcome of a simple instruction on the stack.
pub open spec fn simple_outcome(h: SimpleInstr, before: Seq<StackValue>, after: Seq<StackValue>, r: Result<i32, VmError>) -> bool {
    match h {
        SimpleInstr::PushNan => r == Ok::<i32, VmError>(0) && after == before.push(StackValue::Nan),
        SimpleInstr::Add { quiet } => binary_outcome(before, after, r, quiet, BinOp::Add),
        SimpleInstr::Sub { quiet } => binary_outcome(before, after, r, quiet, BinOp::Sub),
        SimpleInstr::Subr { quiet } => binary_outcome(before, after, r, quiet, BinOp::Subr),
        SimpleInstr::Mul { quiet } => binary_outcome(before, after, r, quiet, BinOp::Mul),
        SimpleInstr::Negate { quiet } => unary_outcome(before, after, r, quiet, UnOp::Negate),
        SimpleInstr::Inc { quiet } => unary_outcome(before, after, r, quiet, UnOp::AddConst(1i64)),
        SimpleInstr::Dec { quiet } => unary_outcome(before, after, r, quiet, UnOp::AddConst(-1i64)),
    }
}

/// The outcome of an instruction with argument word `args` on the stack.
pub open spec fn arg_outcome(h: ArgInstr, args: u32, before: Seq<StackValue>, after: Seq<StackValue>, r: Result<i32, VmError>) -> bool {
    match h {
        ArgInstr::PushTinyInt4 => r == Ok::<i32, VmError>(0) && pushed_int(before, after, tiny4_value(args)),
        ArgInstr::PushInt8 => r == Ok::<i32, VmError>(0) && pushed_int(before, after, signed8(args)),
        ArgInstr::PushInt16 => r == Ok::<i32, VmError>(0) && pushed_int(before, after, signed16(args)),
        ArgInstr::PushPow2 => result_pushed(before, after, r, false, Some(pow2(pow_arg(args)) as int)),
        ArgInstr::PushPow2Dec => result_pushed(before, after, r, false, Some(pow2(pow_arg(args)) - 1)),
        ArgInstr::PushNegPow2 => result_pushed(before, after, r, false, Some(-(pow2(pow_arg(args)) as int))),
        ArgInstr::AddInt { quiet } => unary_outcome(before, after, r, quiet, UnOp::AddConst(signed8(args) as i64)),
        ArgInstr::MulInt { quiet } => unary_outcome(before, after, r, quiet, UnOp::MulConst(signed8(args) as i64)),
    }
}

impl Arithops {
    /// Pops `y`, then `x`, and pushes `x ⊕ y`.
    fn binary(st: &mut VmState, quiet: bool, op: BinOp) -> (r: Result<i32, VmError>)
        ensures
            binary_outcome(old(st).stack.items@, final(st).stack.items@, r, quiet, op),
            same_but_stack(*old(st), *final(st)),
    {
        let ghost before = old(st).stack.items@;
        let y = st.stack.pop_int_or_nan()?;
        let x = st.stack.pop_int_or_nan()?;
        assert(st.stack.items@ =~= before.subrange(0, before.len() - 2));
        match (x, y) {
            (Some(x), Some(y)) => {
                let v = match op {
                    BinOp::Add => (*x).add(&*y),
                    BinOp::Sub => (*x).sub(&*y),
                    BinOp::Subr => (*y).sub(&*x),
                    BinOp::Mul => (*x).mul(&*y),
                };
                st.stack.push_raw_int(v, quiet)?;
            },
            _ => {
                if quiet {
                    st.stack.push_nan();
                } else {
                    return Err(VmError::IntegerOverflow);
                }
            },
        }
        Ok(0)
    }

    /// Pops `x` and pushes `op(x)`.
    fn unary(st: &mut VmState, quiet: bool, op: UnOp) -> (r: Result<i32, VmError>)
        ensures
            unary_outcome(old(st).stack.items@, final(st).stack.items@, r, quiet, op),
            same_but_stack(*old(st), *final(st)),
    {
        let ghost before = old(st).stack.items@;
        let x = st.stack.pop_int_or_nan()?;
        assert(st.stack.items@ =~= before.subrange(0, before.len() - 1));
        match x {
            Some(x) => {
                let v = match op {
                    UnOp::Negate => (*x).neg(),
                    UnOp::AddConst(c) => (*x).add(&IntValue::from_i64(c)),
                    UnOp::MulConst(c) => (*x).mul(&IntValue::from_i64(c)),
                };
                st.stack.push_raw_int(v, quiet)?;
            },
            None => {
                if quiet {
                    st.stack.push_nan();
                } else {
                    return Err(VmError::IntegerOverflow);
                }
            },
        }
        Ok(0)
    }

    /// `ADD`, `QADD`: `x + y`.
    pub fn exec_add(st: &mut VmState, quiet: bool) -> (r: Result<i32, VmError>)
        ensures
            binary_outcome(old(st).stack.items@, final(st).stack.items@, r, quiet, BinOp::Add),
            same_but_stack(*old(st), *final(st)),
    {
        Self::binary(st, quiet, BinOp::Add)
    }

    /// `SUB`, `QSUB`: `x - y`.
    pub fn exec_sub(st: &mut VmState, quiet: bool) -> (r: Result<i32, VmError>)
        ensures
            binary_outcome(old(st).stack.items@, final(st).stack.items@, r, quiet, BinOp::Sub),
            same_but_stack(*old(st), *final(st)),
    {
        Self::binary(st, quiet, BinOp::Sub)
    }

    /// `SUBR`, `QSUBR`: `y - x`.
    pub fn exec_subr(st: &mut VmState, quiet: bool) -> (r: Result<i32, VmError>)
        ensures
            binary_outcome(old(st).stack.items@, final(st).stack.items@, r, quiet, BinOp::Subr),
            same_but_stack(*old(st), *final(st)),
    {
        Self::binary(st, quiet, BinOp::Subr)
    }

    /// `MUL`, `QMUL`: `x * y`.
    pub fn exec_mul(st: &mut VmState, quiet: bool) -> (r: Result<i32, VmError>)
        ensures
            binary_outcome(old(st).stack.items@, final(st).stack.items@, r, quiet, BinOp::Mul),
            same_but_stack(*old(st), *final(st)),
    {
        Self::binary(st, quiet, BinOp::Mul)
    }

    /// `NEGATE`, `QNEGATE`: `-x`.
    pub fn exec_negate(st: &mut VmState, quiet: bool) -> (r: Result<i32, VmError>)
        ensures
            unary_outcome(old(st).stack.items@, final(st).stack.items@, r, quiet, UnOp::Negate),
            same_but_stack(*old(st), *final(st)),
    {
        Self::unary(st, quiet, UnOp::Negate)
    }

    /// `INC`, `QINC`: `x + 1`.
    pub fn exec_inc(st: &mut VmState, quiet: bool) -> (r: Result<i32, VmError>)
        ensures
            unary_outcome(old(st).stack.items@, final(st).stack.items@, r, quiet, UnOp::AddConst(1i64)),
            same_but_stack(*old(st), *final(st)),
    {
        Self::unary(st, quiet, UnOp::AddConst(1))
    }

    /// `DEC`, `QDEC`: `x - 1`.
    pub fn exec_dec(st: &mut VmState, quiet: bool) -> (r: Result<i32, VmError>)
        ensures
            unary_outcome(old(st).stack.items@, final(st).stack.items@, r, quiet, UnOp::AddConst(-1i64)),
            same_but_stack(*old(st), *final(st)),
    {
        Self::unary(st, quiet, UnOp::AddConst(-1))
    }

    /// `ADDINT y`, `QADDINT y`: `x + y` for a signed 8-bit `y`.
    pub fn exec_addint(st: &mut VmState, y: i8, quiet: bool) -> (r: Result<i32, VmError>)
        ensures
            unary_outcome(old(st).stack.items@, final(st).stack.items@, r, quiet, UnOp::AddConst(y as i64)),
            same_but_stack(*old(st), *final(st)),
    {
        Self::unary(st, quiet, UnOp::AddConst(y as i64))
    }

    /// `MULINT y`, `QMULINT y`: `x * y` for a signed 8-bit `y`.
    pub fn exec_mulint(st: &mut VmState, y: i8, quiet: bool) -> (r: Result<i32, VmError>)
        ensures
            unary_outcome(old(st).stack.items@, final(st).stack.items@, r, quiet, UnOp::MulConst(y as i64)),
            same_but_stack(*old(st), *final(st)),
    {
        Self::unary(st, quiet, UnOp::MulConst(y as i64))
    }

    /// `PUSHINT x` for a small `x`.
    pub fn exec_push_tinyint4(st: &mut VmState, x: i32) -> (r: Result<i32, VmError>)
        ensures
            r == Ok::<i32, VmError>(0),
            pushed_int(old(st).stack.items@, final(st).stack.items@, x as int),
            same_but_stack(*old(st), *final(st)),
    {
        proof { lemma_small_fits(x as int); }
        st.stack.push_int(IntValue::from_i64(x as i64))?;
        Ok(0)
    }

    /// `PUSHPOW2 x`: `2^x`.
    pub fn exec_push_pow2(st: &mut VmState, x: u32) -> (r: Result<i32, VmError>)
        ensures
            result_pushed(old(st).stack.items@, final(st).stack.items@, r, false, Some(pow2(x as nat) as int)),
            same_but_stack(*old(st), *final(st)),
    {
        st.stack.push_int(IntValue::pow2(x))?;
        Ok(0)
    }

    /// `PUSHNAN`.
    pub fn exec_push_nan(st: &mut VmState) -> (r: Result<i32, VmError>)
        ensures
            r == Ok::<i32, VmError>(0),
            final(st).stack.items@ == old(st).stack.items@.push(StackValue::Nan),
            same_but_stack(*old(st), *final(st)),
    {
        st.stack.push_nan();
        Ok(0)
    }

    /// `PUSHPOW2DEC x`: `2^x - 1`.
    pub fn exec_push_pow2dec(st: &mut VmState, x: u32) -> (r: Result<i32, VmError>)
        ensures
            result_pushed(old(st).stack.items@, final(st).stack.items@, r, false, Some(pow2(x as nat) - 1)),
            same_but_stack(*old(st), *final(st)),
    {
        let value = IntValue::pow2(x).sub(&IntValue::from_i64(1));
        st.stack.push_int(value)?;
        Ok(0)
    }

    /// `PUSHNEGPOW2 x`: `-2^x`.
    pub fn exec_push_negpow2(st: &mut VmState, x: u32) -> (r: Result<i32, VmError>)
        ensures
            result_pushed(old(st).stack.items@, final(st).stack.items@, r, false, Some(-(pow2(x as nat) as int))),
            same_but_stack(*old(st), *final(st)),
    {
        st.stack.push_int(IntValue::pow2(x).negate())?;
        Ok(0)
    }

    /// Runs the simple instruction `h`.
    pub fn exec_simple(st: &mut VmState, h: SimpleInstr) -> (r: Result<i32, VmError>)
        ensures
            simple_outcome(h, old(st).stack.items@, final(st).stack.items@, r),
            same_but_stack(*old(st), *final(st)),
    {
        match h {
            SimpleInstr::PushNan => Self::exec_push_nan(st),
            SimpleInstr::Add { quiet } => Self::exec_add(st, quiet),
            SimpleInstr::Sub { quiet } => Self::exec_sub(st, quiet),
            SimpleInstr::Subr { quiet } => Self::exec_subr(st, quiet),
            SimpleInstr::Mul { quiet } => Self::exec_mul(st, quiet),
            SimpleInstr::Negate { quiet } => Self::exec_negate(st, quiet),
            SimpleInstr::Inc { quiet } => Self::exec_inc(st, quiet),
            SimpleInstr::Dec { quiet } => Self::exec_dec(st, quiet),
        }
    }

    /// Runs the instruction `h` with the argument word `args`.
    pub fn exec_arg(st: &mut VmState, h: ArgInstr, args: u32) -> (r: Result<i32, VmError>)
        ensures
            arg_outcome(h, args, old(st).stack.items@, final(st).stack.items@, r),
            same_but_stack(*old(st), *final(st)),
    {
        let low = args % 256;
        let byte: i64 = if low < 128 {
            low as i64
        } else {
            low as i64 - 256
        };
        match h {
            ArgInstr::PushTinyInt4 => Self::exec_push_tinyint4(st, ((args % 16 + 5) % 16) as i32 - 5),
            ArgInstr::PushInt8 => Self::exec_push_tinyint4(st, byte as i32),
            ArgInstr::PushInt16 => {
                let w = args % 65536;
                let x: i32 = if w < 32768 {
                    w as i32
                } else {
                    w as i32 - 65536
                };
                Self::exec_push_tinyint4(st, x)
            },
            ArgInstr::PushPow2 => Self::exec_push_pow2(st, low + 1),
            ArgInstr::PushPow2Dec => Self::exec_push_pow2dec(st, low + 1),
            ArgInstr::PushNegPow2 => Self::exec_push_negpow2(st, low + 1),
            ArgInstr::AddInt { quiet } => Self::exec_addint(st, byte as i8, quiet),
            ArgInstr::MulInt { quiet } => Self::exec_mulint(st, byte as i8, quiet),
        }
    }
}

/// Bits of the value of the long `PUSHINT` with argument word `args`.
pub open spec fn long_int_bits(args: u32) -> nat {
    (3 + 8 * (args % 32 + 2)) as nat
}

impl Arithops {
    /// `PUSHINT` with a long value: after the `bits` bits of the opcode come
    /// `3 + 8 (l + 2)` bits of an unsigned big-endian value, where `l` is the
    /// low five bits of `args`.
    pub fn exec_push_int(st: &mut VmState, args: u32, bits: u16) -> (r: Result<i32, VmError>)
        ensures
            ({
                let code = old(st).code.bits();
                let len = long_int_bits(args);
                &&& !(bits + len <= code.len()) ==> r == Err::<i32, VmError>(VmError::InvalidOpcode)
                    && *final(st) == *old(st)
                &&& bits + len <= code.len() ==> result_pushed(
                    old(st).stack.items@,
                    final(st).stack.items@,
                    r,
                    false,
                    Some(bits_value(code.subrange(bits as int, bits + len)) as int),
                ) && final(st).code.bits() == code.subrange(bits + len, code.len() as int)
                    && final(st).code.refs_view() == old(st).code.refs_view()
            }),
            final(st).cr == old(st).cr,
            final(st).gas == old(st).gas,
            final(st).steps == old(st).steps,
            final(st).cp == old(st).cp,
            final(st).commited_state == old(st).commited_state,
    {
        let value_len: usize = 3 + 8 * ((args % 32) as usize + 2);
        if !st.code.has_remaining(bits as usize + value_len, 0) {
            return Err(VmError::InvalidOpcode);
        }
        st.code.skip_first(bits as usize, 0);
        let ghost s = st.code.bits();
        let mut acc = IntValue::from_i64(0);
        let mut read: usize = 0;
        proof {
            assert(s.subrange(0, 0) =~= Seq::<bool>::empty());
        }
        while read < value_len
            invariant
                read <= value_len <= s.len(),
                st.code.bits() == s,
                acc.value() == bits_value(s.subrange(0, read as int)),
            decreases value_len - read,
        {
            let c: usize = if value_len - read >= 32 {
                32
            } else {
                value_len - read
            };
            let chunk = st.code.get_uint(read, c);
            proof {
                lemma_bits_value_split(s, read as int, c as int);
                vstd::arithmetic::power2::lemma2_to64();
            }
            acc = acc.mul(&IntValue::pow2(c as u32)).add(&IntValue::from_i64(chunk as i64));
            read += c;
        }
        st.code.skip_first(value_len, 0);
        proof {
            let code = old(st).code.bits();
            assert(s =~= code.subrange(bits as int, code.len() as int));
            assert(s.subrange(0, value_len as int) =~= code.subrange(bits as int, bits + value_len));
            assert(st.code.bits() =~= code.subrange(bits + value_len, code.len() as int));
            assert(st.code.refs_view() =~= old(st).code.refs_view());
            assert(value_len == long_int_bits(args));
        }
        st.stack.push_int(acc)?;
        Ok(0)
    }

    /// Runs the extended instruction `h` with the argument word `args` of
    /// `bits` bits.
    pub fn exec_ext(st: &mut VmState, h: ExtInstr, args: u32, bits: u16) -> (r: Result<i32, VmError>)
        ensures
            match h {
                ExtInstr::PushIntLong => {
                    let code = old(st).code.bits();
                    let len = long_int_bits(args);
                    &&& !(bits + len <= code.len()) ==> r == Err::<i32, VmError>(VmError::InvalidOpcode)
                        && *final(st) == *old(st)
                    &&& bits + len <= code.len() ==> result_pushed(
                        old(st).stack.items@,
                        final(st).stack.items@,
                        r,
                        false,
                        Some(bits_value(code.subrange(bits as int, bits + len)) as int),
                    ) && final(st).code.bits() == code.subrange(bits + len, code.len() as int)
                },
            },
            final(st).cr == old(st).cr,
            final(st).gas == old(st).gas,
            final(st).steps == old(st).steps,
            final(st).cp == old(st).cp,
            final(st).commited_state == old(st).commited_state,
    {
        match h {
            ExtInstr::PushIntLong => Self::exec_push_int(st, args, bits),
        }
    }
}

/// The handlers of the integer constants, in ascending order of their ranges.
pub open spec fn int_const_opcodes() -> Seq<Opcode> {
    seq![
        Opcode { opcode_min: 0x700000, opcode_max: 0x800000, kind: OpcodeKind::Fixed { total_bits: 8, handler: ArgInstr::PushTinyInt4 } },
        Opcode { opcode_min: 0x800000, opcode_max: 0x810000, kind: OpcodeKind::Fixed { total_bits: 16, handler: ArgInstr::PushInt8 } },
        Opcode { opcode_min: 0x810000, opcode_max: 0x820000, kind: OpcodeKind::Fixed { total_bits: 24, handler: ArgInstr::PushInt16 } },
        Opcode { opcode_min: 0x820000, opcode_max: 0x82f800, kind: OpcodeKind::Ext { total_bits: 13, handler: ExtInstr::PushIntLong } },
        Opcode { opcode_min: 0x830000, opcode_max: 0x83ff00, kind: OpcodeKind::Fixed { total_bits: 16, handler: ArgInstr::PushPow2 } },
        Opcode { opcode_min: 0x83ff00, opcode_max: 0x840000, kind: OpcodeKind::Simple { opcode_bits: 16, handler: SimpleInstr::PushNan } },
        Opcode { opcode_min: 0x840000, opcode_max: 0x850000, kind: OpcodeKind::Fixed { total_bits: 16, handler: ArgInstr::PushPow2Dec } },
        Opcode { opcode_min: 0x850000, opcode_max: 0x860000, kind: OpcodeKind::Fixed { total_bits: 16, handler: ArgInstr::PushNegPow2 } },
    ]
}

/// The handlers of the strict arithmetic, in ascending order of their ranges.
pub open spec fn math_opcodes() -> Seq<Opcode> {
    seq![
        Opcode { opcode_min: 0xa00000, opcode_max: 0xa10000, kind: OpcodeKind::Simple { opcode_bits: 8, handler: SimpleInstr::Add { quiet: false } } },
        Opcode { opcode_min: 0xa10000, opcode_max: 0xa20000, kind: OpcodeKind::Simple { opcode_bits: 8, handler: SimpleInstr::Sub { quiet: false } } },
        Opcode { opcode_min: 0xa20000, opcode_max: 0xa30000, kind: OpcodeKind::Simple { opcode_bits: 8, handler: SimpleInstr::Subr { quiet: false } } },
        Opcode { opcode_min: 0xa30000, opcode_max: 0xa40000, kind: OpcodeKind::Simple { opcode_bits: 8, handler: SimpleInstr::Negate { quiet: false } } },
        Opcode { opcode_min: 0xa40000, opcode_max: 0xa50000, kind: OpcodeKind::Simple { opcode_bits: 8, handler: SimpleInstr::Inc { quiet: false } } },
        Opcode { opcode_min: 0xa50000, opcode_max: 0xa60000, kind: OpcodeKind::Simple { opcode_bits: 8, handler: SimpleInstr::Dec { quiet: false } } },
        Opcode { opcode_min: 0xa60000, opcode_max: 0xa70000, kind: OpcodeKind::Fixed { total_bits: 16, handler: ArgInstr::AddInt { quiet: false } } },
        Opcode { opcode_min: 0xa70000, opcode_max: 0xa80000, kind: OpcodeKind::Fixed { total_bits: 16, handler: ArgInstr::MulInt { quiet: false } } },
        Opcode { opcode_min: 0xa80000, opcode_max: 0xa90000, kind: OpcodeKind::Simple { opcode_bits: 8, handler: SimpleInstr::Mul { quiet: false } } },
    ]
}

/// The handlers of the quiet arithmetic, in ascending order of their ranges.
pub open spec fn quiet_opcodes() -> Seq<Opcode> {
    seq![
        Opcode { opcode_min: 0xb7a000, opcode_max: 0xb7a100, kind: OpcodeKind::Simple { opcode_bits: 16, handler: SimpleInstr::Add { quiet: true } } },
        Opcode { opcode_min: 0xb7a100, opcode_max: 0xb7a200, kind: OpcodeKind::Simple { opcode_bits: 16, handler: SimpleInstr::Sub { quiet: true } } },
        Opcode { opcode_min: 0xb7a200, opcode_max: 0xb7a300, kind: OpcodeKind::Simple { opcode_bits: 16, handler: SimpleInstr::Subr { quiet: true } } },
        Opcode { opcode_min: 0xb7a300, opcode_max: 0xb7a400, kind: OpcodeKind::Simple { opcode_bits: 16, handler: SimpleInstr::Negate { quiet: true } } },
        Opcode { opcode_min: 0xb7a400, opcode_max: 0xb7a500, kind: OpcodeKind::Simple { opcode_bits: 16, handler: SimpleInstr::Inc { quiet: true } } },
        Opcode { opcode_min: 0xb7a500, opcode_max: 0xb7a600, kind: OpcodeKind::Simple { opcode_bits: 16, handler: SimpleInstr::Dec { quiet: true } } },
        Opcode { opcode_min: 0xb7a600, opcode_max: 0xb7a700, kind: OpcodeKind::Fixed { total_bits: 24, handler: ArgInstr::AddInt { quiet: true } } },
        Opcode { opcode_min: 0xb7a700, opcode_max: 0xb7a800, kind: OpcodeKind::Fixed { total_bits: 24, handler: ArgInstr::MulInt { quiet: true } } },
        Opcode { opcode_min: 0xb7a800, opcode_max: 0xb7a900, kind: OpcodeKind::Simple { opcode_bits: 16, handler: SimpleInstr::Mul { quiet: true } } },
    ]
}

/// The handlers of the arithmetic family, in ascending order of their
/// ranges.
pub open spec fn arith_opcodes() -> Seq<Opcode> {
    int_const_opcodes() + math_opcodes() + quiet_opcodes()
}

impl Arithops {
    /// Registers the integer constants.
    #[verifier::rlimit(80)]
    fn init_int_const(t: &mut Opcodes) -> (r: Result<(), DispatchError>)
        requires
            old(t).wf(),
        ensures
            final(t).wf(),
            final(t).id == old(t).id,
            (old(t).opcodes@.len() == 0 || old(t).opcodes@.last().opcode_max <= 0x700000) ==> r is Ok
                && final(t).opcodes@ == old(t).opcodes@ + int_const_opcodes(),
    {
        proof {
            lemma2_to64();
        }
        let ghost start = t.opcodes@;
        let ghost fits = t.opcodes@.len() == 0 || t.opcodes@.last().opcode_max <= 0x700000;
        let ghost prev = t.opcodes@;
        t.add_fixed(0x7, 4, 4, ArgInstr::PushTinyInt4)?;
        assert(fits ==> t.opcodes@ == prev.push(Opcode { opcode_min: 0x700000, opcode_max: 0x800000, kind: OpcodeKind::Fixed { total_bits: 8, handler: ArgInstr::PushTinyInt4 } }));
        let ghost prev = t.opcodes@;
        t.add_fixed(0x80, 8, 8, ArgInstr::PushInt8)?;
        assert(fits ==> t.opcodes@ == prev.push(Opcode { opcode_min: 0x800000, opcode_max: 0x810000, kind: OpcodeKind::Fixed { total_bits: 16, handler: ArgInstr::PushInt8 } }));
        let ghost prev = t.opcodes@;
        t.add_fixed(0x81, 8, 16, ArgInstr::PushInt16)?;
        assert(fits ==> t.opcodes@ == prev.push(Opcode { opcode_min: 0x810000, opcode_max: 0x820000, kind: OpcodeKind::Fixed { total_bits: 24, handler: ArgInstr::PushInt16 } }));
        let ghost prev = t.opcodes@;
        t.add_ext_range(0x1040, 0x105f, 13, ExtInstr::PushIntLong)?;
        assert(fits ==> t.opcodes@ == prev.push(Opcode { opcode_min: 0x820000, opcode_max: 0x82f800, kind: OpcodeKind::Ext { total_bits: 13, handler: ExtInstr::PushIntLong } }));
        let ghost prev = t.opcodes@;
        t.add_fixed_range(0x8300, 0x83ff, 16, 8, ArgInstr::PushPow2)?;
        assert(fits ==> t.opcodes@ == prev.push(Opcode { opcode_min: 0x830000, opcode_max: 0x83ff00, kind: OpcodeKind::Fixed { total_bits: 16, handler: ArgInstr::PushPow2 } }));
        let ghost prev = t.opcodes@;
        t.add_simple(0x83ff, 16, SimpleInstr::PushNan)?;
        assert(fits ==> t.opcodes@ == prev.push(Opcode { opcode_min: 0x83ff00, opcode_max: 0x840000, kind: OpcodeKind::Simple { opcode_bits: 16, handler: SimpleInstr::PushNan } }));
        let ghost prev = t.opcodes@;
        t.add_fixed(0x84, 8, 8, ArgInstr::PushPow2Dec)?;
        assert(fits ==> t.opcodes@ == prev.push(Opcode { opcode_min: 0x840000, opcode_max: 0x850000, kind: OpcodeKind::Fixed { total_bits: 16, handler: ArgInstr::PushPow2Dec } }));
        let ghost prev = t.opcodes@;
        t.add_fixed(0x85, 8, 8, ArgInstr::PushNegPow2)?;
        assert(fits ==> t.opcodes@ == prev.push(Opcode { opcode_min: 0x850000, opcode_max: 0x860000, kind: OpcodeKind::Fixed { total_bits: 16, handler: ArgInstr::PushNegPow2 } }));
        assert(fits ==> t.opcodes@ =~= start + int_const_opcodes());
        Ok(())
    }

    /// Registers the strict arithmetic.
    #[verifier::rlimit(80)]
    fn init_math(t: &mut Opcodes) -> (r: Result<(), DispatchError>)
        requires
            old(t).wf(),
        ensures
            final(t).wf(),
            final(t).id == old(t).id,
            (old(t).opcodes@.len() == 0 || old(t).opcodes@.last().opcode_max <= 0xa00000) ==> r is Ok
                && final(t).opcodes@ == old(t).opcodes@ + math_opcodes(),
    {
        proof {
            lemma2_to64();
        }
        let ghost start = t.opcodes@;
        let ghost fits = t.opcodes@.len() == 0 || t.opcodes@.last().opcode_max <= 0xa00000;
        let ghost prev = t.opcodes@;
        t.add_simple(0xa0, 8, SimpleInstr::Add { quiet: false })?;
        assert(fits ==> t.opcodes@ == prev.push(Opcode { opcode_min: 0xa00000, opcode_max: 0xa10000, kind: OpcodeKind::Simple { opcode_bits: 8, handler: SimpleInstr::Add { quiet: false } } }));
        let ghost prev = t.opcodes@;
        t.add_simple(0xa1, 8, SimpleInstr::Sub { quiet: false })?;
        assert(fits ==> t.opcodes@ == prev.push(Opcode { opcode_min: 0xa10000, opcode_max: 0xa20000, kind: OpcodeKind::Simple { opcode_bits: 8, handler: SimpleInstr::Sub { quiet: false } } }));
        let ghost prev = t.opcodes@;
        t.add_simple(0xa2, 8, SimpleInstr::Subr { quiet: false })?;
        assert(fits ==> t.opcodes@ == prev.push(Opcode { opcode_min: 0xa20000, opcode_max: 0xa30000, kind: OpcodeKind::Simple { opcode_bits: 8, handler: SimpleInstr::Subr { quiet: false } } }));
        let ghost prev = t.opcodes@;
        t.add_simple(0xa3, 8, SimpleInstr::Negate { quiet: false })?;
        assert(fits ==> t.opcodes@ == prev.push(Opcode { opcode_min: 0xa30000, opcode_max: 0xa40000, kind: OpcodeKind::Simple { opcode_bits: 8, handler: SimpleInstr::Negate { quiet: false } } }));
        let ghost prev = t.opcodes@;
        t.add_simple(0xa4, 8, SimpleInstr::Inc { quiet: false })?;
        assert(fits ==> t.opcodes@ == prev.push(Opcode { opcode_min: 0xa40000, opcode_max: 0xa50000, kind: OpcodeKind::Simple { opcode_bits: 8, handler: SimpleInstr::Inc { quiet: false } } }));
        let ghost prev = t.opcodes@;
        t.add_simple(0xa5, 8, SimpleInstr::Dec { quiet: false })?;
        assert(fits ==> t.opcodes@ == prev.push(Opcode { opcode_min: 0xa50000, opcode_max: 0xa60000, kind: OpcodeKind::Simple { opcode_bits: 8, handler: SimpleInstr::Dec { quiet: false } } }));
        let ghost prev = t.opcodes@;
        t.add_fixed(0xa6, 8, 8, ArgInstr::AddInt { quiet: false })?;
        assert(fits ==> t.opcodes@ == prev.push(Opcode { opcode_min: 0xa60000, opcode_max: 0xa70000, kind: OpcodeKind::Fixed { total_bits: 16, handler: ArgInstr::AddInt { quiet: false } } }));
        let ghost prev = t.opcodes@;
        t.add_fixed(0xa7, 8, 8, ArgInstr::MulInt { quiet: false })?;
        assert(fits ==> t.opcodes@ == prev.push(Opcode { opcode_min: 0xa70000, opcode_max: 0xa80000, kind: OpcodeKind::Fixed { total_bits: 16, handler: ArgInstr::MulInt { quiet: false } } }));
        let ghost prev = t.opcodes@;
        t.add_simple(0xa8, 8, SimpleInstr::Mul { quiet: false })?;
        assert(fits ==> t.opcodes@ == prev.push(Opcode { opcode_min: 0xa80000, opcode_max: 0xa90000, kind: OpcodeKind::Simple { opcode_bits: 8, handler: SimpleInstr::Mul { quiet: false } } }));
        assert(fits ==> t.opcodes@ =~= start + math_opcodes());
        Ok(())
    }

    /// Registers the quiet arithmetic.
    #[verifier::rlimit(80)]
    fn init_quiet(t: &mut Opcodes) -> (r: Result<(), DispatchError>)
        requires
            old(t).wf(),
        ensures
            final(t).wf(),
            final(t).id == old(t).id,
            (old(t).opcodes@.len() == 0 || old(t).opcodes@.last().opcode_max <= 0xb7a000) ==> r is Ok
                && final(t).opcodes@ == old(t).opcodes@ + quiet_opcodes(),
    {
        proof {
            lemma2_to64();
        }
        let ghost start = t.opcodes@;
        let ghost fits = t.opcodes@.len() == 0 || t.opcodes@.last().opcode_max <= 0xb7a000;
        let ghost prev = t.opcodes@;
        t.add_simple(0xb7a0, 16, SimpleInstr::Add { quiet: true })?;
        assert(fits ==> t.opcodes@ == prev.push(Opcode { opcode_min: 0xb7a000, opcode_max: 0xb7a100, kind: OpcodeKind::Simple { opcode_bits: 16, handler: SimpleInstr::Add { quiet: true } } }));
        let ghost prev = t.opcodes@;
        t.add_simple(0xb7a1, 16, SimpleInstr::Sub { quiet: true })?;
        assert(fits ==> t.opcodes@ == prev.push(Opcode { opcode_min: 0xb7a100, opcode_max: 0xb7a200, kind: OpcodeKind::Simple { opcode_bits: 16, handler: SimpleInstr::Sub { quiet: true } } }));
        let ghost prev = t.opcodes@;
        t.add_simple(0xb7a2, 16, SimpleInstr::Subr { quiet: true })?;
        assert(fits ==> t.opcodes@ == prev.push(Opcode { opcode_min: 0xb7a200, opcode_max: 0xb7a300, kind: OpcodeKind::Simple { opcode_bits: 16, handler: SimpleInstr::Subr { quiet: true } } }));
        let ghost prev = t.opcodes@;
        t.add_simple(0xb7a3, 16, SimpleInstr::Negate { quiet: true })?;
        assert(fits ==> t.opcodes@ == prev.push(Opcode { opcode_min: 0xb7a300, opcode_max: 0xb7a400, kind: OpcodeKind::Simple { opcode_bits: 16, handler: SimpleInstr::Negate { quiet: true } } }));
        let ghost prev = t.opcodes@;
        t.add_simple(0xb7a4, 16, SimpleInstr::Inc { quiet: true })?;
        assert(fits ==> t.opcodes@ == prev.push(Opcode { opcode_min: 0xb7a400, opcode_max: 0xb7a500, kind: OpcodeKind::Simple { opcode_bits: 16, handler: SimpleInstr::Inc { quiet: true } } }));
        let ghost prev = t.opcodes@;
        t.add_simple(0xb7a5, 16, SimpleInstr::Dec { quiet: true })?;
        assert(fits ==> t.opcodes@ == prev.push(Opcode { opcode_min: 0xb7a500, opcode_max: 0xb7a600, kind: OpcodeKind::Simple { opcode_bits: 16, handler: SimpleInstr::Dec { quiet: true } } }));
        let ghost prev = t.opcodes@;
        t.add_fixed(0xb7a6, 16, 8, ArgInstr::AddInt { quiet: true })?;
        assert(fits ==> t.opcodes@ == prev.push(Opcode { opcode_min: 0xb7a600, opcode_max: 0xb7a700, kind: OpcodeKind::Fixed { total_bits: 24, handler: ArgInstr::AddInt { quiet: true } } }));
        let ghost prev = t.opcodes@;
        t.add_fixed(0xb7a7, 16, 8, ArgInstr::MulInt { quiet: true })?;
        assert(fits ==> t.opcodes@ == prev.push(Opcode { opcode_min: 0xb7a700, opcode_max: 0xb7a800, kind: OpcodeKind::Fixed { total_bits: 24, handler: ArgInstr::MulInt { quiet: true } } }));
        let ghost prev = t.opcodes@;
        t.add_simple(0xb7a8, 16, SimpleInstr::Mul { quiet: true })?;
        assert(fits ==> t.opcodes@ == prev.push(Opcode { opcode_min: 0xb7a800, opcode_max: 0xb7a900, kind: OpcodeKind::Simple { opcode_bits: 16, handler: SimpleInstr::Mul { quiet: true } } }));
        assert(fits ==> t.opcodes@ =~= start + quiet_opcodes());
        Ok(())
    }

    /// Registers the arithmetic family in `t`, in ascending order of the
    /// opcode ranges; on an empty builder this cannot fail.
    pub fn init(&self, t: &mut Opcodes) -> (r: Result<(), DispatchError>)
        requires
            old(t).wf(),
        ensures
            final(t).wf(),
            final(t).id == old(t).id,
            old(t).opcodes@.len() == 0 ==> r is Ok && final(t).opcodes@ == arith_opcodes(),
    {
        Self::init_int_const(t)?;
        Self::init_math(t)?;
        Self::init_quiet(t)?;
        assert(old(t).opcodes@.len() == 0 ==> t.opcodes@ =~= arith_opcodes());
        Ok(())
    }
}

/// The opcode word of `PUSHINT x` in its shortest form, left-aligned to 24
/// bits: `7x` for `x` in `[-5, 10]`, `80xx` for 8 bits, `81xxxx` for 16.
pub open spec fn pushint_opcode(x: int) -> u32 {
    if -5 <= x <= 10 {
        ((0x70 + (x + 16) % 16) * 0x10000) as u32
    } else if -128 <= x < 128 {
        ((0x8000 + (x + 256) % 256) * 0x100) as u32
    } else {
        (0x810000 + (x + 65536) % 65536) as u32
    }
}

/// The handler and width of the shortest `PUSHINT x`.
pub open spec fn pushint_handler(x: int) -> (ArgInstr, nat) {
    if -5 <= x <= 10 {
        (ArgInstr::PushTinyInt4, 8)
    } else if -128 <= x < 128 {
        (ArgInstr::PushInt8, 16)
    } else {
        (ArgInstr::PushInt16, 24)
    }
}

/// Decoding the shortest `PUSHINT x` opcode through its handler pushes `x`,
/// for every `x` of 16 bits.
pub proof fn lemma_pushint_round_trip(x: int, before: Seq<StackValue>, after: Seq<StackValue>, r: Result<i32, VmError>)
    requires
        -32768 <= x < 32768,
        arg_outcome(
            pushint_handler(x).0,
            crate::dispatch::arg_word(pushint_opcode(x), pushint_handler(x).1),
            before,
            after,
            r,
        ),
    ensures
        r == Ok::<i32, VmError>(0),
        pushed_int(before, after, x),
{
    lemma2_to64();
    let w = pushint_opcode(x);
    let n = pushint_handler(x).1;
    let a = crate::dispatch::arg_word(w, n);
    if -5 <= x <= 10 {
        let k = 0x70 + (x + 16) % 16;
        assert(0 <= k < 0x80);
        assert(w as int == k * 65536);
        assert(pow2((24 - 8) as nat) == 65536);
        assert((k * 65536) / 65536 == k) by (nonlinear_arith) requires 0 <= k;
        assert(a == k);
        assert(tiny4_value(a) == x);
    } else if -128 <= x < 128 {
        let k = 0x8000 + (x + 256) % 256;
        assert(0 <= k < 0x8100);
        assert(w as int == k * 256);
        assert(pow2((24 - 16) as nat) == 256);
        assert((k * 256) / 256 == k) by (nonlinear_arith) requires 0 <= k;
        assert(a == k);
        assert(signed8(a) == x);
    } else {
        assert(pow2((24 - 24) as nat) == 1);
        assert(n == 24);
        assert(w as nat / 1 == w as nat);
        assert(w as int == 0x810000 + (x + 65536) % 65536);
        assert(a == 0x810000 + (x + 65536) % 65536);
        assert(signed16(a) == x);
    }
}

/// A two-operand operation and its quiet form agree on operands whose
/// result fits; where it does not, the strict form fails with
/// `IntegerOverflow` and the quiet form pushes NaN.
pub proof fn lemma_quiet_strict_binary(
    before: Seq<StackValue>,
    op: BinOp,
    strict_after: Seq<StackValue>,
    strict_r: Result<i32, VmError>,
    quiet_after: Seq<StackValue>,
    quiet_r: Result<i32, VmError>,
)
    requires
        before.len() >= 2,
        int_arg(before[before.len() - 2]) matches Some(Some(_)),
        int_arg(before[before.len() - 1]) matches Some(Some(_)),
        binary_outcome(before, strict_after, strict_r, false, op),
        binary_outcome(before, quiet_after, quiet_r, true, op),
    ensures
        ({
            let x = int_arg(before[before.len() - 2])->Some_0->Some_0;
            let y = int_arg(before[before.len() - 1])->Some_0->Some_0;
            let v = bin_value(op, x, y);
            &&& fits_int257(v) ==> strict_r == Ok::<i32, VmError>(0) && quiet_r == strict_r
                && pushed_int(before.subrange(0, before.len() - 2), strict_after, v)
                && pushed_int(before.subrange(0, before.len() - 2), quiet_after, v)
            &&& !fits_int257(v) ==> strict_r == Err::<i32, VmError>(VmError::IntegerOverflow)
                && quiet_r == Ok::<i32, VmError>(0)
                && quiet_after == before.subrange(0, before.len() - 2).push(StackValue::Nan)
        }),
{
}

/// A one-operand operation and its quiet form agree on an operand whose
/// result fits; where it does not, the strict form fails with
/// `IntegerOverflow` and the quiet form pushes NaN.
pub proof fn lemma_quiet_strict_unary(
    before: Seq<StackValue>,
    op: UnOp,
    strict_after: Seq<StackValue>,
    strict_r: Result<i32, VmError>,
    quiet_after: Seq<StackValue>,
    quiet_r: Result<i32, VmError>,
)
    requires
        before.len() >= 1,
        int_arg(before[before.len() - 1]) matches Some(Some(_)),
        unary_outcome(before, strict_after, strict_r, false, op),
        unary_outcome(before, quiet_after, quiet_r, true, op),
    ensures
        ({
            let v = un_value(op, int_arg(before[before.len() - 1])->Some_0->Some_0);
            &&& fits_int257(v) ==> strict_r == Ok::<i32, VmError>(0) && quiet_r == strict_r
                && pushed_int(before.subrange(0, before.len() - 1), strict_after, v)
                && pushed_int(before.subrange(0, before.len() - 1), quiet_after, v)
            &&& !fits_int257(v) ==> strict_r == Err::<i32, VmError>(VmError::IntegerOverflow)
                && quiet_r == Ok::<i32, VmError>(0)
                && quiet_after == before.subrange(0, before.len() - 1).push(StackValue::Nan)
        }),
{
}

/// Whether the simple instruction `h` is a quiet one.
pub open spec fn simple_quiet(h: SimpleInstr) -> bool {
    match h {
        SimpleInstr::PushNan => false,
        SimpleInstr::Add { quiet } => quiet,
        SimpleInstr::Sub { quiet } => quiet,
        SimpleInstr::Subr { quiet } => quiet,
        SimpleInstr::Mul { quiet } => quiet,
        SimpleInstr::Negate { quiet } => quiet,
        SimpleInstr::Inc { quiet } => quiet,
        SimpleInstr::Dec { quiet } => quiet,
    }
}

/// A stack within range stays within range under every result an
/// arithmetic handler may push.
proof fn lemma_result_keeps_stack_ok(rest: Seq<StackValue>, after: Seq<StackValue>, r: Result<i32, VmError>, quiet: bool, v: Option<int>)
    requires
        stack_ok(rest),
        result_pushed(rest, after, r, quiet, v),
        r is Ok,
    ensures
        stack_ok(after),
{
    assert forall|i: int| 0 <= i < after.len() implies slot_ok(#[trigger] after[i]) by {
        if i < after.len() - 1 {
            assert(after[i] == after.drop_last()[i]);
        }
    }
}

/// The simple instructions keep every stack integer within 257 bits.
pub proof fn lemma_simple_keeps_stack_ok(h: SimpleInstr, before: Seq<StackValue>, after: Seq<StackValue>, r: Result<i32, VmError>)
    requires
        stack_ok(before),
        simple_outcome(h, before, after, r),
        r is Ok,
    ensures
        stack_ok(after),
{
    let n = before.len();
    match h {
        SimpleInstr::PushNan => {
            assert forall|i: int| 0 <= i < after.len() implies slot_ok(#[trigger] after[i]) by {
                if i < n {
                    assert(after[i] == before[i]);
                }
            }
        },
        SimpleInstr::Add { .. } | SimpleInstr::Sub { .. } | SimpleInstr::Subr { .. } | SimpleInstr::Mul { .. } => {
            let rest = before.subrange(0, n - 2);
            assert(stack_ok(rest)) by {
                assert forall|i: int| 0 <= i < rest.len() implies slot_ok(#[trigger] rest[i]) by {
                    assert(rest[i] == before[i]);
                }
            }
            let x = int_arg(before[n - 2])->Some_0;
            let y = int_arg(before[n - 1])->Some_0;
            let op = match h {
                SimpleInstr::Add { .. } => BinOp::Add,
                SimpleInstr::Sub { .. } => BinOp::Sub,
                SimpleInstr::Subr { .. } => BinOp::Subr,
                _ => BinOp::Mul,
            };
            lemma_result_keeps_stack_ok(rest, after, r, simple_quiet(h), if x is Some && y is Some {
                Some(bin_value(op, x->Some_0, y->Some_0))
            } else {
                None
            });
        },
        _ => {
            let rest = before.subrange(0, n - 1);
            assert(stack_ok(rest)) by {
                assert forall|i: int| 0 <= i < rest.len() implies slot_ok(#[trigger] rest[i]) by {
                    assert(rest[i] == before[i]);
                }
            }
            let x = int_arg(before[n - 1])->Some_0;
            let op = match h {
                SimpleInstr::Negate { .. } => UnOp::Negate,
                SimpleInstr::Inc { .. } => UnOp::AddConst(1i64),
                _ => UnOp::AddConst(-1i64),
            };
            lemma_result_keeps_stack_ok(rest, after, r, simple_quiet(h), if x is Some {
                Some(un_value(op, x->Some_0))
            } else {
                None
            });
        },
    }
}

/// On an operand within range, negation overflows exactly at `-2^256`.
pub proof fn lemma_negate_overflow(x: int)
    requires
        fits_int257(x),
    ensures
        fits_int257(-x) <==> x != crate::integer::int_min(),
{
}

/// On an operand within range, increment overflows exactly at `2^256 - 1`.
pub proof fn lemma_inc_overflow(x: int)
    requires
        fits_int257(x),
    ensures
        fits_int257(x + 1) <==> x != crate::integer::int_max() - 1,
{
}

/// The instructions with an argument keep every stack integer within 257
/// bits.
pub proof fn lemma_arg_keeps_stack_ok(h: ArgInstr, args: u32, before: Seq<StackValue>, after: Seq<StackValue>, r: Result<i32, VmError>)
    requires
        stack_ok(before),
        arg_outcome(h, args, before, after, r),
        r is Ok,
    ensures
        stack_ok(after),
{
    let n = before.len();
    match h {
        ArgInstr::PushTinyInt4 | ArgInstr::PushInt8 | ArgInstr::PushInt16 => {
            let v = match h {
                ArgInstr::PushTinyInt4 => tiny4_value(args),
                ArgInstr::PushInt8 => signed8(args),
                _ => signed16(args),
            };
            lemma_small_fits(v);
            lemma_result_keeps_stack_ok(before, after, r, false, Some(v));
        },
        ArgInstr::PushPow2 => lemma_result_keeps_stack_ok(before, after, r, false, Some(pow2(pow_arg(args)) as int)),
        ArgInstr::PushPow2Dec => lemma_result_keeps_stack_ok(before, after, r, false, Some(pow2(pow_arg(args)) - 1)),
        ArgInstr::PushNegPow2 => lemma_result_keeps_stack_ok(before, after, r, false, Some(-(pow2(pow_arg(args)) as int))),
        ArgInstr::AddInt { quiet } | ArgInstr::MulInt { quiet } => {
            let rest = before.subrange(0, n - 1);
            assert(stack_ok(rest)) by {
                assert forall|i: int| 0 <= i < rest.len() implies slot_ok(#[trigger] rest[i]) by {
                    assert(rest[i] == before[i]);
                }
            }
            let x = int_arg(before[n - 1])->Some_0;
            let op = match h {
                ArgInstr::AddInt { .. } => UnOp::AddConst(signed8(args) as i64),
                _ => UnOp::MulConst(signed8(args) as i64),
            };
            lemma_result_keeps_stack_ok(rest, after, r, quiet, if x is Some {
                Some(un_value(op, x->Some_0))
            } else {
                None
            });
        },
    }
}

} // verus!
