use everscale_types::cell::Cell;
use std::rc::Rc;
use vstd::prelude::*;

use crate::arithops::{
    arith_opcodes, int_const_opcodes, quiet_opcodes, lemma_pushint_round_trip, pushint_handler, pushint_opcode, Arithops,
};
use crate::cell::{bit_len_of, cell_level, cell_repr_depth, clone_cell, data_of, depth_of, empty_cell, hash_of, level_of, refs_of};
use crate::code::CodeSlice;
use crate::cont::{regs_cleared, regs_merged, Cont, ControlRegs, OrdCont};
use crate::dispatch::{dispatches, dummy, filled, Opcode, MAX_OPCODE, opcode_len, opcode_word, DispatchError, DispatchTable, GAS_PER_INSTRUCTION};
use crate::error::{exception_code_of, VmError};
use crate::gas::{charged_load, load_price, GasConsumer, DEFAULT_GAS_LIMIT};
use crate::integer::{lemma_small_fits, IntValue};
use vstd::arithmetic::power2::{lemma2_to64, pow2};
use crate::stack::{pushed_int, Stack, StackValue};

verus! {

/// Largest cell depth that may be committed.
pub const MAX_DATA_DEPTH: u16 = 512;

/// The cells `c4` and `c5` as last committed.
pub struct CommitedState {
    pub c4: Cell,
    pub c5: Cell,
}

/// Registers to save into a continuation taken by `extract_cc`.
#[derive(Debug, Clone, Copy, PartialEq, Eq, Structural)]
pub struct SaveCr {
    pub bits: u8,
}

/// Save `c0`.
pub const SAVE_C0: u8 = 1;

/// Save `c1`.
pub const SAVE_C1: u8 = 2;

/// Save `c2`.
pub const SAVE_C2: u8 = 4;

impl SaveCr {
    /// Whether the flag `flag` is set.
    pub fn contains(&self, flag: u8) -> (r: bool)
        ensures
            r == (self.bits & flag == flag),
    {
        self.bits & flag == flag
    }
}

/// The state of a running machine.
pub struct VmState {
    pub code: CodeSlice,
    pub stack: Stack,
    pub cr: ControlRegs,
    pub commited_state: Option<CommitedState>,
    pub steps: u64,
    pub quit0: Rc<Cont>,
    pub quit1: Rc<Cont>,
    pub gas: GasConsumer,
    pub cp: Rc<DispatchTable>,
}

/// The number of values a continuation receives: its `nargs`, else the
/// number passed, else the whole stack.
pub open spec fn next_depth(nargs: Option<u16>, pass_args: Option<u16>, depth: nat) -> nat {
    match nargs {
        Some(n) => n as nat,
        None => match pass_args {
            Some(p) => p as nat,
            None => depth,
        },
    }
}

/// Whether `nargs` and `pass_args` can be served by a stack of `depth`
/// values.
pub open spec fn args_ok(nargs: Option<u16>, pass_args: Option<u16>, depth: nat) -> bool {
    &&& (pass_args matches Some(p) ==> p <= depth)
    &&& (nargs matches Some(n) ==> n <= depth)
    &&& match (pass_args, nargs) {
        (Some(p), Some(n)) => n <= p,
        _ => true,
    }
}

/// The exception number on top of `s`, when it is an integer in
/// `[0, 65536)`.
pub open spec fn exit_arg(s: Seq<StackValue>) -> Option<int> {
    if s.len() > 0 {
        match s.last() {
            StackValue::Int(v) => if 0 <= v.value() < 65536 {
                Some(v.value())
            } else {
                None
            },
            _ => None,
        }
    } else {
        None
    }
}

/// The `n` top values of `s`.
pub open spec fn top_of(s: Seq<StackValue>, n: nat) -> Seq<StackValue> {
    s.subrange(s.len() - n, s.len() as int)
}

/// `s` without its `n` top values.
pub open spec fn below_top(s: Seq<StackValue>, n: nat) -> Seq<StackValue> {
    s.subrange(0, s.len() - n)
}

/// `after` is `before` with only the stack changed.
pub open spec fn same_but_stack(before: VmState, after: VmState) -> bool {
    &&& after.code == before.code
    &&& after.cr == before.cr
    &&& after.commited_state == before.commited_state
    &&& after.steps == before.steps
    &&& after.quit0 == before.quit0
    &&& after.quit1 == before.quit1
    &&& after.gas == before.gas
    &&& after.cp == before.cp
}

/// `after` is `before` with only the stack and the registers changed.
pub open spec fn same_but_stack_cr(before: VmState, after: VmState) -> bool {
    &&& after.code == before.code
    &&& after.commited_state == before.commited_state
    &&& after.steps == before.steps
    &&& after.quit0 == before.quit0
    &&& after.quit1 == before.quit1
    &&& after.gas == before.gas
    &&& after.cp == before.cp
}

/// The outcome `r`, `after` of entering `cont` from `before` as it stands.
pub open spec fn enters(before: VmState, after: VmState, cont: Cont, r: Result<i32, VmError>) -> bool {
    &&& after.gas == before.gas
    &&& after.steps == before.steps
    &&& after.cp == before.cp
    &&& after.commited_state == before.commited_state
    &&& after.quit0 == before.quit0
    &&& after.quit1 == before.quit1
    &&& match cont {
        Cont::Quit(code) => r == Ok::<i32, VmError>(!code) && after == before,
        Cont::ExcQuit => {
            let s = before.stack.items@;
            &&& after.code == before.code
            &&& after.cr == before.cr
            &&& (exit_arg(s) matches Some(n) ==> r == Ok::<i32, VmError>(!(n as i32))
                && after.stack.items@ == s.drop_last())
            &&& (exit_arg(s) is None ==> r == Ok::<i32, VmError>(!11i32) && after.stack.items@ == s)
        },
        Cont::Ordinary(o) => {
            &&& regs_merged(after.cr, before.cr, o.data.save)
            &&& after.stack == before.stack
            &&& (o.data.cp is None || o.data.cp == Some(before.cp.id)) ==> r == Ok::<i32, VmError>(0)
                && after.code.bits() == o.code.bits() && after.code.refs_view() == o.code.refs_view()
            &&& !(o.data.cp is None || o.data.cp == Some(before.cp.id)) ==> r == Err::<i32, VmError>(
                VmError::InvalidOpcode,
            )
        },
    }
}

/// The stack a continuation receives: the `next` top values of `cur`, put
/// on its own stack when it has a non-empty one.
pub open spec fn shaped_stack(cur: Seq<StackValue>, saved: Option<Seq<StackValue>>, next: nat) -> Seq<StackValue> {
    match saved {
        Some(s) => if s.len() > 0 {
            s + top_of(cur, next)
        } else {
            top_of(cur, next)
        },
        None => top_of(cur, next),
    }
}

/// `mid` is `before` with the stack shaped and the registers cleared for
/// entering `cont` with `pass_args` values.
pub open spec fn shaped_for(before: VmState, mid: VmState, cont: Cont, pass_args: Option<u16>) -> bool {
    let depth = before.stack.items@.len();
    &&& same_but_stack_cr(before, mid)
    &&& match cont {
        Cont::Ordinary(o) => {
            &&& regs_cleared(mid.cr, before.cr, o.data.save)
            &&& mid.stack.items@ == shaped_stack(
                before.stack.items@,
                match o.data.stack {
                    Some(s) => Some(s.items@),
                    None => None,
                },
                next_depth(o.data.nargs, pass_args, depth),
            )
        },
        _ => {
            &&& mid.cr == before.cr
            &&& mid.stack.items@ == top_of(before.stack.items@, next_depth(None, pass_args, depth))
        },
    }
}

/// Whether the stack of `before` can serve `cont` with `pass_args` values.
pub open spec fn can_pass(before: VmState, cont: Cont, pass_args: Option<u16>) -> bool {
    let depth = before.stack.items@.len();
    match cont {
        Cont::Ordinary(o) => args_ok(o.data.nargs, pass_args, depth),
        _ => !over_passed(pass_args, depth),
    }
}

/// The outcome `r`, `after` of `jump_ext(cont, pass_args)` from `before`:
/// a stack that cannot serve the arguments fails with `StackUnderflow` and
/// changes nothing; otherwise the stack is shaped and `cont` entered.
pub open spec fn jumps_ext(
    before: VmState,
    after: VmState,
    cont: Cont,
    pass_args: Option<u16>,
    r: Result<i32, VmError>,
) -> bool {
    &&& after.gas == before.gas
    &&& after.steps == before.steps
    &&& after.cp == before.cp
    &&& after.commited_state == before.commited_state
    &&& !can_pass(before, cont, pass_args) ==> (r matches Err(VmError::StackUnderflow(_))) && after
        == before
    &&& can_pass(before, cont, pass_args) ==> exists|mid: VmState|
        shaped_for(before, mid, cont, pass_args) && #[trigger] enters(mid, after, cont, r)
}

/// More values are asked for than the stack holds.
pub open spec fn over_passed(pass_args: Option<u16>, depth: nat) -> bool {
    pass_args matches Some(p) && p > depth
}

/// Whether entering `cont` shapes the stack first.
pub open spec fn needs_shaping(cont: Cont) -> bool {
    cont matches Cont::Ordinary(o) && (o.data.stack is Some || o.data.nargs is Some)
}

/// The outcome `r`, `after` of `jump(cont)` from `before`.
pub open spec fn jumps(before: VmState, after: VmState, cont: Cont, r: Result<i32, VmError>) -> bool {
    &&& needs_shaping(cont) ==> jumps_ext(before, after, cont, None, r)
    &&& !needs_shaping(cont) ==> enters(before, after, cont, r)
}

impl VmState {
    pub open spec fn wf(&self) -> bool {
        self.cp.wf()
    }


    /// Enters `cont` as it stands, without shaping the stack.
    pub fn enter(&mut self, cont: Rc<Cont>) -> (r: Result<i32, VmError>)
        requires
            old(self).wf(),
        ensures
            final(self).wf(),
            enters(*old(self), *final(self), *cont, r),
    {
        match &*cont {
            Cont::Quit(code) => Ok(!*code),
            Cont::ExcQuit => {
                let n = self.stack.items.len();
                if n > 0 {
                    if let StackValue::Int(v) = &self.stack.items[n - 1] {
                        if let Some(x) = v.as_u16() {
                            self.stack.items.pop();
                            return Ok(!(x as i32));
                        }
                    }
                }
                Ok(!11i32)
            },
            Cont::Ordinary(o) => {
                self.cr.merge(&o.data.save);
                if let Some(cp) = o.data.cp {
                    if cp != self.cp.id() {
                        return Err(VmError::InvalidOpcode);
                    }
                }
                self.code = o.code.duplicate();
                Ok(0)
            },
        }
    }

    /// Passes control to `cont`, shaping the stack when `cont` has its own
    /// stack or a fixed number of arguments.
    pub fn jump(&mut self, cont: Rc<Cont>) -> (r: Result<i32, VmError>)
        requires
            old(self).wf(),
        ensures
            final(self).wf(),
            jumps(*old(self), *final(self), *cont, r),
    {
        if let Some(cd) = cont.get_control_data() {
            if cd.stack.is_some() || cd.nargs.is_some() {
                return self.jump_ext(cont, None);
            }
        }
        self.enter(cont)
    }

    /// Passes control to `cont` with `pass_args` values (all when `None`).
    pub fn jump_ext(&mut self, cont: Rc<Cont>, pass_args: Option<u16>) -> (r: Result<i32, VmError>)
        requires
            old(self).wf(),
        ensures
            final(self).wf(),
            jumps_ext(*old(self), *final(self), *cont, pass_args, r),
    {
        let depth = self.stack.depth();
        match &*cont {
            Cont::Ordinary(o) => {
                let cd = &o.data;
                let pa: usize = match pass_args {
                    Some(p) => p as usize,
                    None => 0,
                };
                let na: usize = match cd.nargs {
                    Some(n) => n as usize,
                    None => 0,
                };
                if pa > depth || na > depth {
                    return Err(VmError::StackUnderflow(if pa > na { pa } else { na }));
                }
                if let Some(p) = pass_args {
                    if na > p as usize {
                        return Err(VmError::StackUnderflow(p as usize));
                    }
                }
                self.cr.preclear(&cd.save);
                let next: usize = match cd.nargs {
                    Some(n) => n as usize,
                    None => match pass_args {
                        Some(p) => p as usize,
                        None => depth,
                    },
                };
                let mut own = false;
                if let Some(saved) = &cd.stack {
                    if saved.depth() > 0 {
                        own = true;
                        let mut new_stack = saved.duplicate();
                        new_stack.move_from_stack(&mut self.stack, next);
                        self.stack = new_stack;
                    }
                }
                if !own && next < depth {
                    self.stack.drop_bottom(depth - next);
                }
                proof {
                    assert(self.stack.items@ =~= shaped_stack(
                        old(self).stack.items@,
                        match cd.stack {
                            Some(s) => Some(s.items@),
                            None => None,
                        },
                        next as nat,
                    ));
                }
            },
            _ => {
                if let Some(p) = pass_args {
                    if p as usize > depth {
                        return Err(VmError::StackUnderflow(p as usize));
                    }
                    if depth > p as usize {
                        self.stack.drop_bottom(depth - p as usize);
                    }
                }
                assert(self.stack.items@ =~= top_of(old(self).stack.items@, next_depth(None, pass_args, depth as nat)));
            },
        }
        let ghost mid = *self;
        assert(shaped_for(*old(self), mid, *cont, pass_args));
        let r = self.enter(cont);
        assert(enters(mid, *self, *cont, r));
        r
    }
    /// Takes `c0`, leaving `quit0` in its place.
    fn take_c0(&mut self) -> (r: Result<Rc<Cont>, VmError>)
        ensures
            final(self).cr.c@ == old(self).cr.c@.update(0, Some(old(self).quit0)),
            final(self).cr.d == old(self).cr.d,
            final(self).cr.c7 == old(self).cr.c7,
            same_but_stack_cr(*old(self), *final(self)),
            final(self).stack == old(self).stack,
            old(self).cr.c@[0] matches Some(k) ==> r == Ok::<Rc<Cont>, VmError>(k),
            old(self).cr.c@[0] is None ==> r == Err::<Rc<Cont>, VmError>(VmError::InvalidOpcode),
    {
        let mut taken = Some(Rc::clone(&self.quit0));
        std::mem::swap(&mut self.cr.c[0], &mut taken);
        assert(self.cr.c@ =~= old(self).cr.c@.update(0, Some(old(self).quit0)));
        match taken {
            Some(k) => Ok(k),
            None => Err(VmError::InvalidOpcode),
        }
    }

    /// Takes `c1`, leaving `quit1` in its place.
    fn take_c1(&mut self) -> (r: Result<Rc<Cont>, VmError>)
        ensures
            final(self).cr.c@ == old(self).cr.c@.update(1, Some(old(self).quit1)),
            final(self).cr.d == old(self).cr.d,
            final(self).cr.c7 == old(self).cr.c7,
            same_but_stack_cr(*old(self), *final(self)),
            final(self).stack == old(self).stack,
            old(self).cr.c@[1] matches Some(k) ==> r == Ok::<Rc<Cont>, VmError>(k),
            old(self).cr.c@[1] is None ==> r == Err::<Rc<Cont>, VmError>(VmError::InvalidOpcode),
    {
        let mut taken = Some(Rc::clone(&self.quit1));
        std::mem::swap(&mut self.cr.c[1], &mut taken);
        assert(self.cr.c@ =~= old(self).cr.c@.update(1, Some(old(self).quit1)));
        match taken {
            Some(k) => Ok(k),
            None => Err(VmError::InvalidOpcode),
        }
    }

    /// Returns to `c0`, which becomes `quit0`.
    pub fn ret(&mut self) -> (r: Result<i32, VmError>)
        requires
            old(self).wf(),
        ensures
            final(self).wf(),
            old(self).cr.c@[0] is None ==> r == Err::<i32, VmError>(VmError::InvalidOpcode)
                && same_but_stack_cr(*old(self), *final(self)) && final(self).stack == old(self).stack,
            old(self).cr.c@[0] matches Some(k) ==> exists|mid: VmState|
                same_but_stack_cr(*old(self), mid) && mid.stack == old(self).stack && mid.cr.d == old(
                    self,
                ).cr.d && mid.cr.c7 == old(self).cr.c7 && mid.cr.c@ == old(self).cr.c@.update(
                    0,
                    Some(old(self).quit0),
                ) && #[trigger] jumps(
                    mid,
                    *final(self),
                    *k,
                    r,
                ),
    {
        let cont = self.take_c0()?;
        let ghost mid = *self;
        let r = self.jump(cont);
        assert(jumps(mid, *self, *cont, r));
        r
    }

    /// Returns to `c0` with `ret_args` values, as `jump_ext` passes them.
    pub fn ret_ext(&mut self, ret_args: Option<u16>) -> (r: Result<i32, VmError>)
        requires
            old(self).wf(),
        ensures
            final(self).wf(),
            old(self).cr.c@[0] is None ==> r == Err::<i32, VmError>(VmError::InvalidOpcode)
                && same_but_stack_cr(*old(self), *final(self)) && final(self).stack == old(self).stack,
            old(self).cr.c@[0] matches Some(k) ==> exists|mid: VmState|
                same_but_stack_cr(*old(self), mid) && mid.stack == old(self).stack && mid.cr.d == old(
                    self,
                ).cr.d && mid.cr.c7 == old(self).cr.c7 && mid.cr.c@ == old(self).cr.c@.update(
                    0,
                    Some(old(self).quit0),
                ) && #[trigger] jumps_ext(
                    mid,
                    *final(self),
                    *k,
                    ret_args,
                    r,
                ),
    {
        let cont = self.take_c0()?;
        let ghost mid = *self;
        let r = self.jump_ext(cont, ret_args);
        assert(jumps_ext(mid, *self, *cont, ret_args, r));
        r
    }

    /// Returns to `c1`, which becomes `quit1`.
    pub fn ret_alt(&mut self) -> (r: Result<i32, VmError>)
        requires
            old(self).wf(),
        ensures
            final(self).wf(),
            old(self).cr.c@[1] is None ==> r == Err::<i32, VmError>(VmError::InvalidOpcode)
                && same_but_stack_cr(*old(self), *final(self)) && final(self).stack == old(self).stack,
            old(self).cr.c@[1] matches Some(k) ==> exists|mid: VmState|
                same_but_stack_cr(*old(self), mid) && mid.stack == old(self).stack && mid.cr.d == old(
                    self,
                ).cr.d && mid.cr.c7 == old(self).cr.c7 && mid.cr.c@ == old(self).cr.c@.update(
                    1,
                    Some(old(self).quit1),
                ) && #[trigger] jumps(
                    mid,
                    *final(self),
                    *k,
                    r,
                ),
    {
        let cont = self.take_c1()?;
        let ghost mid = *self;
        let r = self.jump(cont);
        assert(jumps(mid, *self, *cont, r));
        r
    }

    /// Returns to `c1` with `ret_args` values, as `jump_ext` passes them.
    pub fn ret_alt_ext(&mut self, ret_args: Option<u16>) -> (r: Result<i32, VmError>)
        requires
            old(self).wf(),
        ensures
            final(self).wf(),
            old(self).cr.c@[1] is None ==> r == Err::<i32, VmError>(VmError::InvalidOpcode)
                && same_but_stack_cr(*old(self), *final(self)) && final(self).stack == old(self).stack,
            old(self).cr.c@[1] matches Some(k) ==> exists|mid: VmState|
                same_but_stack_cr(*old(self), mid) && mid.stack == old(self).stack && mid.cr.d == old(
                    self,
                ).cr.d && mid.cr.c7 == old(self).cr.c7 && mid.cr.c@ == old(self).cr.c@.update(
                    1,
                    Some(old(self).quit1),
                ) && #[trigger] jumps_ext(
                    mid,
                    *final(self),
                    *k,
                    ret_args,
                    r,
                ),
    {
        let cont = self.take_c1()?;
        let ghost mid = *self;
        let r = self.jump_ext(cont, ret_args);
        assert(jumps_ext(mid, *self, *cont, ret_args, r));
        r
    }

    /// Throws exception `n` with the argument `arg`: the stack becomes
    /// `[arg, n]`, the code is cleared, and control passes to `c2`.
    pub fn throw_exception_with_arg(&mut self, n: i32, arg: StackValue) -> (r: Result<i32, VmError>)
        requires
            old(self).wf(),
        ensures
            final(self).wf(),
            old(self).cr.c@[2] is None ==> r == Err::<i32, VmError>(VmError::InvalidOpcode)
                && thrown(*old(self), *final(self), n),
            old(self).cr.c@[2] matches Some(k) ==> exists|mid: VmState|
                thrown(*old(self), mid, n) && mid.stack.items@[0] == arg && #[trigger] jumps(
                    mid,
                    *final(self),
                    *k,
                    r,
                ),
    {
        let mut items: Vec<StackValue> = Vec::new();
        items.push(arg);
        proof { lemma_small_fits(n as int); }
        items.push(StackValue::integer(IntValue::from_i64(n as i64)));
        self.stack = Stack::from_items(items);
        self.code = CodeSlice::empty();
        let c2 = match &self.cr.c[2] {
            Some(k) => Rc::clone(k),
            None => {
                return Err(VmError::InvalidOpcode);
            },
        };
        let ghost mid = *self;
        let r = self.jump(c2);
        assert(jumps(mid, *self, *c2, r));
        r
    }

    /// Throws exception `n`: the stack becomes `[0, n]`, the code is
    /// cleared, and control passes to `c2`.
    pub fn throw_exception(&mut self, n: i32) -> (r: Result<i32, VmError>)
        requires
            old(self).wf(),
        ensures
            final(self).wf(),
            throws(*old(self), *final(self), n, r),
    {
        proof { lemma_small_fits(0); }
        self.throw_exception_with_arg(n, StackValue::integer(IntValue::from_i64(0)))
    }

    /// Commits `c4` and `c5` when both are set, of level 0 and of depth at
    /// most 512; tells whether it did.
    pub fn try_commit(&mut self) -> (r: bool)
        ensures
            commits(*old(self), *final(self), r),
            final(self).code == old(self).code,
            final(self).stack == old(self).stack,
            final(self).cr == old(self).cr,
            final(self).steps == old(self).steps,
            final(self).gas == old(self).gas,
            final(self).cp == old(self).cp,
            final(self).quit0 == old(self).quit0,
            final(self).quit1 == old(self).quit1,
    {
        if let (Some(c4), Some(c5)) = (&self.cr.d[0], &self.cr.d[1]) {
            if cell_level(c4) == 0 && cell_level(c5) == 0 && cell_repr_depth(c4) <= MAX_DATA_DEPTH
                && cell_repr_depth(c5) <= MAX_DATA_DEPTH {
                let state = CommitedState { c4: clone_cell(c4), c5: clone_cell(c5) };
                self.commited_state = Some(state);
                return true;
            }
        }
        false
    }

    /// Commits as `try_commit` does, or fails with `CellOverflow`.
    pub fn force_commit(&mut self) -> (r: Result<(), VmError>)
        ensures
            r is Ok <==> commit_ok(old(self).cr),
            r is Ok ==> old(self).cr.d@[0] is Some && old(self).cr.d@[1] is Some
                && final(self).commited_state == Some(
                CommitedState { c4: old(self).cr.d@[0]->Some_0, c5: old(self).cr.d@[1]->Some_0 },
            ),
            r is Err ==> r == Err::<(), VmError>(VmError::CellOverflow) && final(self).commited_state
                == old(self).commited_state,
            (old(self).cr.d@[0] is None || old(self).cr.d@[1] is None) ==> r is Err,
            final(self).stack == old(self).stack,
            final(self).cr == old(self).cr,
    {
        if self.try_commit() {
            Ok(())
        } else {
            Err(VmError::CellOverflow)
        }
    }

    /// Takes the stack, leaving an empty one.
    pub fn take_stack(&mut self) -> (r: Stack)
        ensures
            r == old(self).stack,
            final(self).stack.items@ == Seq::<StackValue>::empty(),
            same_but_stack_cr(*old(self), *final(self)),
            final(self).cr == old(self).cr,
    {
        let mut taken = Stack::new();
        std::mem::swap(&mut self.stack, &mut taken);
        taken
    }

    /// Adopts the registers of `save` that are empty here.
    pub fn adjust_cr(&mut self, save: &ControlRegs)
        ensures
            regs_merged(final(self).cr, old(self).cr, *save),
            same_but_stack_cr(*old(self), *final(self)),
            final(self).stack == old(self).stack,
    {
        self.cr.merge(save)
    }

    /// Clears the registers that `save` sets.
    pub fn preclear_cr(&mut self, save: &ControlRegs)
        ensures
            regs_cleared(final(self).cr, old(self).cr, *save),
            same_but_stack_cr(*old(self), *final(self)),
            final(self).stack == old(self).stack,
    {
        self.cr.preclear(save)
    }

    /// Sets `c0`.
    pub fn set_c0(&mut self, cont: Rc<Cont>)
        ensures
            final(self).cr.c@ == old(self).cr.c@.update(0, Some(cont)),
            final(self).cr.d == old(self).cr.d,
            final(self).cr.c7 == old(self).cr.c7,
            same_but_stack_cr(*old(self), *final(self)),
            final(self).stack == old(self).stack,
    {
        self.cr.c[0] = Some(cont);
        assert(self.cr.c@ =~= old(self).cr.c@.update(0, Some(cont)));
    }

    /// Switches to code page `cp`; only the page in use is known.
    pub fn force_cp(&mut self, cp: u16) -> (r: Result<(), VmError>)
        ensures
            *final(self) == *old(self),
            r is Ok <==> cp == old(self).cp.id,
            r is Err ==> r == Err::<(), VmError>(VmError::InvalidOpcode),
    {
        if cp == self.cp.id() {
            Ok(())
        } else {
            Err(VmError::InvalidOpcode)
        }
    }

    /// Installs `code` in code page `cp`.
    pub fn set_code(&mut self, code: CodeSlice, cp: u16) -> (r: Result<(), VmError>)
        requires
            old(self).wf(),
        ensures
            final(self).wf(),
            final(self).code == code,
            r is Ok <==> cp == old(self).cp.id,
            r is Err ==> r == Err::<(), VmError>(VmError::InvalidOpcode),
            final(self).stack == old(self).stack,
            final(self).cr == old(self).cr,
            final(self).gas == old(self).gas,
    {
        self.code = code;
        self.force_cp(cp)
    }
}

/// `k` is the continuation that returns to the code of `before` with the
/// values `rest` and `ret_args` expected results.
pub open spec fn returns_to(k: Cont, before: VmState, rest: Seq<StackValue>, ret_args: Option<u16>) -> bool {
    &&& k is Ordinary
    &&& k->Ordinary_0.code.bits() == before.code.bits()
    &&& k->Ordinary_0.code.refs_view() == before.code.refs_view()
    &&& k->Ordinary_0.data.nargs == ret_args
    &&& k->Ordinary_0.data.cp == Some(before.cp.id)
    &&& k->Ordinary_0.data.save.c@[0] == before.cr.c@[0]
    &&& k->Ordinary_0.data.stack is Some
    &&& k->Ordinary_0.data.stack->Some_0.items@ == rest
}

/// Whether `cont` saves its own `c0`, so that calling it is jumping to it.
pub open spec fn saves_c0(cont: Cont) -> bool {
    cont is Ordinary && cont->Ordinary_0.data.save.c@[0] is Some
}

/// The number of values `call_ext` takes from the stack.
pub open spec fn taken_args(nargs: Option<u16>, pass_args: Option<u16>, depth: nat) -> nat {
    match pass_args {
        Some(p) => p as nat,
        None => next_depth(nargs, None, depth),
    }
}

/// `mid` is `before` prepared for calling `cont`: the arguments shaped as
/// `jump_ext` shapes them, and `c0` set to a continuation that returns here
/// with the values below the arguments.
pub open spec fn prepared_call(
    before: VmState,
    mid: VmState,
    cont: Cont,
    pass_args: Option<u16>,
    ret_args: Option<u16>,
) -> bool {
    let depth = before.stack.items@.len();
    let nargs = if cont is Ordinary {
        cont->Ordinary_0.data.nargs
    } else {
        None
    };
    let saved = if cont is Ordinary && cont->Ordinary_0.data.stack is Some {
        Some(cont->Ordinary_0.data.stack->Some_0.items@)
    } else {
        None
    };
    &&& mid.gas == before.gas
    &&& mid.steps == before.steps
    &&& mid.cp == before.cp
    &&& mid.commited_state == before.commited_state
    &&& mid.quit0 == before.quit0
    &&& mid.quit1 == before.quit1
    &&& mid.stack.items@ == shaped_stack(before.stack.items@, saved, next_depth(nargs, pass_args, depth))
    &&& mid.cr.c@[0] is Some
    &&& returns_to(
        *mid.cr.c@[0]->Some_0,
        before,
        below_top(before.stack.items@, taken_args(nargs, pass_args, depth)),
        ret_args,
    )
}

/// The outcome `r`, `after` of `call_ext(cont, pass_args, ret_args)` from
/// `before`.
pub open spec fn calls_ext(
    before: VmState,
    after: VmState,
    cont: Cont,
    pass_args: Option<u16>,
    ret_args: Option<u16>,
    r: Result<i32, VmError>,
) -> bool {
    &&& saves_c0(cont) ==> jumps(before, after, cont, r)
    &&& !saves_c0(cont) && !can_pass(before, cont, pass_args) ==> (r matches Err(
        VmError::StackUnderflow(_),
    )) && after == before
    &&& !saves_c0(cont) && can_pass(before, cont, pass_args) ==> exists|mid: VmState|
        prepared_call(before, mid, cont, pass_args, ret_args) && #[trigger] enters(mid, after, cont, r)
}

impl VmState {
    /// Installs in `c0` a continuation that returns to the current code
    /// with the stack below its `taken` top values, and leaves those values.
    fn push_return(&mut self, taken: usize, ret_args: Option<u16>)
        requires
            old(self).wf(),
            taken <= old(self).stack.items@.len(),
        ensures
            final(self).wf(),
            final(self).stack.items@ == top_of(old(self).stack.items@, taken as nat),
            final(self).cr.c@[0] is Some,
            returns_to(
                *final(self).cr.c@[0]->Some_0,
                *old(self),
                below_top(old(self).stack.items@, taken as nat),
                ret_args,
            ),
            forall|i: int| 1 <= i < 4 ==> #[trigger] final(self).cr.c@[i] == old(self).cr.c@[i],
            final(self).cr.d == old(self).cr.d,
            final(self).cr.c7 == old(self).cr.c7,
            final(self).gas == old(self).gas,
            final(self).steps == old(self).steps,
            final(self).cp == old(self).cp,
            final(self).commited_state == old(self).commited_state,
            final(self).quit0 == old(self).quit0,
            final(self).quit1 == old(self).quit1,
    {
        let args = self.stack.split_top(taken);
        let mut rest = Stack::new();
        std::mem::swap(&mut self.stack, &mut rest);
        self.stack = args;
        let mut code = CodeSlice::empty();
        std::mem::swap(&mut self.code, &mut code);
        let mut old_c0: Option<Rc<Cont>> = None;
        std::mem::swap(&mut self.cr.c[0], &mut old_c0);
        let mut ret = OrdCont::simple(code, self.cp.id());
        ret.data.nargs = ret_args;
        ret.data.stack = Some(Rc::new(rest));
        ret.data.save.c[0] = old_c0;
        self.cr.c[0] = Some(Rc::new(Cont::Ordinary(ret)));
    }

    /// Calls `cont` with `pass_args` values (all when `None`), expecting
    /// `ret_args` results back (any number when `None`).
    pub fn call_ext(&mut self, cont: Rc<Cont>, pass_args: Option<u16>, ret_args: Option<u16>) -> (r:
        Result<i32, VmError>)
        requires
            old(self).wf(),
        ensures
            final(self).wf(),
            calls_ext(*old(self), *final(self), *cont, pass_args, ret_args, r),
    {
        let depth = self.stack.depth();
        match &*cont {
            Cont::Ordinary(o) => {
                let cd = &o.data;
                if cd.save.c[0].is_some() {
                    return self.jump(cont);
                }
                let pa: usize = match pass_args {
                    Some(p) => p as usize,
                    None => 0,
                };
                let na: usize = match cd.nargs {
                    Some(n) => n as usize,
                    None => 0,
                };
                if pa > depth || na > depth {
                    return Err(VmError::StackUnderflow(if pa > na { pa } else { na }));
                }
                if let Some(p) = pass_args {
                    if na > p as usize {
                        return Err(VmError::StackUnderflow(p as usize));
                    }
                }
                let ghost before = *self;
                self.cr.preclear(&cd.save);
                let next: usize = match cd.nargs {
                    Some(n) => n as usize,
                    None => match pass_args {
                        Some(p) => p as usize,
                        None => depth,
                    },
                };
                let taken: usize = match pass_args {
                    Some(p) => p as usize,
                    None => next,
                };
                let ghost c0 = self.cr.c@[0];
                assert(c0 == before.cr.c@[0]);
                self.push_return(taken, ret_args);
                self.stack.drop_bottom(taken - next);
                let mut own = false;
                if let Some(saved) = &cd.stack {
                    if saved.depth() > 0 {
                        own = true;
                        let mut new_stack = saved.duplicate();
                        let n = self.stack.depth();
                        new_stack.move_from_stack(&mut self.stack, n);
                        self.stack = new_stack;
                    }
                }
                proof {
                    assert(self.stack.items@ =~= shaped_stack(
                        before.stack.items@,
                        match cd.stack {
                            Some(s) => Some(s.items@),
                            None => None,
                        },
                        next as nat,
                    ));
                }
            },
            _ => {
                let taken: usize = match pass_args {
                    Some(p) => {
                        if p as usize > depth {
                            return Err(VmError::StackUnderflow(p as usize));
                        }
                        p as usize
                    },
                    None => depth,
                };
                self.push_return(taken, ret_args);
            },
        }
        let ghost mid = *self;
        assert(prepared_call(*old(self), mid, *cont, pass_args, ret_args));
        let r = self.enter(cont);
        assert(enters(mid, *self, *cont, r));
        r
    }

    /// Calls `cont`: control returns to the current code when `cont`
    /// returns.
    pub fn call(&mut self, cont: Rc<Cont>) -> (r: Result<i32, VmError>)
        requires
            old(self).wf(),
        ensures
            final(self).wf(),
            saves_c0(*cont) ==> jumps(*old(self), *final(self), *cont, r),
            !saves_c0(*cont) && needs_shaping(*cont) ==> calls_ext(*old(self), *final(self), *cont, None, None, r),
            !saves_c0(*cont) && !needs_shaping(*cont) ==> exists|mid: VmState|
                mid.stack == old(self).stack && mid.cr.c@[0] is Some && (*mid.cr.c@[0]->Some_0 is Ordinary)
                    && (*mid.cr.c@[0]->Some_0)->Ordinary_0.code.bits() == old(self).code.bits()
                    && (*mid.cr.c@[0]->Some_0)->Ordinary_0.data.save.c@[0] == old(self).cr.c@[0]
                    && (*mid.cr.c@[0]->Some_0)->Ordinary_0.code.refs_view() == old(self).code.refs_view()
                    && (*mid.cr.c@[0]->Some_0)->Ordinary_0.data.cp == Some(old(self).cp.id)
                    && (*mid.cr.c@[0]->Some_0)->Ordinary_0.data.stack is None
                    && (*mid.cr.c@[0]->Some_0)->Ordinary_0.data.nargs is None
                    && mid.cr.c@[1] == old(self).cr.c@[1] && mid.cr.c@[2] == old(self).cr.c@[2]
                    && mid.cr.c@[3] == old(self).cr.c@[3] && mid.cr.d == old(self).cr.d
                    && mid.cr.c7 == old(self).cr.c7 && mid.gas == old(self).gas && mid.steps == old(self).steps
                    && mid.cp == old(self).cp && #[trigger] enters(mid, *final(self), *cont, r),
    {
        if let Some(cd) = cont.get_control_data() {
            if cd.save.c[0].is_some() {
                return self.jump(cont);
            }
            if cd.stack.is_some() || cd.nargs.is_some() {
                return self.call_ext(cont, None, None);
            }
        }
        let mut code = CodeSlice::empty();
        std::mem::swap(&mut self.code, &mut code);
        let mut old_c0: Option<Rc<Cont>> = None;
        std::mem::swap(&mut self.cr.c[0], &mut old_c0);
        let mut ret = OrdCont::simple(code, self.cp.id());
        ret.data.save.c[0] = old_c0;
        self.cr.c[0] = Some(Rc::new(Cont::Ordinary(ret)));
        let ghost mid = *self;
        let r = self.enter(cont);
        assert(enters(mid, *self, *cont, r));
        r
    }

    /// Captures the current continuation: code, the stack below the
    /// `stack_copy` top values (all when `None`), and the registers `mode`
    /// names. The copied values stay as the new stack.
    pub fn extract_cc(&mut self, mode: SaveCr, stack_copy: Option<u16>, nargs: Option<u16>) -> (r:
        Result<Rc<Cont>, VmError>)
        requires
            old(self).wf(),
        ensures
            final(self).wf(),
            over_passed(stack_copy, old(self).stack.items@.len()) ==> (r matches Err(
                VmError::StackUnderflow(_),
            )) && *final(self) == *old(self),
            !over_passed(stack_copy, old(self).stack.items@.len()) ==> r is Ok && ({
                let copied = next_depth(None, stack_copy, old(self).stack.items@.len());
                let k = *r->Ok_0;
                &&& final(self).stack.items@ == top_of(old(self).stack.items@, copied)
                &&& final(self).code.bits().len() == 0
                &&& final(self).code.refs_len() == 0
                &&& final(self).cr.c@[3] == old(self).cr.c@[3]
                &&& final(self).cr.d == old(self).cr.d
                &&& final(self).cr.c7 == old(self).cr.c7
                &&& final(self).cp == old(self).cp
                &&& k is Ordinary
                &&& k->Ordinary_0.data.cp == Some(old(self).cp.id)
                &&& k->Ordinary_0.code.refs_view() == old(self).code.refs_view()
                &&& k->Ordinary_0.code.bits() == old(self).code.bits()
                &&& k->Ordinary_0.data.nargs == nargs
                &&& k->Ordinary_0.data.stack is Some
                &&& k->Ordinary_0.data.stack->Some_0.items@ == below_top(old(self).stack.items@, copied)
                &&& k->Ordinary_0.data.save.c@[0] == if mode.bits & SAVE_C0 == SAVE_C0 {
                    old(self).cr.c@[0]
                } else {
                    None
                }
                &&& final(self).cr.c@[0] == if mode.bits & SAVE_C0 == SAVE_C0 {
                    Some(old(self).quit0)
                } else {
                    old(self).cr.c@[0]
                }
                &&& k->Ordinary_0.data.save.c@[1] == if mode.bits & SAVE_C1 == SAVE_C1 {
                    old(self).cr.c@[1]
                } else {
                    None
                }
                &&& final(self).cr.c@[1] == if mode.bits & SAVE_C1 == SAVE_C1 {
                    Some(old(self).quit1)
                } else {
                    old(self).cr.c@[1]
                }
                &&& k->Ordinary_0.data.save.c@[2] == if mode.bits & SAVE_C2 == SAVE_C2 {
                    old(self).cr.c@[2]
                } else {
                    None
                }
                &&& final(self).cr.c@[2] == if mode.bits & SAVE_C2 == SAVE_C2 {
                    None
                } else {
                    old(self).cr.c@[2]
                }
            }),
    {
        let depth = self.stack.depth();
        let copied: usize = match stack_copy {
            Some(n) => {
                if n as usize > depth {
                    return Err(VmError::StackUnderflow(n as usize));
                }
                n as usize
            },
            None => depth,
        };
        let new_stack = self.stack.split_top(copied);
        let mut rest = new_stack;
        std::mem::swap(&mut self.stack, &mut rest);
        let mut code = CodeSlice::empty();
        std::mem::swap(&mut self.code, &mut code);
        let mut res = OrdCont::simple(code, self.cp.id());
        res.data.nargs = nargs;
        res.data.stack = Some(Rc::new(rest));
        if mode.contains(SAVE_C0) {
            let mut k = Some(Rc::clone(&self.quit0));
            std::mem::swap(&mut self.cr.c[0], &mut k);
            res.data.save.c[0] = k;
        }
        if mode.contains(SAVE_C1) {
            let mut k = Some(Rc::clone(&self.quit1));
            std::mem::swap(&mut self.cr.c[1], &mut k);
            res.data.save.c[1] = k;
        }
        if mode.contains(SAVE_C2) {
            let mut k: Option<Rc<Cont>> = None;
            std::mem::swap(&mut self.cr.c[2], &mut k);
            res.data.save.c[2] = k;
        }
        Ok(Rc::new(Cont::Ordinary(res)))
    }

    /// An ordinary continuation over the cell `code` in the current code
    /// page; loading the cell is charged.
    pub fn ref_to_cont(&mut self, code: &Cell) -> (r: Result<Rc<Cont>, VmError>)
        requires
            old(self).wf(),
        ensures
            final(self).wf(),
            charged_load(old(self).gas, final(self).gas, hash_of(*code), match r {
                Ok(_) => Ok::<(), VmError>(()),
                Err(e) => Err::<(), VmError>(e),
            }),
            r is Ok ==> loaded_code(*r->Ok_0, *code, old(self).cp.id),
            final(self).stack == old(self).stack,
            final(self).code == old(self).code,
            final(self).cr == old(self).cr,
            final(self).cp == old(self).cp,
            final(self).steps == old(self).steps,
    {
        self.gas.load_cell(code, true)?;
        Ok(Rc::new(Cont::Ordinary(OrdCont::simple(CodeSlice::from_cell(code), self.cp.id()))))
    }
}

/// Builds the code page of the arithmetic family.
pub fn codepage0() -> (r: Result<DispatchTable, DispatchError>)
    ensures
        r is Ok,
        r matches Ok(t) ==> t.wf() && t.id == 0 && t.opcodes@ == filled(arith_opcodes(), 0),
{
    let mut t = DispatchTable::builder(0);
    Arithops.init(&mut t)?;
    Ok(t.build())
}

/// Settings of a machine to be built.
pub struct VmStateBuilder {
    pub code: CodeSlice,
    pub data: Option<Cell>,
    pub stack: Vec<StackValue>,
    pub c7: Option<Vec<StackValue>>,
    pub same_c3: bool,
    pub without_push0: bool,
    pub gas_limit: u64,
}

impl VmStateBuilder {
    /// No code, no data, an empty stack and the default gas limit.
    pub fn new() -> (r: VmStateBuilder)
        ensures
            r.code.bits().len() == 0,
            r.code.refs_len() == 0,
            r.data is None,
            r.stack@ == Seq::<StackValue>::empty(),
            r.c7 is None,
            !r.same_c3,
            !r.without_push0,
            r.gas_limit == DEFAULT_GAS_LIMIT,
    {
        VmStateBuilder {
            code: CodeSlice::empty(),
            data: None,
            stack: Vec::new(),
            c7: None,
            same_c3: false,
            without_push0: false,
            gas_limit: DEFAULT_GAS_LIMIT,
        }
    }

    /// Sets the code to run.
    pub fn with_code(self, code: CodeSlice) -> (r: VmStateBuilder)
        ensures
            r == (VmStateBuilder { code, ..self }),
    {
        VmStateBuilder { code, ..self }
    }

    /// Sets the data cell, installed in `c4`.
    pub fn with_data(self, data: Cell) -> (r: VmStateBuilder)
        ensures
            r == (VmStateBuilder { data: Some(data), ..self }),
    {
        VmStateBuilder { data: Some(data), ..self }
    }

    /// Installs the code itself as `c3`.
    pub fn with_same_c3(self) -> (r: VmStateBuilder)
        ensures
            r == (VmStateBuilder { same_c3: true, ..self }),
    {
        VmStateBuilder { same_c3: true, ..self }
    }

    /// Leaves out the `0` pushed at start when the code is also `c3`.
    pub fn without_push0(self) -> (r: VmStateBuilder)
        ensures
            r == (VmStateBuilder { without_push0: true, ..self }),
    {
        VmStateBuilder { without_push0: true, ..self }
    }

    /// Sets the initial stack, the last value on top.
    pub fn with_stack(self, values: Vec<StackValue>) -> (r: VmStateBuilder)
        ensures
            r == (VmStateBuilder { stack: values, ..self }),
    {
        VmStateBuilder { stack: values, ..self }
    }

    /// Pushes `value` on the initial stack.
    pub fn push(self, value: StackValue) -> (r: VmStateBuilder)
        ensures
            r.stack@ == self.stack@.push(value),
            r.code == self.code,
            r.data == self.data,
            r.c7 == self.c7,
            r.same_c3 == self.same_c3,
            r.without_push0 == self.without_push0,
            r.gas_limit == self.gas_limit,
    {
        self.push_raw(value)
    }

    /// Pushes `value` on the initial stack.
    pub fn push_raw(self, value: StackValue) -> (r: VmStateBuilder)
        ensures
            r.stack@ == self.stack@.push(value),
            r.code == self.code,
            r.data == self.data,
            r.c7 == self.c7,
            r.same_c3 == self.same_c3,
            r.without_push0 == self.without_push0,
            r.gas_limit == self.gas_limit,
    {
        let mut b = self;
        b.stack.push(value);
        b
    }

    /// Sets the `c7` tuple.
    pub fn with_c7(self, c7: Vec<StackValue>) -> (r: VmStateBuilder)
        ensures
            r == (VmStateBuilder { c7: Some(c7), ..self }),
    {
        VmStateBuilder { c7: Some(c7), ..self }
    }

    /// Sets the gas limit.
    pub fn with_gas_limit(self, limit: u64) -> (r: VmStateBuilder)
        ensures
            r == (VmStateBuilder { gas_limit: limit, ..self }),
    {
        VmStateBuilder { gas_limit: limit, ..self }
    }

    /// A machine ready to run: `c0`, `c1` quit with 0 and 1, `c2` rethrows,
    /// `c3` is the code itself or quits with 11, `c4` holds the data (or an
    /// empty cell) and `c5` an empty cell.
    pub fn build(self) -> (r: Result<VmState, DispatchError>)
        ensures
            r is Ok,
            r matches Ok(st) ==> {
                &&& st.wf()
                &&& st.steps == 0
                &&& st.code == self.code
                &&& st.commited_state is None
                &&& st.gas.gas_remaining == self.gas_limit
                &&& st.cp.id == 0
                &&& st.cp.opcodes@ == filled(arith_opcodes(), 0)
                &&& st.cr.c7 is Some
                &&& st.cr.c7->Some_0@ == match self.c7 {
                    Some(t) => t@,
                    None => Seq::<StackValue>::empty(),
                }
                &&& (self.data is None ==> st.cr.d@[0] == st.cr.d@[1])
                &&& is_empty_cell(st.cr.d@[1]->Some_0)
                &&& (self.same_c3 ==> (st.cr.c@[3] matches Some(k) && (*k is Ordinary) && (*k)->Ordinary_0.code.bits()
                    == self.code.bits() && (*k)->Ordinary_0.code.refs_view() == self.code.refs_view()
                    && (*k)->Ordinary_0.data.cp == Some(0u16) && (*k)->Ordinary_0.data.nargs is None
                    && (*k)->Ordinary_0.data.stack is None))
                &&& *st.quit0 == Cont::Quit(0)
                &&& *st.quit1 == Cont::Quit(1)
                &&& st.cr.c@[0] == Some(st.quit0)
                &&& st.cr.c@[1] == Some(st.quit1)
                &&& (st.cr.c@[2] matches Some(k) && *k == Cont::ExcQuit)
                &&& st.cr.c@[3] is Some
                &&& (!self.same_c3 ==> (st.cr.c@[3] matches Some(k) && *k == Cont::Quit(11)))
                &&& st.cr.d@[0] is Some
                &&& st.cr.d@[1] is Some
                &&& (self.data matches Some(d) ==> st.cr.d@[0] == Some(d))
                &&& st.stack.items@ == if self.same_c3 && !self.without_push0 {
                    self.stack@.push(st.stack.items@.last())
                } else {
                    self.stack@
                }
                &&& (self.same_c3 && !self.without_push0) ==> (st.stack.items@.last() matches StackValue::Int(z) && z.value() == 0)
            },
    {
        let mut stack = self.stack;
        if self.same_c3 && !self.without_push0 {
            proof { lemma_small_fits(0); }
            stack.push(StackValue::integer(IntValue::from_i64(0)));
        }
        let cp = codepage0()?;
        let quit0 = Rc::new(Cont::Quit(0));
        let quit1 = Rc::new(Cont::Quit(1));
        let c3 = if self.same_c3 {
            Rc::new(Cont::Ordinary(OrdCont::simple(self.code.duplicate(), cp.id())))
        } else {
            Rc::new(Cont::Quit(11))
        };
        let empty = empty_cell();
        let c4 = match self.data {
            Some(d) => d,
            None => clone_cell(&empty),
        };
        let c7 = match self.c7 {
            Some(t) => t,
            None => Vec::new(),
        };
        let cr = ControlRegs {
            c: [Some(Rc::clone(&quit0)), Some(Rc::clone(&quit1)), Some(Rc::new(Cont::ExcQuit)), Some(c3)],
            d: [Some(c4), Some(empty)],
            c7: Some(Rc::new(c7)),
        };
        Ok(VmState {
            code: self.code,
            stack: Stack::from_items(stack),
            cr,
            commited_state: None,
            steps: 0,
            quit0,
            quit1,
            gas: GasConsumer::new(self.gas_limit),
            cp: Rc::new(cp),
        })
    }
}

impl VmState {
    /// A builder with no code, no data and an empty stack.
    pub fn builder() -> (r: VmStateBuilder)
        ensures
            r.code.bits().len() == 0,
            r.code.refs_len() == 0,
            r.c7 is None,
            r.gas_limit == DEFAULT_GAS_LIMIT,
            r.data is None,
            r.stack@ == Seq::<StackValue>::empty(),
            !r.same_c3,
            !r.without_push0,
    {
        VmStateBuilder::new()
    }

    /// Runs one step: the next instruction when data bits remain, else an
    /// implicit jump to the first reference, else an implicit return. The
    /// implicit steps cost the base price of an instruction.
    pub fn step(&mut self) -> (r: Result<i32, VmError>)
        requires
            old(self).wf(),
            old(self).steps < u64::MAX,
        ensures
            final(self).wf(),
            steps_once(*old(self), *final(self), r),
    {
        self.steps = self.steps + 1;
        if self.code.size_bits() > 0 {
            let cp = Rc::clone(&self.cp);
            assert(*self == counted(*old(self)));
            cp.dispatch(self)
        } else if self.code.size_refs() > 0 {
            self.gas.try_consume(GAS_PER_INSTRUCTION)?;
            let next_cell = clone_cell(self.code.reference(0));
            let cont = self.ref_to_cont(&next_cell)?;
            let ghost mid = *self;
            let r = self.jump(cont);
            assert(jumps(mid, *self, *cont, r));
            r
        } else {
            self.gas.try_consume(GAS_PER_INSTRUCTION)?;
            let ghost mid0 = *self;
            let r = self.ret();
            proof {
                if mid0.cr.c@[0] is Some {
                    let k = mid0.cr.c@[0]->Some_0;
                    let mid = choose|mid: VmState|
                        same_but_stack_cr(mid0, mid) && mid.stack == mid0.stack && mid.cr.d == mid0.cr.d
                            && mid.cr.c7 == mid0.cr.c7 && mid.cr.c@ == mid0.cr.c@.update(0, Some(mid0.quit0))
                            && #[trigger] jumps(mid, *self, *k, r);
                }
            }
            r
        }
    }

    /// Runs until the machine stops and returns its exit code: the code of
    /// the quit continuation reached, or of the exception that could not be
    /// handled. Exit codes 0 and 1 commit `c4` and `c5`; when that fails the
    /// stack becomes `[0]` and the exit code is `CellOverflow`'s.
    pub fn run(&mut self) -> (r: i32)
        requires
            old(self).wf(),
        ensures
            final(self).wf(),
            runs(*old(self), *final(self), r),
            final(self).gas.gas_remaining <= old(self).gas.gas_remaining,
            (r == 0 || r == 1) ==> final(self).commited_state is Some,
            returns_normally(*old(self)) ==> r == 0 && final(self).commited_state == Some(
                CommitedState { c4: old(self).cr.d@[0]->Some_0, c5: old(self).cr.d@[1]->Some_0 },
            ),
    {
        let ghost mut first = true;
        let ghost mut trace: Seq<VmState> = seq![*self];
        loop
            invariant
                self.wf(),
                self.gas.gas_remaining <= old(self).gas.gas_remaining,
                first ==> *self == *old(self),
                !first ==> !returns_normally(*old(self)),
                trace.len() >= 1,
                trace[0] == *old(self),
                trace.last() == *self,
                forall|i: int| 0 <= i < trace.len() - 1 ==> #[trigger] one_round(trace[i], trace[i + 1], None),
            decreases u64::MAX - self.steps,
        {
            let ghost prev = *self;
            if self.steps >= u64::MAX - 1 {
                let r = VmError::Fatal.exception_code();
                proof { self.lemma_ends(trace, prev, r); }
                return r;
            }
            let stepped = self.step();
            let ghost s1 = *self;
            proof {
                if first && returns_normally(*old(self)) {
                    let k = old(self).cr.c@[0]->Some_0;
                    let mid = choose|mid: VmState|
                        mid.gas.gas_remaining == old(self).gas.gas_remaining - GAS_PER_INSTRUCTION
                            && mid.steps == old(self).steps + 1 && mid.stack == old(self).stack
                            && mid.cr.d == old(self).cr.d && mid.cr.c7 == old(self).cr.c7
                            && mid.cr.c@ == old(self).cr.c@.update(0, Some(old(self).quit0))
                            && mid.commited_state == old(self).commited_state
                            && #[trigger] jumps(mid, *self, *k, stepped);
                    assert(stepped == Ok::<i32, VmError>(!0i32));
                    assert(!0i32 != 0i32 && !(!0i32) == 0i32) by (bit_vector);
                    assert(commit_ok(self.cr));
                }
                first = false;
            }
            let (res, s_settle): (i32, Ghost<VmState>) = match stepped {
                Ok(res) => (res, Ghost(s1)),
                Err(e) => {
                    if let VmError::OutOfGas = e {
                        let r = VmError::OutOfGas.exception_code();
                        proof {
                            assert(after_step(s1, stepped, *self, Some(r)));
                            self.lemma_ends(trace, prev, r);
                        }
                        return r;
                    }
                    self.steps = self.steps + 1;
                    let ecode = e.exception_code();
                    let ghost mid0 = *self;
                    assert(mid0 == counted(s1));
                    let thrown_r = self.throw_exception(ecode);
                    let ghost s2 = *self;
                    assert(throws(counted(s1), s2, exception_code_of(e), thrown_r));
                    proof {
                        if mid0.cr.c@[2] is Some {
                            let k = mid0.cr.c@[2]->Some_0;
                            let mid = choose|mid: VmState| thrown(mid0, mid, ecode) && is_int(mid.stack.items@[0], 0) && #[trigger] jumps(mid, *self, *k, thrown_r);
                        }
                    }
                    match thrown_r {
                        Ok(res) => (res, Ghost(s2)),
                        Err(e2) => {
                            let r = e2.exception_code();
                            proof {
                                assert(after_step(s1, stepped, *self, Some(r)));
                                self.lemma_ends(trace, prev, r);
                            }
                            return r;
                        },
                    }
                },
            };
            assert(*self == s_settle@);
            if res != 0 {
                let code = !res;
                if code == 0 || code == 1 {
                    if !self.try_commit() {
                        let mut items: Vec<StackValue> = Vec::new();
                        proof { lemma_small_fits(0); }
                        items.push(StackValue::integer(IntValue::from_i64(0)));
                        self.stack = Stack::from_items(items);
                        let r = VmError::CellOverflow.exception_code();
                        proof {
                            assert(settles(s_settle@, res, *self, Some(r)));
                            assert(after_step(s1, stepped, *self, Some(r)));
                            self.lemma_ends(trace, prev, r);
                        }
                        return r;
                    }
                }
                proof {
                    assert(settles(s_settle@, res, *self, Some(code)));
                    assert(after_step(s1, stepped, *self, Some(code)));
                    self.lemma_ends(trace, prev, code);
                }
                return code;
            }
            proof {
                assert(settles(s_settle@, res, *self, None));
                assert(after_step(s1, stepped, *self, None));
                assert(one_round(prev, *self, None));
                let old_trace = trace;
                trace = trace.push(*self);
                assert forall|i: int| 0 <= i < trace.len() - 1 implies #[trigger] one_round(trace[i], trace[i + 1], None) by {
                    if i < old_trace.len() - 1 {
                        assert(trace[i] == old_trace[i] && trace[i + 1] == old_trace[i + 1]);
                    }
                }
            }
        }
    }
}

impl VmState {
    /// A run whose rounds led from `trace[0]` to `prev` ends at `self`.
    proof fn lemma_ends(&self, trace: Seq<VmState>, prev: VmState, r: i32)
        requires
            trace.len() >= 1,
            trace.last() == prev,
            forall|i: int| 0 <= i < trace.len() - 1 ==> #[trigger] one_round(trace[i], trace[i + 1], None),
            one_round(prev, *self, Some(r)),
        ensures
            runs(trace[0], *self, r),
    {
        let t = trace.push(*self);
        assert(t[0] == trace[0]);
        assert(t[t.len() - 2] == prev);
        assert forall|i: int| 0 <= i < t.len() - 2 implies #[trigger] one_round(t[i], t[i + 1], None) by {
            assert(t[i] == trace[i] && t[i + 1] == trace[i + 1]);
        }
    }
}

/// How a step result `res` from `s` settles, leaving `t`: zero goes on;
/// exit codes 0 and 1 commit, or end with `CellOverflow` and `[0]` when the
/// commit fails; other codes end as they are.
pub open spec fn settles(s: VmState, res: i32, t: VmState, out: Option<i32>) -> bool {
    if res == 0 {
        out is None && t == s
    } else if !res == 0 || !res == 1 {
        if commit_ok(s.cr) {
            &&& out == Some(!res)
            &&& t.commited_state == Some(
                CommitedState { c4: s.cr.d@[0]->Some_0, c5: s.cr.d@[1]->Some_0 },
            )
            &&& t.stack == s.stack
            &&& t.cr == s.cr
            &&& t.code == s.code
            &&& t.gas == s.gas
            &&& t.steps == s.steps
            &&& t.cp == s.cp
        } else {
            &&& out == Some(8i32)
            &&& t.stack.items@.len() == 1
            &&& is_int(t.stack.items@[0], 0)
            &&& t.commited_state == s.commited_state
            &&& t.cr == s.cr
            &&& t.code == s.code
            &&& t.gas == s.gas
            &&& t.steps == s.steps
            &&& t.cp == s.cp
        }
    } else {
        out == Some(!res) && t == s
    }
}

/// What follows a step that left `s1` with result `sr`: running out of gas
/// ends with its code; another error is thrown, and a second error while
/// throwing ends with that error's code.
pub open spec fn after_step(s1: VmState, sr: Result<i32, VmError>, t: VmState, out: Option<i32>) -> bool {
    match sr {
        Ok(res) => settles(s1, res, t, out),
        Err(e) => if e == VmError::OutOfGas {
            out == Some(13i32) && t == s1
        } else {
            exists|s2: VmState, tr: Result<i32, VmError>|
                #[trigger] throws(counted(s1), s2, exception_code_of(e), tr) && match tr {
                    Ok(res) => settles(s2, res, t, out),
                    Err(e2) => out == Some(exception_code_of(e2)) && t == s2,
                }
        },
    }
}

/// One round of `run` from `s` to `t`: a step and what follows it. `out`
/// is the exit code when the round ends the run.
pub open spec fn one_round(s: VmState, t: VmState, out: Option<i32>) -> bool {
    if s.steps >= u64::MAX - 1 {
        out == Some(12i32) && t == s
    } else {
        exists|s1: VmState, sr: Result<i32, VmError>| #[trigger] steps_once(s, s1, sr) && after_step(s1, sr, t, out)
    }
}

/// `run` from `s` ends at `f` with exit code `r`: a finite sequence of
/// rounds that go on, and a last one that ends with `r`.
pub open spec fn runs(s: VmState, f: VmState, r: i32) -> bool {
    exists|trace: Seq<VmState>|
        trace.len() >= 2 && trace[0] == s && trace.last() == f && (forall|i: int|
            0 <= i < trace.len() - 2 ==> #[trigger] one_round(trace[i], trace[i + 1], None))
            && #[trigger] one_round(trace[trace.len() - 2], f, Some(r))
}

/// `s` has nothing left to run and returns to `c0`, which quits with 0,
/// with `c4` and `c5` fit to be committed.
pub open spec fn returns_normally(s: VmState) -> bool {
    &&& s.code.bits().len() == 0
    &&& s.code.refs_len() == 0
    &&& s.gas.gas_remaining >= GAS_PER_INSTRUCTION
    &&& s.steps < u64::MAX - 1
    &&& s.cr.c@[0] matches Some(k) && *k == Cont::Quit(0)
    &&& commit_ok(s.cr)
}

/// `s` with one more step counted.
pub open spec fn counted(s: VmState) -> VmState {
    VmState { steps: (s.steps + 1) as u64, ..s }
}

/// What one step from `before` to `after` with outcome `r` keeps: the step
/// counter grows by one, gas never grows, and a step that does not run out
/// of gas pays at least the base price.
pub open spec fn steps_to(before: VmState, after: VmState, r: Result<i32, VmError>) -> bool {
    &&& after.steps == before.steps + 1
    &&& after.cp == before.cp
    &&& after.gas.gas_remaining <= before.gas.gas_remaining
    &&& r != Err::<i32, VmError>(VmError::OutOfGas) ==> after.gas.gas_remaining + GAS_PER_INSTRUCTION
        <= before.gas.gas_remaining
}

/// Over a run of steps none of which runs out of gas, the remaining gas never grows and falls by at least the base
/// price per step.
pub proof fn lemma_gas_monotone(states: Seq<VmState>, results: Seq<Result<i32, VmError>>)
    requires
        states.len() == results.len() + 1,
        forall|i: int| 0 <= i < results.len() ==> #[trigger] steps_to(states[i], states[i + 1], results[i]),
        forall|i: int| 0 <= i < results.len() ==> #[trigger] results[i] != Err::<i32, VmError>(VmError::OutOfGas),
    ensures
        forall|i: int, j: int| 0 <= i <= j < states.len() ==> (#[trigger] states[j]).gas.gas_remaining
            + GAS_PER_INSTRUCTION * (j - i) <= (#[trigger] states[i]).gas.gas_remaining,
    decreases results.len(),
{
    if results.len() > 0 {
        let n = results.len() - 1;
        lemma_gas_monotone(states.drop_last(), results.drop_last());
        assert forall|i: int, j: int| 0 <= i <= j < states.len() implies (#[trigger] states[j]).gas.gas_remaining
            + GAS_PER_INSTRUCTION * (j - i) <= (#[trigger] states[i]).gas.gas_remaining by {
            if j == states.len() - 1 && i < j {
                assert(states.drop_last()[i] == states[i]);
                assert(states.drop_last()[n] == states[n]);
                assert(steps_to(states[n], states[n + 1], results[n]));
                assert(results[n] != Err::<i32, VmError>(VmError::OutOfGas));
            } else if i < j {
                assert(states.drop_last()[i] == states[i]);
                assert(states.drop_last()[j] == states[j]);
            }
        }
    }
}

/// `k` is an ordinary continuation with no control data but the code page
/// `cp`, over all bits and references of the cell `code`.
pub open spec fn loaded_code(k: Cont, code: Cell, cp: u16) -> bool {
    &&& k is Ordinary
    &&& k->Ordinary_0.data.nargs is None
    &&& k->Ordinary_0.data.stack is None
    &&& k->Ordinary_0.data.save.is_empty()
    &&& k->Ordinary_0.data.cp == Some(cp)
    &&& k->Ordinary_0.code.refs_view() == refs_of(code)
    &&& bit_len_of(code) <= 8 * data_of(code).len() ==> k->Ordinary_0.code.bits() == Seq::new(
        bit_len_of(code) as nat,
        |i: int| crate::code::bit_at(data_of(code), i),
    )
}

/// `c` is a cell without bits or references, of level 0 and depth 0.
pub open spec fn is_empty_cell(c: Cell) -> bool {
    &&& level_of(c) == 0
    &&& depth_of(c) == 0
    &&& bit_len_of(c) == 0
    &&& data_of(c).len() == 0
    &&& refs_of(c).len() == 0
}

/// The outcome `r`, `after` of one `step` from `before`.
pub open spec fn steps_once(before: VmState, after: VmState, r: Result<i32, VmError>) -> bool {
    &&& (steps_to(before, after, r))
    &&& (before.code.bits().len() > 0 ==> exists|i: int|
            0 <= i < before.cp.opcodes@.len() && before.cp.opcodes@[i].contains(
                opcode_word(before.code.bits()),
            ) && #[trigger] dispatches(
                before.cp.opcodes@[i],
                counted(before),
                after,
                opcode_word(before.code.bits()),
                opcode_len(before.code.bits()) as u16,
                r,
            ))
    &&& (before.code.bits().len() == 0 && before.gas.gas_remaining < GAS_PER_INSTRUCTION
            ==> r == Err::<i32, VmError>(VmError::OutOfGas))
    &&& (before.code.bits().len() == 0 && before.code.refs_len() > 0 && r != Err::<i32, VmError>(
        VmError::OutOfGas,
    ) ==> exists|mid: VmState, k: Cont|
            loaded_code(k, before.code.refs_view()[0], before.cp.id) && mid.stack
                == before.stack && mid.cr == before.cr && mid.steps == before.steps + 1
                && mid.gas.gas_remaining == before.gas.gas_remaining - GAS_PER_INSTRUCTION
                - load_price(before.gas.loaded(), hash_of(before.code.refs_view()[0]))
                && #[trigger] jumps(mid, after, k, r))
    &&& (before.code.bits().len() == 0 && before.code.refs_len() == 0
            && before.gas.gas_remaining >= GAS_PER_INSTRUCTION ==> match before.cr.c@[0] {
            Some(k) => exists|mid: VmState|
                mid.gas.gas_remaining == before.gas.gas_remaining - GAS_PER_INSTRUCTION
                    && mid.steps == before.steps + 1 && mid.stack == before.stack
                    && mid.cr.d == before.cr.d && mid.cr.c7 == before.cr.c7
                    && mid.cr.c@ == before.cr.c@.update(0, Some(before.quit0))
                    && mid.commited_state == before.commited_state
                    && #[trigger] jumps(mid, after, *k, r),
            None => r == Err::<i32, VmError>(VmError::InvalidOpcode),
        })
}

/// The outcome `r`, `after` of throwing exception `n` from `before`.
pub open spec fn throws(before: VmState, after: VmState, n: i32, r: Result<i32, VmError>) -> bool {
    &&& (before.cr.c@[2] is None ==> r == Err::<i32, VmError>(VmError::InvalidOpcode)
            && thrown(before, after, n))
    &&& (before.cr.c@[2] matches Some(k) ==> exists|mid: VmState|
            thrown(before, mid, n) && is_int(mid.stack.items@[0], 0) && #[trigger] jumps(
                mid,
                after,
                *k,
                r,
            ))
}

/// `v` is the integer `x`.
pub open spec fn is_int(v: StackValue, x: int) -> bool {
    v matches StackValue::Int(w) && w.value() == x
}

/// `mid` is `before` after an exception `n` was raised: a stack of two
/// values with `n` on top, no code, the rest kept.
pub open spec fn thrown(before: VmState, mid: VmState, n: i32) -> bool {
    &&& mid.stack.items@.len() == 2
    &&& is_int(mid.stack.items@[1], n as int)
    &&& mid.code.bits().len() == 0
    &&& mid.code.refs_len() == 0
    &&& mid.cr == before.cr
    &&& mid.gas == before.gas
    &&& mid.steps == before.steps
    &&& mid.cp == before.cp
    &&& mid.commited_state == before.commited_state
    &&& mid.quit0 == before.quit0
    &&& mid.quit1 == before.quit1
}

/// `c4` and `c5` are set, of level 0 and of depth at most 512.
pub open spec fn commit_ok(cr: ControlRegs) -> bool {
    &&& cr.d@[0] is Some
    &&& cr.d@[1] is Some
    &&& level_of(cr.d@[0]->Some_0) == 0
    &&& level_of(cr.d@[1]->Some_0) == 0
    &&& depth_of(cr.d@[0]->Some_0) <= MAX_DATA_DEPTH
    &&& depth_of(cr.d@[1]->Some_0) <= MAX_DATA_DEPTH
}

/// The outcome `r`, `after` of `try_commit` from `before`: success stores
/// `c4` and `c5` as the committed state, failure leaves it as it was, and
/// a missing register means failure.
pub open spec fn commits(before: VmState, after: VmState, r: bool) -> bool {
    &&& r == commit_ok(before.cr)
    &&& r ==> before.cr.d@[0] is Some && before.cr.d@[1] is Some && after.commited_state == Some(
        CommitedState { c4: before.cr.d@[0]->Some_0, c5: before.cr.d@[1]->Some_0 },
    )
    &&& !r ==> after.commited_state == before.commited_state
    &&& (before.cr.d@[0] is None || before.cr.d@[1] is None) ==> !r
}

/// After a successful commit, a second one with `c4` and `c5` unchanged
/// succeeds again and leaves the same committed cells.
pub proof fn lemma_commit_idempotent(s0: VmState, s1: VmState, s2: VmState, r1: bool, r2: bool)
    requires
        commits(s0, s1, r1),
        r1,
        s1.cr.d == s0.cr.d,
        commits(s1, s2, r2),
    ensures
        r2,
        s2.commited_state == s1.commited_state,
        s2.commited_state == Some(CommitedState { c4: s0.cr.d@[0]->Some_0, c5: s0.cr.d@[1]->Some_0 }),
{
}

/// After `jump_ext` into an ordinary continuation without a non-empty stack
/// of its own, the stack holds exactly `nargs`, else `pass_args`, else all
/// of the previous values.
pub proof fn lemma_jump_depth(
    before: VmState,
    after: VmState,
    cont: Cont,
    pass_args: Option<u16>,
    r: Result<i32, VmError>,
)
    requires
        jumps_ext(before, after, cont, pass_args, r),
        cont is Ordinary,
        cont->Ordinary_0.data.stack matches Some(s) ==> s.items@.len() == 0,
        r is Ok,
    ensures
        after.stack.items@.len() == next_depth(
            cont->Ordinary_0.data.nargs,
            pass_args,
            before.stack.items@.len(),
        ),
{
    let mid = choose|mid: VmState| shaped_for(before, mid, cont, pass_args) && #[trigger] enters(mid, after, cont, r);
    let o = cont->Ordinary_0;
    assert(args_ok(o.data.nargs, pass_args, before.stack.items@.len()));
}

/// Every registered range stands in the filled table.
pub proof fn lemma_filled_contains(s: Seq<Opcode>, upto: u32, k: int)
    requires
        0 <= k < s.len(),
    ensures
        exists|j: int| 0 <= j < filled(s, upto).len() && #[trigger] filled(s, upto)[j] == s[k],
    decreases s.len(),
{
    let f = filled(s, upto);
    let rest = filled(s.drop_first(), s[0].opcode_max);
    let h = if s[0].opcode_min > upto { 2int } else { 1int };
    assert(f.len() == h + rest.len());
    if k == 0 {
        assert(f[h - 1] == s[0]);
    } else {
        lemma_filled_contains(s.drop_first(), s[0].opcode_max, k - 1);
        let j = choose|j: int| 0 <= j < rest.len() && #[trigger] rest[j] == s.drop_first()[k - 1];
        assert(f[h + j] == rest[j]);
    }
}

/// On the built code page, a step whose next opcode word is the shortest
/// `PUSHINT x` of 16 bits or fewer pushes `x`.
pub proof fn lemma_step_pushint(before: VmState, after: VmState, r: Result<i32, VmError>, x: int)
    requires
        -32768 <= x < 32768,
        before.wf(),
        before.cp.opcodes@ == filled(arith_opcodes(), 0),
        opcode_word(before.code.bits()) == pushint_opcode(x),
        before.code.bits().len() >= pushint_handler(x).1,
        before.gas.gas_remaining >= GAS_PER_INSTRUCTION + pushint_handler(x).1,
        exists|i: int|
            0 <= i < before.cp.opcodes@.len() && before.cp.opcodes@[i].contains(
                opcode_word(before.code.bits()),
            ) && #[trigger] dispatches(
                before.cp.opcodes@[i],
                counted(before),
                after,
                opcode_word(before.code.bits()),
                opcode_len(before.code.bits()) as u16,
                r,
            ),
    ensures
        r == Ok::<i32, VmError>(0),
        pushed_int(before.stack.items@, after.stack.items@, x),
{
    let t = before.cp.opcodes@;
    let w = opcode_word(before.code.bits());
    let k: int = if -5 <= x <= 10 { 0 } else if -128 <= x < 128 { 1 } else { 2 };
    let a = arith_opcodes();
    assert(a[k] == int_const_opcodes()[k]);
    lemma_filled_contains(a, 0, k);
    let j = choose|j: int| 0 <= j < t.len() && #[trigger] t[j] == a[k];
    assert(t[j].contains(w));
    let i = choose|i: int|
        0 <= i < t.len() && t[i].contains(w) && #[trigger] dispatches(
            t[i],
            counted(before),
            after,
            w,
            opcode_len(before.code.bits()) as u16,
            r,
        );
    crate::dispatch::lemma_cover_unique(t, w, i, j);
    assert(i == j);
    lemma_pushint_round_trip(x, before.stack.items@, after.stack.items@, r);
}

/// The filled table ends with a filler from the end of the last range.
pub proof fn lemma_filled_last(s: Seq<Opcode>, upto: u32)
    requires
        s.len() > 0 ==> s.last().opcode_max < MAX_OPCODE,
        s.len() == 0 ==> upto < MAX_OPCODE,
    ensures
        filled(s, upto).len() > 0,
        filled(s, upto).last() == dummy(if s.len() == 0 { upto } else { s.last().opcode_max }, MAX_OPCODE),
    decreases s.len(),
{
    if s.len() > 0 {
        let rest = s.drop_first();
        if rest.len() > 0 {
            assert(rest.last() == s.last());
        }
        lemma_filled_last(rest, s[0].opcode_max);
    }
}

/// On the built code page, a step whose next opcode word lies above every
/// registered range fails with `InvalidOpcode` and costs exactly the base
/// price.
pub proof fn lemma_step_unknown(before: VmState, after: VmState, r: Result<i32, VmError>)
    requires
        before.wf(),
        before.cp.opcodes@ == filled(arith_opcodes(), 0),
        opcode_word(before.code.bits()) >= 0xb7a900,
        before.gas.gas_remaining >= GAS_PER_INSTRUCTION,
        exists|i: int|
            0 <= i < before.cp.opcodes@.len() && before.cp.opcodes@[i].contains(
                opcode_word(before.code.bits()),
            ) && #[trigger] dispatches(
                before.cp.opcodes@[i],
                counted(before),
                after,
                opcode_word(before.code.bits()),
                opcode_len(before.code.bits()) as u16,
                r,
            ),
    ensures
        r == Err::<i32, VmError>(VmError::InvalidOpcode),
        after.gas.gas_remaining == before.gas.gas_remaining - GAS_PER_INSTRUCTION,
{
    let t = before.cp.opcodes@;
    let w = opcode_word(before.code.bits());
    let a = arith_opcodes();
    assert(a.last() == quiet_opcodes().last());
    lemma_filled_last(a, 0);
    let j = t.len() - 1;
    assert(t[j].contains(w));
    let i = choose|i: int|
        0 <= i < t.len() && t[i].contains(w) && #[trigger] dispatches(
            t[i],
            counted(before),
            after,
            w,
            opcode_len(before.code.bits()) as u16,
            r,
        );
    crate::dispatch::lemma_cover_unique(t, w, i, j);
}

/// The code bytes of the shortest `PUSHINT x` of 16 bits or fewer.
pub open spec fn pushint_bytes(x: int) -> Seq<u8> {
    if -5 <= x <= 10 {
        seq![(0x70 + (x + 16) % 16) as u8]
    } else if -128 <= x < 128 {
        seq![0x80u8, ((x + 256) % 256) as u8]
    } else {
        let v = (x + 65536) % 65536;
        seq![0x81u8, (v / 256) as u8, (v % 256) as u8]
    }
}

/// On the built code page, a step over code that holds exactly the bytes
/// of the shortest `PUSHINT x` pushes `x`.
pub proof fn lemma_step_pushint_bytes(before: VmState, after: VmState, r: Result<i32, VmError>, x: int)
    requires
        -32768 <= x < 32768,
        before.wf(),
        before.cp.opcodes@ == filled(arith_opcodes(), 0),
        before.code.bits() == Seq::new(
            (8 * pushint_bytes(x).len()) as nat,
            |i: int| crate::code::bit_at(pushint_bytes(x), i),
        ),
        before.gas.gas_remaining >= GAS_PER_INSTRUCTION + 8 * pushint_bytes(x).len(),
        steps_once(before, after, r),
    ensures
        r == Ok::<i32, VmError>(0),
        pushed_int(before.stack.items@, after.stack.items@, x),
{
    let d = pushint_bytes(x);
    let k = d.len() as int;
    let bits = before.code.bits();
    crate::code::lemma_bytes_bits(d, k);
    assert(d.subrange(0, k) =~= d);
    assert(bits.subrange(0, 8 * k) =~= bits);
    lemma2_to64();
    assert(d.drop_last().len() < 3);
    if k == 1 {
        assert(d.drop_last() =~= Seq::<u8>::empty());
        assert(crate::code::bytes_value(d.drop_last()) == 0);
        assert(d.last() == d[0]);
        assert(crate::code::bytes_value(d) == d[0]);
        assert(pow2(16) == 0x10000);
        assert(d[0] == 0x70 + (x + 16) % 16);
        assert(opcode_len(bits) == 8);
        assert(opcode_word(bits) == ((0x70 + (x + 16) % 16) * 0x10000) as u32);
    } else if k == 2 {
        let d1 = d.drop_last();
        assert(d1.drop_last() =~= Seq::<u8>::empty());
        assert(crate::code::bytes_value(d1.drop_last()) == 0);
        assert(d1.last() == d[0] && d.last() == d[1]);
        assert(crate::code::bytes_value(d1) == d[0]);
        assert(crate::code::bytes_value(d) == d[0] * 256 + d[1]);
        assert(pow2(8) == 0x100);
        assert(d[0] == 0x80 && d[1] == (x + 256) % 256);
        assert(opcode_len(bits) == 16);
        assert(opcode_word(bits) == ((0x8000 + (x + 256) % 256) * 0x100) as u32);
    } else {
        let v = (x + 65536) % 65536;
        vstd::arithmetic::div_mod::lemma_fundamental_div_mod(v, 256);
        let d1 = d.drop_last();
        let d2 = d1.drop_last();
        assert(d2.drop_last() =~= Seq::<u8>::empty());
        assert(crate::code::bytes_value(d2.drop_last()) == 0);
        assert(d2.last() == d[0] && d1.last() == d[1] && d.last() == d[2]);
        assert(crate::code::bytes_value(d2) == d[0]);
        assert(crate::code::bytes_value(d1) == d[0] * 256 + d[1]);
        assert(crate::code::bytes_value(d) == (d[0] * 256 + d[1]) * 256 + d[2]);
        assert(pow2(0) == 1);
        assert(d[0] == 0x81 && d[1] == v / 256 && d[2] == v % 256);
        assert(opcode_len(bits) == 24);
        assert(opcode_word(bits) == (0x810000 + v) as u32);
    }
    assert(opcode_word(bits) == pushint_opcode(x));
    lemma_step_pushint(before, after, r, x);
}

} // verus!
