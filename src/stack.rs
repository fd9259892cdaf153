use everscale_types::cell::Cell;
use std::rc::Rc;
use vstd::prelude::*;

use crate::cell::clone_cell;
use crate::cont::Cont;
use crate::error::VmError;
use crate::integer::{fits_int257, IntValue};

verus! {

/// A value held by a stack slot.
pub enum StackValue {
    Int(Rc<IntValue>),
    Nan,
    Cell(Cell),
    Cont(Rc<Cont>),
    Tuple(Rc<Vec<StackValue>>),
}

impl StackValue {
    /// A copy of this value, sharing what it refers to.
    pub fn duplicate(&self) -> (r: StackValue)
        ensures
            r == *self,
    {
        match self {
            StackValue::Int(x) => StackValue::Int(Rc::clone(x)),
            StackValue::Nan => StackValue::Nan,
            StackValue::Cell(c) => StackValue::Cell(clone_cell(c)),
            StackValue::Cont(k) => StackValue::Cont(Rc::clone(k)),
            StackValue::Tuple(t) => StackValue::Tuple(Rc::clone(t)),
        }
    }

    /// The integer `x`, which must fit a stack slot.
    pub fn integer(x: IntValue) -> (r: StackValue)
        requires
            fits_int257(x.value()),
        ensures
            r matches StackValue::Int(v) && v.value() == x.value(),
    {
        StackValue::Int(Rc::new(x))
    }
}

/// `after` is `before` with the integer `x` pushed on top.
pub open spec fn pushed_int(before: Seq<StackValue>, after: Seq<StackValue>, x: int) -> bool {
    &&& after.len() == before.len() + 1
    &&& after.drop_last() == before
    &&& after.last() matches StackValue::Int(v) && v.value() == x
}

/// A slot holds no integer outside the 257-bit range.
pub open spec fn slot_ok(v: StackValue) -> bool {
    match v {
        StackValue::Int(w) => fits_int257(w.value()),
        _ => true,
    }
}

/// Every slot of `s` is within range.
pub open spec fn stack_ok(s: Seq<StackValue>) -> bool {
    forall|i: int| 0 <= i < s.len() ==> slot_ok(#[trigger] s[i])
}

/// An ordered sequence of values; the last item is the top.
pub struct Stack {
    pub items: Vec<StackValue>,
}

impl Stack {
    /// The empty stack.
    pub fn new() -> (r: Stack)
        ensures
            r.items@ == Seq::<StackValue>::empty(),
    {
        Stack { items: Vec::new() }
    }

    /// A stack holding `items`, the last one on top.
    pub fn from_items(items: Vec<StackValue>) -> (r: Stack)
        ensures
            r.items@ == items@,
    {
        Stack { items }
    }

    /// A copy of this stack, sharing what its values refer to.
    pub fn duplicate(&self) -> (r: Stack)
        ensures
            r.items@ == self.items@,
    {
        let mut items: Vec<StackValue> = Vec::new();
        let mut i: usize = 0;
        while i < self.items.len()
            invariant
                i <= self.items@.len(),
                items@ == self.items@.subrange(0, i as int),
            decreases self.items@.len() - i,
        {
            items.push(self.items[i].duplicate());
            i += 1;
            assert(items@ =~= self.items@.subrange(0, i as int));
        }
        assert(items@ =~= self.items@);
        Stack { items }
    }

    /// Number of values on the stack.
    pub fn depth(&self) -> (r: usize)
        ensures
            r == self.items@.len(),
    {
        self.items.len()
    }

    /// Pushes `v` on top.
    pub fn push(&mut self, v: StackValue)
        ensures
            final(self).items@ == old(self).items@.push(v),
    {
        self.items.push(v);
    }

    /// Pushes NaN on top.
    pub fn push_nan(&mut self)
        ensures
            final(self).items@ == old(self).items@.push(StackValue::Nan),
    {
        self.items.push(StackValue::Nan);
    }

    /// Pushes `x` if it fits a stack slot; otherwise pushes NaN when
    /// `quiet` is set, and fails with `IntegerOverflow` when not.
    pub fn push_raw_int(&mut self, x: IntValue, quiet: bool) -> (r: Result<(), VmError>)
        ensures
            fits_int257(x.value()) ==> r is Ok && pushed_int(old(self).items@, final(self).items@, x.value()),
            !fits_int257(x.value()) && quiet ==> r is Ok && final(self).items@ == old(
                self,
            ).items@.push(StackValue::Nan),
            !fits_int257(x.value()) && !quiet ==> r == Err::<(), VmError>(VmError::IntegerOverflow)
                && final(self).items@ == old(self).items@,
    {
        if x.fits_257() {
            self.items.push(StackValue::integer(x));
            assert(self.items@.drop_last() =~= old(self).items@);
            Ok(())
        } else if quiet {
            self.items.push(StackValue::Nan);
            Ok(())
        } else {
            Err(VmError::IntegerOverflow)
        }
    }

    /// Pushes `x`, or fails with `IntegerOverflow` if it does not fit.
    pub fn push_int(&mut self, x: IntValue) -> (r: Result<(), VmError>)
        ensures
            fits_int257(x.value()) ==> r is Ok && pushed_int(old(self).items@, final(self).items@, x.value()),
            !fits_int257(x.value()) ==> r == Err::<(), VmError>(VmError::IntegerOverflow)
                && final(self).items@ == old(self).items@,
    {
        self.push_raw_int(x, false)
    }

    /// Pops the top value if it is an integer (`Some`) or NaN (`None`).
    /// Fails with `StackUnderflow` on an empty stack and `TypeCheckError`
    /// on another value, leaving the stack as it was.
    pub fn pop_int_or_nan(&mut self) -> (r: Result<Option<Rc<IntValue>>, VmError>)
        ensures
            old(self).items@.len() == 0 ==> r == Err::<Option<Rc<IntValue>>, VmError>(
                VmError::StackUnderflow(1),
            ),
            old(self).items@.len() > 0 ==> match old(self).items@.last() {
                StackValue::Int(v) => r == Ok::<Option<Rc<IntValue>>, VmError>(Some(v)),
                StackValue::Nan => r == Ok::<Option<Rc<IntValue>>, VmError>(None),
                _ => r == Err::<Option<Rc<IntValue>>, VmError>(VmError::TypeCheckError),
            },
            r is Ok ==> final(self).items@ == old(self).items@.drop_last(),
            r is Err ==> final(self).items@ == old(self).items@,
    {
        let n = self.items.len();
        if n == 0 {
            return Err(VmError::StackUnderflow(1));
        }
        match &self.items[n - 1] {
            StackValue::Int(_) => {},
            StackValue::Nan => {},
            _ => {
                return Err(VmError::TypeCheckError);
            },
        }
        match self.items.pop() {
            Some(StackValue::Int(v)) => Ok(Some(v)),
            _ => Ok(None),
        }
    }

    /// Removes the `n` bottom values.
    pub fn drop_bottom(&mut self, n: usize)
        requires
            n <= old(self).items@.len(),
        ensures
            final(self).items@ == old(self).items@.subrange(n as int, old(self).items@.len() as int),
    {
        let rest = self.items.split_off(n);
        self.items = rest;
    }

    /// Moves the `n` top values into a new stack, keeping their order.
    pub fn split_top(&mut self, n: usize) -> (r: Stack)
        requires
            n <= old(self).items@.len(),
        ensures
            final(self).items@ == old(self).items@.subrange(0, old(self).items@.len() - n),
            r.items@ == old(self).items@.subrange(old(self).items@.len() - n, old(self).items@.len() as int),
    {
        let at = self.items.len() - n;
        let top = self.items.split_off(at);
        Stack { items: top }
    }

    /// Moves the `n` top values of `other` onto this stack, keeping their
    /// order.
    pub fn move_from_stack(&mut self, other: &mut Stack, n: usize)
        requires
            n <= old(other).items@.len(),
        ensures
            final(self).items@ == old(self).items@ + old(other).items@.subrange(
                old(other).items@.len() - n,
                old(other).items@.len() as int,
            ),
            final(other).items@ == old(other).items@.subrange(0, old(other).items@.len() - n),
    {
        let mut top = other.split_top(n);
        self.items.append(&mut top.items);
    }
}

} // verus!
