use everscale_types::cell::Cell;
use std::rc::Rc;
use vstd::prelude::*;

use crate::cell::clone_cell;
use crate::code::CodeSlice;
use crate::stack::{Stack, StackValue};

verus! {

/// A suspended computation.
pub enum Cont {
    /// Code to run, with the state it expects.
    Ordinary(OrdCont),
    /// Stops the machine with `exit_code`.
    Quit(i32),
    /// Stops the machine with the exception number on top of the stack.
    ExcQuit,
}

/// An ordinary continuation: code and control data.
pub struct OrdCont {
    pub code: CodeSlice,
    pub data: ControlData,
}

/// What a continuation carries besides its code.
pub struct ControlData {
    /// Number of arguments it expects, if fixed.
    pub nargs: Option<u16>,
    /// Its own stack, if any.
    pub stack: Option<Rc<Stack>>,
    /// Control registers it installs when entered.
    pub save: ControlRegs,
    /// Code page it runs in, if fixed.
    pub cp: Option<u16>,
}

/// The control registers: `c0..c3` continuations, `c4`/`c5` cells and the
/// `c7` tuple.
pub struct ControlRegs {
    pub c: [Option<Rc<Cont>>; 4],
    pub d: [Option<Cell>; 2],
    pub c7: Option<Rc<Vec<StackValue>>>,
}

impl Cont {
    /// The control data of an ordinary continuation.
    pub fn get_control_data(&self) -> (r: Option<&ControlData>)
        ensures
            match self {
                Cont::Ordinary(o) => r == Some(&o.data),
                _ => r is None,
            },
    {
        match self {
            Cont::Ordinary(o) => Some(&o.data),
            _ => None,
        }
    }
}

impl OrdCont {
    /// A continuation over `code` in code page `cp`, with empty control data.
    pub fn simple(code: CodeSlice, cp: u16) -> (r: OrdCont)
        ensures
            r.code == code,
            r.data.nargs is None,
            r.data.stack is None,
            r.data.save.is_empty(),
            r.data.cp == Some(cp),
    {
        OrdCont {
            code,
            data: ControlData { nargs: None, stack: None, save: ControlRegs::new(), cp: Some(cp) },
        }
    }
}

/// `mine` after clearing it where `save` is set.
pub open spec fn cleared<T, U>(mine: Option<T>, save: Option<U>) -> Option<T> {
    if save is Some {
        None
    } else {
        mine
    }
}

/// `mine`, or `save` where `mine` is empty.
pub open spec fn merged<T>(mine: Option<T>, save: Option<T>) -> Option<T> {
    if mine is Some {
        mine
    } else {
        save
    }
}

/// `after` is `before` cleared where `save` is set.
pub open spec fn regs_cleared(after: ControlRegs, before: ControlRegs, save: ControlRegs) -> bool {
    &&& forall|i: int| 0 <= i < 4 ==> #[trigger] after.c@[i] == cleared(before.c@[i], save.c@[i])
    &&& forall|i: int| 0 <= i < 2 ==> #[trigger] after.d@[i] == cleared(before.d@[i], save.d@[i])
    &&& after.c7 == cleared(before.c7, save.c7)
}

/// `after` is `before` with the empty slots taken from `save`.
pub open spec fn regs_merged(after: ControlRegs, before: ControlRegs, save: ControlRegs) -> bool {
    &&& forall|i: int| 0 <= i < 4 ==> #[trigger] after.c@[i] == merged(before.c@[i], save.c@[i])
    &&& forall|i: int| 0 <= i < 2 ==> #[trigger] after.d@[i] == merged(before.d@[i], save.d@[i])
    &&& after.c7 == merged(before.c7, save.c7)
}

impl ControlRegs {
    /// No register set.
    pub open spec fn is_empty(&self) -> bool {
        &&& forall|i: int| 0 <= i < 4 ==> (#[trigger] self.c@[i]) is None
        &&& forall|i: int| 0 <= i < 2 ==> (#[trigger] self.d@[i]) is None
        &&& self.c7 is None
    }

    /// Registers with no slot set.
    pub fn new() -> (r: ControlRegs)
        ensures
            r.is_empty(),
    {
        ControlRegs { c: [None, None, None, None], d: [None, None], c7: None }
    }

    /// Clears every slot that is set in `save`.
    pub fn preclear(&mut self, save: &ControlRegs)
        ensures
            regs_cleared(*final(self), *old(self), *save),
    {
        let mut i: usize = 0;
        while i < 4
            invariant
                i <= 4,
                forall|j: int| 0 <= j < i ==> #[trigger] self.c@[j] == cleared(old(self).c@[j], save.c@[j]),
                forall|j: int| i <= j < 4 ==> #[trigger] self.c@[j] == old(self).c@[j],
                self.d == old(self).d,
                self.c7 == old(self).c7,
            decreases 4 - i,
        {
            if save.c[i].is_some() {
                self.c[i] = None;
            }
            i += 1;
        }
        let mut i: usize = 0;
        while i < 2
            invariant
                i <= 2,
                forall|j: int| 0 <= j < 4 ==> #[trigger] self.c@[j] == cleared(old(self).c@[j], save.c@[j]),
                forall|j: int| 0 <= j < i ==> #[trigger] self.d@[j] == cleared(old(self).d@[j], save.d@[j]),
                forall|j: int| i <= j < 2 ==> #[trigger] self.d@[j] == old(self).d@[j],
                self.c7 == old(self).c7,
            decreases 2 - i,
        {
            if save.d[i].is_some() {
                self.d[i] = None;
            }
            i += 1;
        }
        if save.c7.is_some() {
            self.c7 = None;
        }
    }

    /// Adopts every slot of `save` that is empty here.
    pub fn merge(&mut self, save: &ControlRegs)
        ensures
            regs_merged(*final(self), *old(self), *save),
    {
        let mut i: usize = 0;
        while i < 4
            invariant
                i <= 4,
                forall|j: int| 0 <= j < i ==> #[trigger] self.c@[j] == merged(old(self).c@[j], save.c@[j]),
                forall|j: int| i <= j < 4 ==> #[trigger] self.c@[j] == old(self).c@[j],
                self.d == old(self).d,
                self.c7 == old(self).c7,
            decreases 4 - i,
        {
            if self.c[i].is_none() {
                if let Some(k) = &save.c[i] {
                    self.c[i] = Some(Rc::clone(k));
                }
            }
            i += 1;
        }
        let mut i: usize = 0;
        while i < 2
            invariant
                i <= 2,
                forall|j: int| 0 <= j < 4 ==> #[trigger] self.c@[j] == merged(old(self).c@[j], save.c@[j]),
                forall|j: int| 0 <= j < i ==> #[trigger] self.d@[j] == merged(old(self).d@[j], save.d@[j]),
                forall|j: int| i <= j < 2 ==> #[trigger] self.d@[j] == old(self).d@[j],
                self.c7 == old(self).c7,
            decreases 2 - i,
        {
            if self.d[i].is_none() {
                if let Some(cell) = &save.d[i] {
                    self.d[i] = Some(clone_cell(cell));
                }
            }
            i += 1;
        }
        if self.c7.is_none() {
            if let Some(t) = &save.c7 {
                self.c7 = Some(Rc::clone(t));
            }
        }
    }
}

} // verus!
