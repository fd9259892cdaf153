use std::rc::Rc;

use everscale_types::cell::{Cell, CellFamily};
use tvm_core::code::CodeSlice;
use tvm_core::cont::{Cont, ControlRegs};
use tvm_core::state::{SaveCr, SAVE_C0, SAVE_C1, SAVE_C2};

#[test]
fn preclear_clears_slots_set_in_save() {
    let mut regs = ControlRegs::new();
    regs.c[0] = Some(Rc::new(Cont::Quit(0)));
    regs.c[1] = Some(Rc::new(Cont::Quit(1)));
    regs.d[0] = Some(Cell::empty_cell());
    let mut save = ControlRegs::new();
    save.c[1] = Some(Rc::new(Cont::Quit(5)));
    save.d[0] = Some(Cell::empty_cell());
    regs.preclear(&save);
    assert!(regs.c[0].is_some());
    assert!(regs.c[1].is_none());
    assert!(regs.d[0].is_none());
}

#[test]
fn merge_fills_only_empty_slots() {
    let mut regs = ControlRegs::new();
    regs.c[0] = Some(Rc::new(Cont::Quit(0)));
    let mut save = ControlRegs::new();
    save.c[0] = Some(Rc::new(Cont::Quit(7)));
    save.c[2] = Some(Rc::new(Cont::ExcQuit));
    save.c7 = Some(Rc::new(Vec::new()));
    regs.merge(&save);
    assert!(matches!(regs.c[0].as_deref(), Some(Cont::Quit(0))));
    assert!(matches!(regs.c[2].as_deref(), Some(Cont::ExcQuit)));
    assert!(regs.c7.is_some());
    assert!(regs.c[3].is_none());
}

#[test]
fn save_flags() {
    let mode = SaveCr { bits: SAVE_C0 | SAVE_C2 };
    assert!(mode.contains(SAVE_C0));
    assert!(!mode.contains(SAVE_C1));
    assert!(mode.contains(SAVE_C2));
}

#[test]
fn code_slice_reads_big_endian_bits() {
    let mut code = CodeSlice::from_bits(vec![0b1010_0000, 0xff], 12);
    assert_eq!(code.size_bits(), 12);
    assert_eq!(code.get_uint(0, 4), 0b1010);
    assert!(code.get_bit(0));
    assert!(!code.get_bit(1));
    assert_eq!(code.get_uint(4, 8), 0x0f);
    assert!(code.has_remaining(12, 0));
    assert!(!code.has_remaining(13, 0));
    code.skip_first(4, 0);
    assert_eq!(code.size_bits(), 8);
    assert_eq!(code.get_uint(0, 8), 0x0f);
    assert_eq!(code.size_refs(), 0);
    assert_eq!(CodeSlice::empty().size_bits(), 0);
}
