use std::rc::Rc;

use tvm_core::code::CodeSlice;
use tvm_core::dispatch::{
    DispatchError, DispatchTable, Opcode, OpcodeKind, MAX_OPCODE,
};
use tvm_core::error::VmError;
use tvm_core::instr::{ArgInstr, SimpleInstr};
use tvm_core::state::{codepage0, VmState};

fn empty_state(cp: DispatchTable) -> VmState {
    let mut st = VmState::builder().build().unwrap();
    st.cp = Rc::new(cp);
    st
}

#[test]
fn dummy_codepage() {
    let cp = DispatchTable::builder(123).build();
    let mut state = empty_state(cp);

    let dummy = state.cp.lookup(0x800000);
    assert_eq!(dummy.range(), (0x000000, 0x1000000));

    let err = dummy.dispatch(&mut state, 0x800000, 24).unwrap_err();
    assert!(matches!(err, VmError::InvalidOpcode));
}

#[test]
fn opcode_overlap_check_works() {
    // Simple overlap
    {
        let mut cp = DispatchTable::builder(123);
        cp.add_simple(0xab, 8, SimpleInstr::PushNan).unwrap();
        cp.add_simple(0xab, 8, SimpleInstr::PushNan).unwrap_err();
    }

    // Range-simple overlap
    {
        let mut cp = DispatchTable::builder(123);
        cp.add_simple(0xab, 8, SimpleInstr::PushNan).unwrap();
        cp.add_fixed_range(0xa0, 0xaf, 8, 4, ArgInstr::PushInt8)
            .unwrap_err();
    }

    // Simple-range overlap
    {
        let mut cp = DispatchTable::builder(123);
        cp.add_fixed_range(0xa0, 0xaf, 8, 4, ArgInstr::PushInt8).unwrap();
        cp.add_simple(0xab, 8, SimpleInstr::PushNan).unwrap_err();
    }

    // Range-range overlap
    {
        let mut cp = DispatchTable::builder(123);
        cp.add_fixed_range(0xa0, 0xaf, 8, 4, ArgInstr::PushInt8).unwrap();
        cp.add_fixed_range(0xa4, 0xa7, 8, 2, ArgInstr::PushInt8)
            .unwrap_err();
    }
}

#[test]
fn overlap_errors_name_the_conflicting_bound() {
    let mut cp = DispatchTable::builder(1);
    cp.add_simple(0xab, 8, SimpleInstr::PushNan).unwrap();
    // A range starting below 0xab0000 and reaching into it.
    assert_eq!(
        cp.add_fixed_range(0xa0, 0xac, 8, 4, ArgInstr::PushInt8),
        Err(DispatchError::OverlapsNextMin(0xab0000))
    );
    // A range starting inside the registered one.
    assert_eq!(
        cp.add_simple(0xab12, 16, SimpleInstr::PushNan),
        Err(DispatchError::OverlapsPrevMax(0xac0000))
    );
    assert_eq!(cp.opcodes.len(), 1);
}

#[test]
fn disjoint_ranges_are_accepted() {
    let mut cp = DispatchTable::builder(7);
    cp.add_simple(0xab, 8, SimpleInstr::PushNan).unwrap();
    cp.add_simple(0xaa, 8, SimpleInstr::PushNan).unwrap();
    cp.add_simple(0xac, 8, SimpleInstr::PushNan).unwrap();
    cp.add_fixed(0x7, 4, 4, ArgInstr::PushTinyInt4).unwrap();
    let mins: Vec<u32> = cp.opcodes.iter().map(|o| o.opcode_min).collect();
    assert_eq!(mins, vec![0x700000, 0xaa0000, 0xab0000, 0xac0000]);
}

#[test]
fn build_fills_every_gap() {
    let mut cp = DispatchTable::builder(9);
    cp.add_simple(0xab, 8, SimpleInstr::PushNan).unwrap();
    cp.add_simple(0xff, 8, SimpleInstr::PushNan).unwrap();
    let table = cp.build();
    assert_eq!(table.id(), 9);
    assert_eq!(table.opcodes.len(), 4);
    assert_eq!(table.opcodes[0].range(), (0, 0xab0000));
    assert_eq!(table.opcodes[0].kind, OpcodeKind::Dummy);
    assert_eq!(table.opcodes[1].range(), (0xab0000, 0xac0000));
    assert_eq!(table.opcodes[2].range(), (0xac0000, 0xff0000));
    assert_eq!(table.opcodes[3].range(), (0xff0000, MAX_OPCODE));
}

#[test]
fn lookup_finds_the_covering_range() {
    let table = codepage0().unwrap();
    for opcode in [0u32, 0x700000, 0x77ffff, 0x800000, 0x83ff00, 0xa00000, 0xb7a000, 0xb7a7ff, 0xffffff] {
        let op: Opcode = table.lookup(opcode);
        assert!(op.opcode_min <= opcode && opcode < op.opcode_max);
    }
    assert_eq!(table.lookup(0x83ff00).kind, OpcodeKind::Simple { opcode_bits: 16, handler: SimpleInstr::PushNan });
    assert_eq!(table.lookup(0x83fe00).range(), (0x830000, 0x83ff00));
    assert_eq!(table.lookup(0xa00000).kind, OpcodeKind::Simple { opcode_bits: 8, handler: SimpleInstr::Add { quiet: false } });
    assert_eq!(table.lookup(0xffffff).kind, OpcodeKind::Dummy);
}

#[test]
fn opcode_word_is_left_aligned() {
    let code = CodeSlice::from_bits(vec![0x7a], 8);
    assert_eq!(DispatchTable::get_opcode_from_slice(&code), (0x7a0000, 8));
    let code = CodeSlice::from_bits(vec![0x12, 0x34, 0x56, 0x78], 32);
    assert_eq!(DispatchTable::get_opcode_from_slice(&code), (0x123456, 24));
    let code = CodeSlice::from_bits(vec![0xf0], 4);
    assert_eq!(DispatchTable::get_opcode_from_slice(&code), (0xf00000, 4));
}
