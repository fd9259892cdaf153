use std::rc::Rc;

use everscale_types::cell::{Cell, CellBuilder, CellFamily};
use tvm_core::code::CodeSlice;
use tvm_core::cont::{Cont, OrdCont};
use tvm_core::error::VmError;
use tvm_core::integer::IntValue;
use tvm_core::stack::{Stack, StackValue};
use tvm_core::state::{SaveCr, VmState, SAVE_C0};

fn num(x: i64) -> StackValue {
    StackValue::integer(IntValue::from_i64(x))
}

fn is_int(v: &StackValue, x: i64) -> bool {
    match v {
        StackValue::Int(w) => w.equals(&IntValue::from_i64(x)),
        _ => false,
    }
}

fn top_is(st: &VmState, x: i64) -> bool {
    is_int(st.stack.items.last().unwrap(), x)
}

fn machine(code: &[u8], stack: Vec<StackValue>) -> VmState {
    VmState::builder()
        .with_code(CodeSlice::from_bits(code.to_vec(), code.len() * 8))
        .with_stack(stack)
        .build()
        .unwrap()
}

#[test]
fn empty_code_returns_normally() {
    let mut st = VmState::builder().without_push0().with_gas_limit(1000).build().unwrap();
    assert_eq!(st.run(), 0);
    assert!(st.commited_state.is_some());
    assert_eq!(st.steps, 1);
    assert_eq!(st.gas.gas_remaining, 990);
}

#[test]
fn implicit_return_needs_base_gas() {
    let mut st = VmState::builder().with_gas_limit(9).build().unwrap();
    assert_eq!(st.step(), Err(VmError::OutOfGas));
    assert_eq!(st.gas.gas_remaining, 9);
}

#[test]
fn failed_commit_ends_with_cell_overflow() {
    let mut st = VmState::builder().build().unwrap();
    st.cr.d[1] = None;
    assert_eq!(st.run(), 8);
    assert_eq!(st.stack.depth(), 1);
    assert!(top_is(&st, 0));
}

#[test]
fn double_exception_ends_with_its_code() {
    let mut st = machine(&[0xa0], vec![]);
    st.cr.c[2] = None;
    assert_eq!(st.run(), 6);
}

#[test]
fn built_page_holds_the_arithmetic_family() {
    let st = VmState::builder().build().unwrap();
    assert_eq!(st.cp.opcodes.len(), 31);
    assert_eq!(st.cp.lookup(0x700000).range(), (0x700000, 0x800000));
    assert_eq!(st.cp.lookup(0x000000).range(), (0x000000, 0x700000));
    assert_eq!(st.cp.lookup(0xffffff).range(), (0xb7a900, 0x1000000));
}

#[test]
fn pushint_tiny_77_pushes_7() {
    let mut st = machine(&[0x77], vec![]);
    assert_eq!(st.step(), Ok(0));
    assert!(top_is(&st, 7));
    assert_eq!(st.steps, 1);
    assert_eq!(st.stack.depth(), 1);
}

#[test]
fn pushint_tiny_7a_and_7f() {
    let mut st = machine(&[0x7a, 0x7f, 0x7b], vec![]);
    st.step().unwrap();
    assert!(top_is(&st, 10));
    st.step().unwrap();
    assert!(top_is(&st, -1));
    st.step().unwrap();
    assert!(top_is(&st, -5));
}

#[test]
fn pushint_8_ff_is_minus_one() {
    let mut st = machine(&[0x80, 0xff], vec![]);
    st.step().unwrap();
    assert!(top_is(&st, -1));
}

#[test]
fn pushint_16_decodes_signed() {
    let mut st = machine(&[0x81, 0x80, 0x00, 0x81, 0x12, 0x34], vec![]);
    st.step().unwrap();
    assert!(top_is(&st, -32768));
    st.step().unwrap();
    assert!(top_is(&st, 0x1234));
}

#[test]
fn pushint_long_reads_unsigned_value() {
    // 0x82, l = 0, then a 19-bit value of 1000.
    let mut st = machine(&[0x82, 0x00, 0x03, 0xe8], vec![]);
    assert_eq!(st.step(), Ok(0));
    assert!(top_is(&st, 1000));
    assert_eq!(st.code.size_bits(), 0);
}

#[test]
fn pushint_long_truncated_is_invalid() {
    let mut st = machine(&[0x82, 0x00, 0x03], vec![]);
    assert_eq!(st.step(), Err(VmError::InvalidOpcode));
}

#[test]
fn push_powers_of_two() {
    let mut st = machine(&[0x83, 0x07, 0x84, 0x07, 0x85, 0x07, 0x83, 0xff], vec![]);
    st.step().unwrap();
    assert!(top_is(&st, 256));
    st.step().unwrap();
    assert!(top_is(&st, 255));
    st.step().unwrap();
    assert!(top_is(&st, -256));
    st.step().unwrap();
    assert!(matches!(st.stack.items.last(), Some(StackValue::Nan)));
}

#[test]
fn add_3_4_is_7() {
    let mut st = machine(&[0xa0], vec![num(3), num(4)]);
    assert_eq!(st.step(), Ok(0));
    assert!(top_is(&st, 7));
    assert_eq!(st.stack.depth(), 1);
}

#[test]
fn add_overflow_throws_to_c2() {
    let mut st = machine(
        &[0xa0],
        vec![StackValue::integer(IntValue::pow2(255)), StackValue::integer(IntValue::pow2(255))],
    );
    assert_eq!(st.step(), Err(VmError::IntegerOverflow));
    let mut st = machine(
        &[0xa0],
        vec![StackValue::integer(IntValue::pow2(255)), StackValue::integer(IntValue::pow2(255))],
    );
    assert_eq!(st.run(), 4);
}

#[test]
fn quiet_add_overflow_pushes_nan() {
    let mut st = machine(
        &[0xb7, 0xa0],
        vec![StackValue::integer(IntValue::pow2(255)), StackValue::integer(IntValue::pow2(255))],
    );
    assert_eq!(st.step(), Ok(0));
    assert_eq!(st.stack.depth(), 1);
    assert!(matches!(st.stack.items.last(), Some(StackValue::Nan)));
}

#[test]
fn quiet_and_strict_agree_without_overflow() {
    let mut strict = machine(&[0xa8], vec![num(-6), num(7)]);
    let mut quiet = machine(&[0xb7, 0xa8], vec![num(-6), num(7)]);
    assert_eq!(strict.step(), Ok(0));
    assert_eq!(quiet.step(), Ok(0));
    assert!(top_is(&strict, -42));
    assert!(top_is(&quiet, -42));
    assert_eq!(strict.stack.depth(), quiet.stack.depth());
}

#[test]
fn unknown_opcode_costs_base_gas() {
    let mut st = VmState::builder()
        .with_code(CodeSlice::from_bits(vec![0xff, 0xff, 0xff], 24))
        .with_gas_limit(1000)
        .build()
        .unwrap();
    assert_eq!(st.run(), 6);
    assert_eq!(st.gas.gas_remaining, 990);
}

#[test]
fn arithmetic_instructions() {
    let mut st = machine(&[0xa1], vec![num(10), num(3)]);
    st.step().unwrap();
    assert!(top_is(&st, 7));
    let mut st = machine(&[0xa2], vec![num(10), num(3)]);
    st.step().unwrap();
    assert!(top_is(&st, -7));
    let mut st = machine(&[0xa3], vec![num(10)]);
    st.step().unwrap();
    assert!(top_is(&st, -10));
    let mut st = machine(&[0xa4], vec![num(10)]);
    st.step().unwrap();
    assert!(top_is(&st, 11));
    let mut st = machine(&[0xa5], vec![num(10)]);
    st.step().unwrap();
    assert!(top_is(&st, 9));
    let mut st = machine(&[0xa6, 0x05], vec![num(10)]);
    st.step().unwrap();
    assert!(top_is(&st, 15));
    let mut st = machine(&[0xa7, 0xfe], vec![num(10)]);
    st.step().unwrap();
    assert!(top_is(&st, -20));
    let mut st = machine(&[0xb7, 0xa6, 0x80], vec![num(10)]);
    st.step().unwrap();
    assert!(top_is(&st, -118));
}

#[test]
fn negate_of_minimum_overflows() {
    let min = IntValue::pow2(256).negate();
    let mut st = machine(&[0xa3], vec![StackValue::integer(min)]);
    assert_eq!(st.step(), Err(VmError::IntegerOverflow));
    let min = IntValue::pow2(256).negate();
    let mut st = machine(&[0xb7, 0xa3], vec![StackValue::integer(min)]);
    assert_eq!(st.step(), Ok(0));
    assert!(matches!(st.stack.items.last(), Some(StackValue::Nan)));
}

#[test]
fn error_variants() {
    let mut st = machine(&[0xa0], vec![]);
    assert_eq!(st.step(), Err(VmError::StackUnderflow(1)));
    let mut st = machine(&[0xa0], vec![num(1)]);
    assert_eq!(st.step(), Err(VmError::StackUnderflow(1)));
    let mut st = machine(&[0xa0], vec![num(1), StackValue::Cell(Cell::empty_cell())]);
    assert_eq!(st.step(), Err(VmError::TypeCheckError));
    let mut st = machine(&[0x80], vec![]);
    assert_eq!(st.step(), Err(VmError::InvalidOpcode));
    let mut st = VmState::builder()
        .with_code(CodeSlice::from_bits(vec![0x77], 8))
        .with_gas_limit(5)
        .build()
        .unwrap();
    assert_eq!(st.step(), Err(VmError::OutOfGas));
    assert_eq!(st.gas.gas_remaining, 5);
    let mut st = VmState::builder()
        .with_code(CodeSlice::from_bits(vec![0x77], 8))
        .with_gas_limit(5)
        .build()
        .unwrap();
    assert_eq!(st.run(), 13);
}

#[test]
fn step_charges_per_bit() {
    let mut st = VmState::builder()
        .with_code(CodeSlice::from_bits(vec![0xb7, 0xa0], 16))
        .with_stack(vec![num(1), num(2)])
        .with_gas_limit(100)
        .build()
        .unwrap();
    st.step().unwrap();
    assert_eq!(st.gas.gas_remaining, 100 - 10 - 16);
}

#[test]
fn program_runs_to_completion() {
    // PUSHINT 2; PUSHINT 3; MUL; then implicit return.
    let mut st = machine(&[0x72, 0x73, 0xa8], vec![]);
    assert_eq!(st.run(), 0);
    assert_eq!(st.stack.depth(), 1);
    assert!(top_is(&st, 6));
}

#[test]
fn same_c3_pushes_zero() {
    let st = VmState::builder().with_same_c3().build().unwrap();
    assert_eq!(st.stack.depth(), 1);
    assert!(top_is(&st, 0));
    let st = VmState::builder().with_same_c3().without_push0().build().unwrap();
    assert_eq!(st.stack.depth(), 0);
}

#[test]
fn implicit_jmpref_follows_reference() {
    let mut b = CellBuilder::new();
    b.store_u8(0x75).unwrap();
    let child = b.build().unwrap();
    let mut b = CellBuilder::new();
    b.store_reference(child).unwrap();
    let root = b.build().unwrap();
    let mut st = VmState::builder().with_code(CodeSlice::from_cell(&root)).with_gas_limit(1000).build().unwrap();
    assert_eq!(st.run(), 0);
    assert!(top_is(&st, 5));
    // Implicit jump (10), first load (100), PUSHINT (18), implicit return (10).
    assert_eq!(st.gas.gas_remaining, 1000 - 10 - 100 - 18 - 10);
}

#[test]
fn commit_keeps_data_cell() {
    let mut b = CellBuilder::new();
    b.store_u16(0xbeef).unwrap();
    let data = b.build().unwrap();
    let mut st = VmState::builder().with_data(data.clone()).build().unwrap();
    assert!(st.try_commit());
    assert_eq!(st.commited_state.as_ref().unwrap().c4.repr_hash(), data.repr_hash());
    assert!(st.try_commit());
    assert_eq!(st.commited_state.as_ref().unwrap().c4.repr_hash(), data.repr_hash());
    st.cr.d[1] = None;
    assert!(!st.try_commit());
    assert_eq!(st.force_commit(), Err(VmError::CellOverflow));
    assert!(st.commited_state.is_some());
}

#[test]
fn throw_exception_sets_stack() {
    let mut st = VmState::builder().build().unwrap();
    st.cr.c[2] = Some(Rc::new(Cont::Quit(42)));
    assert_eq!(st.throw_exception(9), Ok(!42));
    assert_eq!(st.stack.depth(), 2);
    assert!(is_int(&st.stack.items[0], 0));
    assert!(is_int(&st.stack.items[1], 9));
    st.cr.c[2] = None;
    assert_eq!(st.throw_exception(9), Err(VmError::InvalidOpcode));
}

fn ordinary(nargs: Option<u16>, stack: Option<Stack>) -> Rc<Cont> {
    let mut o = OrdCont::simple(CodeSlice::from_bits(vec![0x70], 8), 0);
    o.data.nargs = nargs;
    o.data.stack = stack.map(Rc::new);
    Rc::new(Cont::Ordinary(o))
}

#[test]
fn jump_ext_shapes_depth() {
    let mut st = machine(&[], vec![num(1), num(2), num(3), num(4)]);
    assert_eq!(st.jump_ext(ordinary(Some(2), None), None), Ok(0));
    assert_eq!(st.stack.depth(), 2);
    assert!(is_int(&st.stack.items[0], 3));
    let mut st = machine(&[], vec![num(1), num(2), num(3), num(4)]);
    assert_eq!(st.jump_ext(ordinary(None, None), Some(3)), Ok(0));
    assert_eq!(st.stack.depth(), 3);
    let mut st = machine(&[], vec![num(1), num(2), num(3), num(4)]);
    assert_eq!(st.jump_ext(ordinary(None, None), None), Ok(0));
    assert_eq!(st.stack.depth(), 4);
    let mut st = machine(&[], vec![num(1)]);
    assert!(matches!(st.jump_ext(ordinary(Some(2), None), None), Err(VmError::StackUnderflow(_))));
    let mut st = machine(&[], vec![num(1), num(2), num(3)]);
    assert!(matches!(st.jump_ext(ordinary(Some(3), None), Some(2)), Err(VmError::StackUnderflow(_))));
}

#[test]
fn jump_ext_onto_saved_stack() {
    let saved = Stack::from_items(vec![num(100)]);
    let mut st = machine(&[], vec![num(1), num(2), num(3)]);
    assert_eq!(st.jump_ext(ordinary(Some(1), Some(saved)), None), Ok(0));
    assert_eq!(st.stack.depth(), 2);
    assert!(is_int(&st.stack.items[0], 100));
    assert!(is_int(&st.stack.items[1], 3));
}

#[test]
fn call_ext_saves_the_rest() {
    let mut st = machine(&[0x71], vec![num(1), num(2), num(3)]);
    assert_eq!(st.call_ext(ordinary(None, None), Some(2), Some(1)), Ok(0));
    assert_eq!(st.stack.depth(), 2);
    match st.cr.c[0].as_deref() {
        Some(Cont::Ordinary(ret)) => {
            assert_eq!(ret.data.nargs, Some(1));
            assert_eq!(ret.data.stack.as_ref().unwrap().depth(), 1);
            assert_eq!(ret.code.size_bits(), 8);
        }
        _ => panic!("no return continuation"),
    }
    // The return continuation expects one result, put on the saved value.
    assert_eq!(st.ret_ext(None), Ok(0));
    assert_eq!(st.stack.depth(), 2);
    assert!(is_int(&st.stack.items[0], 1));
    assert!(is_int(&st.stack.items[1], 3));
}

#[test]
fn call_and_return() {
    let mut st = machine(&[0x71], vec![num(1)]);
    assert_eq!(st.call(ordinary(None, None)), Ok(0));
    assert_eq!(st.code.size_bits(), 8);
    assert_eq!(st.ret(), Ok(0));
    assert_eq!(st.code.size_bits(), 8);
    assert_eq!(st.stack.depth(), 1);
    assert!(matches!(st.cr.c[0].as_deref(), Some(Cont::Quit(0))));
    assert_eq!(st.ret(), Ok(!0));
    assert_eq!(st.ret_alt(), Ok(!1));
}

#[test]
fn extract_cc_splits_stack() {
    let mut st = machine(&[0x71], vec![num(1), num(2), num(3)]);
    let k = st.extract_cc(SaveCr { bits: SAVE_C0 }, Some(1), None).unwrap();
    assert_eq!(st.stack.depth(), 1);
    assert!(matches!(st.cr.c[0].as_deref(), Some(Cont::Quit(0))));
    match &*k {
        Cont::Ordinary(o) => {
            assert_eq!(o.data.stack.as_ref().unwrap().depth(), 2);
            assert!(o.data.save.c[0].is_some());
        }
        _ => panic!("not ordinary"),
    }
    let mut st = machine(&[], vec![num(1)]);
    assert!(matches!(st.extract_cc(SaveCr { bits: 0 }, Some(2), None), Err(VmError::StackUnderflow(_))));
}

#[test]
fn force_cp_knows_current_page() {
    let mut st = machine(&[], vec![]);
    assert_eq!(st.force_cp(0), Ok(()));
    assert_eq!(st.force_cp(1), Err(VmError::InvalidOpcode));
}

#[test]
fn pushint_shortest_forms_round_trip() {
    for x in -5i64..=10 {
        let word = 0x70 + ((x + 16) % 16) as u8;
        let mut st = machine(&[word], vec![]);
        st.step().unwrap();
        assert!(top_is(&st, x));
    }
    for x in [-128i64, -6, 11, 127] {
        let mut st = machine(&[0x80, ((x + 256) % 256) as u8], vec![]);
        st.step().unwrap();
        assert!(top_is(&st, x));
    }
    for x in [-32768i64, -129, 128, 32767] {
        let w = ((x + 65536) % 65536) as u16;
        let mut st = machine(&[0x81, (w >> 8) as u8, w as u8], vec![]);
        st.step().unwrap();
        assert!(top_is(&st, x));
    }
}
