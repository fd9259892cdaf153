use everscale_types::cell::{Cell, CellBuilder, CellFamily};
use tvm_core::gas::{GasConsumer, NEW_CELL_GAS, OLD_CELL_GAS};
use tvm_core::error::VmError;
use tvm_core::integer::IntValue;
use tvm_core::stack::{Stack, StackValue};

fn v(x: i64) -> IntValue {
    IntValue::from_i64(x)
}

#[test]
fn integer_arithmetic_is_exact() {
    assert!(v(3).add(&v(4)).equals(&v(7)));
    assert!(v(3).sub(&v(4)).equals(&v(-1)));
    assert!(v(-3).mul(&v(4)).equals(&v(-12)));
    assert!(v(5).neg().equals(&v(-5)));
    let big = IntValue::pow2(64);
    assert_eq!(big.digits, vec![0, 0, 1]);
    assert!(big.sub(&v(1)).equals(&v(0).add(&IntValue::pow2(64)).sub(&v(1))));
    assert!(IntValue::pow2(10).equals(&v(1024)));
    assert!(!v(3).equals(&v(4)));
}

#[test]
fn integer_range_bounds() {
    assert!(IntValue::pow2(256).sub(&v(1)).fits_257());
    assert!(!IntValue::pow2(256).fits_257());
    assert!(IntValue::pow2(256).negate().fits_257());
    assert!(!IntValue::pow2(256).add(&v(1)).negate().fits_257());
    assert!(!IntValue::pow2(300).fits_257());
    assert!(v(0).fits_257());
    assert!(v(i64::MIN).fits_257());
}

#[test]
fn small_integer_extraction() {
    assert_eq!(v(0).as_u16(), Some(0));
    assert_eq!(v(65535).as_u16(), Some(65535));
    assert_eq!(v(65536).as_u16(), None);
    assert_eq!(v(-1).as_u16(), None);
    assert_eq!(IntValue::pow2(40).as_u16(), None);
}

#[test]
fn stack_push_raw_int() {
    let mut s = Stack::new();
    assert_eq!(s.push_raw_int(IntValue::pow2(256), false), Err(VmError::IntegerOverflow));
    assert_eq!(s.depth(), 0);
    assert_eq!(s.push_raw_int(IntValue::pow2(256), true), Ok(()));
    assert!(matches!(s.items.last(), Some(StackValue::Nan)));
    assert_eq!(s.push_int(v(5)), Ok(()));
    assert_eq!(s.depth(), 2);
    assert!(matches!(s.pop_int_or_nan(), Ok(Some(_))));
    assert!(matches!(s.pop_int_or_nan(), Ok(None)));
    assert_eq!(s.pop_int_or_nan().unwrap_err(), VmError::StackUnderflow(1));
}

#[test]
fn stack_moves() {
    let mut a = Stack::from_items(vec![
        StackValue::integer(v(1)),
        StackValue::integer(v(2)),
        StackValue::integer(v(3)),
    ]);
    let top = a.split_top(2);
    assert_eq!(a.depth(), 1);
    assert_eq!(top.depth(), 2);
    let mut b = Stack::from_items(vec![StackValue::Nan]);
    let mut top = top;
    b.move_from_stack(&mut top, 1);
    assert_eq!(b.depth(), 2);
    assert_eq!(top.depth(), 1);
    b.drop_bottom(1);
    assert_eq!(b.depth(), 1);
    assert!(matches!(&b.items[0], StackValue::Int(x) if x.equals(&v(3))));
    let c = b.duplicate();
    assert_eq!(c.depth(), 1);
}

#[test]
fn gas_consumption() {
    let mut g = GasConsumer::new(100);
    assert_eq!(g.try_consume(30), Ok(()));
    assert_eq!(g.gas_remaining, 70);
    assert_eq!(g.try_consume(71), Err(VmError::OutOfGas));
    assert_eq!(g.gas_remaining, 70);
    assert_eq!(g.consume_cell_build(), Err(VmError::OutOfGas));
}

#[test]
fn cell_loads_are_charged_once_at_full_rate() {
    let mut g = GasConsumer::new(1000);
    g.consume_load_hash([1; 32]).unwrap();
    assert_eq!(g.gas_remaining, 1000 - NEW_CELL_GAS);
    g.consume_load_hash([1; 32]).unwrap();
    assert_eq!(g.gas_remaining, 1000 - NEW_CELL_GAS - OLD_CELL_GAS);
    g.consume_load_hash([2; 32]).unwrap();
    assert_eq!(g.gas_remaining, 1000 - 2 * NEW_CELL_GAS - OLD_CELL_GAS);

    let mut b = CellBuilder::new();
    b.store_u8(1).unwrap();
    let cell = b.build().unwrap();
    let mut g = GasConsumer::new(1000);
    g.load_cell(&cell, true).unwrap();
    g.load_cell(&cell, true).unwrap();
    g.load_cell(&Cell::empty_cell(), false).unwrap();
    assert_eq!(g.gas_remaining, 1000 - NEW_CELL_GAS - OLD_CELL_GAS);
}

#[test]
fn load_hash_charges_only_when_asked() {
    let mut g = GasConsumer::new(1000);
    g.load_hash([7; 32], false).unwrap();
    assert_eq!(g.gas_remaining, 1000);
    g.load_hash([7; 32], true).unwrap();
    assert_eq!(g.gas_remaining, 1000 - NEW_CELL_GAS);
    g.load_hash([7; 32], true).unwrap();
    assert_eq!(g.gas_remaining, 1000 - NEW_CELL_GAS - OLD_CELL_GAS);
}
