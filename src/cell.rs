use everscale_types::cell::{Cell, CellFamily};
use vstd::prelude::*;

verus! {

/// A cell of the cell graph: at most 1023 data bits and four references.
#[verifier::external_type_specification]
#[verifier::external_body]
pub struct ExCell(Cell);

/// The level of a cell.
pub uninterp spec fn level_of(c: Cell) -> u8;

/// The representation depth of a cell.
pub uninterp spec fn depth_of(c: Cell) -> u16;

/// The representation hash of a cell.
pub uninterp spec fn hash_of(c: Cell) -> [u8; 32];

/// The data bytes of a cell.
pub uninterp spec fn data_of(c: Cell) -> Seq<u8>;

/// The number of data bits of a cell.
pub uninterp spec fn bit_len_of(c: Cell) -> u16;

/// The references of a cell, in order.
pub uninterp spec fn refs_of(c: Cell) -> Seq<Cell>;

/// Relies on `CellFamily::empty_cell`: the cell with no bits and no
/// references.
#[verifier::external_body]
pub(crate) fn empty_cell() -> (r: Cell)
    ensures
        level_of(r) == 0,
        depth_of(r) == 0,
        bit_len_of(r) == 0,
        data_of(r).len() == 0,
        refs_of(r).len() == 0,
{
    Cell::empty_cell()
}

/// Relies on `Cell::clone`, which shares the same cell.
#[verifier::external_body]
pub(crate) fn clone_cell(c: &Cell) -> (r: Cell)
    ensures
        r == *c,
{
    c.clone()
}

/// Relies on `DynCell::level`: the level of the cell's three-bit level mask.
#[verifier::external_body]
pub(crate) fn cell_level(c: &Cell) -> (r: u8)
    ensures
        r == level_of(*c),
        r <= 3,
{
    c.level()
}

/// Relies on `DynCell::repr_depth`: the depth of the cell's tree.
#[verifier::external_body]
pub(crate) fn cell_repr_depth(c: &Cell) -> (r: u16)
    ensures
        r == depth_of(*c),
{
    c.repr_depth()
}

/// Relies on `DynCell::repr_hash`: the representation hash of the cell.
#[verifier::external_body]
pub(crate) fn cell_repr_hash(c: &Cell) -> (r: [u8; 32])
    ensures
        r == hash_of(*c),
{
    c.repr_hash().0
}

/// Relies on `CellImpl::data`: the cell's data bytes.
#[verifier::external_body]
pub(crate) fn cell_data(c: &Cell) -> (r: Vec<u8>)
    ensures
        r@ == data_of(*c),
{
    c.data().to_vec()
}

/// Relies on `CellImpl::bit_len`: the number of data bits of the cell.
#[verifier::external_body]
pub(crate) fn cell_bit_len(c: &Cell) -> (r: u16)
    ensures
        r == bit_len_of(*c),
{
    c.bit_len()
}

/// Relies on `DynCell::references` and `RefsIter::cloned`: the cell's
/// references in order.
#[verifier::external_body]
pub(crate) fn cell_references(c: &Cell) -> (r: Vec<Cell>)
    ensures
        r@ == refs_of(*c),
{
    c.references().cloned().collect()
}

} // verus!
