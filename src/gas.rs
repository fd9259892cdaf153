use everscale_types::cell::Cell;
use vstd::prelude::*;

use crate::cell::{cell_repr_hash, hash_of};
use crate::error::VmError;

verus! {

/// The price of loading the cell with hash `h` after the cells `loaded`.
pub open spec fn load_price(loaded: Set<[u8; 32]>, h: [u8; 32]) -> u64 {
    if loaded.contains(h) {
        OLD_CELL_GAS
    } else {
        NEW_CELL_GAS
    }
}

/// Gas charged for building a cell.
pub const BUILD_CELL_GAS: u64 = 500;

/// Gas charged for the first load of a cell.
pub const NEW_CELL_GAS: u64 = 100;

/// Gas charged for loading a cell that was loaded before.
pub const OLD_CELL_GAS: u64 = 25;

/// Gas limit of a machine built without one.
pub const DEFAULT_GAS_LIMIT: u64 = 1000000;

/// The hasher of the set of loaded cells.
#[verifier::external_type_specification]
#[verifier::external_body]
pub struct ExAHashState(ahash::RandomState);

/// The hashes held by a set of loaded cells.
pub uninterp spec fn loaded_hashes(s: std::collections::HashSet<[u8; 32], ahash::RandomState>) -> Set<[u8; 32]>;

/// Relies on `HashSet::default` with ahash's hasher: an empty set.
#[verifier::external_body]
fn new_hash_set() -> (r: std::collections::HashSet<[u8; 32], ahash::RandomState>)
    ensures
        loaded_hashes(r) == Set::<[u8; 32]>::empty(),
{
    std::collections::HashSet::default()
}

/// Relies on `HashSet::insert`: adds the hash and tells whether it was
/// absent before.
#[verifier::external_body]
fn hash_set_insert(s: &mut std::collections::HashSet<[u8; 32], ahash::RandomState>, h: [u8; 32]) -> (r: bool)
    ensures
        r == !loaded_hashes(*old(s)).contains(h),
        loaded_hashes(*final(s)) == loaded_hashes(*old(s)).insert(h),
{
    s.insert(h)
}

/// The outcome `r`, `after` of charging the load of the cell with hash `h`
/// from `before`: the first-load or repeat price when affordable, else
/// `OutOfGas` with the gas kept; the hash is remembered either way.
pub open spec fn charged_load(before: GasConsumer, after: GasConsumer, h: [u8; 32], r: Result<(), VmError>) -> bool {
    let price = load_price(before.loaded(), h);
    &&& (r is Ok <==> price <= before.gas_remaining)
    &&& (r is Ok ==> after.gas_remaining == before.gas_remaining - price)
    &&& (r is Err ==> r == Err::<(), VmError>(VmError::OutOfGas) && after.gas_remaining
        == before.gas_remaining)
    &&& after.loaded() == before.loaded().insert(h)
    &&& after.gas_max == before.gas_max
    &&& after.gas_limit == before.gas_limit
    &&& after.gas_credit == before.gas_credit
}

/// Gas limits and the cells already paid for at the first-load rate.
pub struct GasConsumer {
    pub gas_max: u64,
    pub gas_limit: u64,
    pub gas_credit: u64,
    pub gas_remaining: u64,
    pub loaded_cells: std::collections::HashSet<[u8; 32], ahash::RandomState>,
}

impl GasConsumer {
    /// The hashes of the cells loaded so far.
    pub open spec fn loaded(&self) -> Set<[u8; 32]> {
        loaded_hashes(self.loaded_cells)
    }

    /// A meter with `limit` gas and no cell loaded yet.
    pub fn new(limit: u64) -> (r: GasConsumer)
        ensures
            r.gas_max == limit,
            r.gas_limit == limit,
            r.gas_credit == 0,
            r.gas_remaining == limit,
            r.loaded() == Set::<[u8; 32]>::empty(),
    {
        GasConsumer {
            gas_max: limit,
            gas_limit: limit,
            gas_credit: 0,
            gas_remaining: limit,
            loaded_cells: new_hash_set(),
        }
    }

    /// Takes `amount` from the remaining gas, or fails with `OutOfGas` and
    /// leaves the meter as it was.
    pub fn try_consume(&mut self, amount: u64) -> (r: Result<(), VmError>)
        ensures
            r is Ok <==> amount <= old(self).gas_remaining,
            r is Ok ==> final(self).gas_remaining == old(self).gas_remaining - amount,
            r is Err ==> r == Err::<(), VmError>(VmError::OutOfGas) && final(self).gas_remaining
                == old(self).gas_remaining,
            final(self).gas_max == old(self).gas_max,
            final(self).gas_limit == old(self).gas_limit,
            final(self).gas_credit == old(self).gas_credit,
            final(self).loaded_cells == old(self).loaded_cells,
    {
        match self.gas_remaining.checked_sub(amount) {
            Some(remaining) => {
                self.gas_remaining = remaining;
                Ok(())
            },
            None => Err(VmError::OutOfGas),
        }
    }

    /// Charges the building of one cell.
    pub fn consume_cell_build(&mut self) -> (r: Result<(), VmError>)
        ensures
            r is Ok <==> BUILD_CELL_GAS <= old(self).gas_remaining,
            r is Ok ==> final(self).gas_remaining == old(self).gas_remaining - BUILD_CELL_GAS,
            r is Err ==> r == Err::<(), VmError>(VmError::OutOfGas) && final(self).gas_remaining
                == old(self).gas_remaining,
            final(self).loaded() == old(self).loaded(),
    {
        self.try_consume(BUILD_CELL_GAS)
    }

    /// Charges the load of the cell with hash `hash`: the first-load rate
    /// for a hash not seen before, the repeat rate otherwise. The hash is
    /// remembered either way.
    pub fn consume_load_hash(&mut self, hash: [u8; 32]) -> (r: Result<(), VmError>)
        ensures
            charged_load(*old(self), *final(self), hash, r),
    {
        let fresh = hash_set_insert(&mut self.loaded_cells, hash);
        let price = if fresh {
            NEW_CELL_GAS
        } else {
            OLD_CELL_GAS
        };
        self.try_consume(price)
    }

    /// Charges the load of the cell with hash `hash` when `use_gas` is set,
    /// as `consume_load_hash` does.
    pub fn load_hash(&mut self, hash: [u8; 32], use_gas: bool) -> (r: Result<(), VmError>)
        ensures
            use_gas ==> charged_load(*old(self), *final(self), hash, r),
            !use_gas ==> r is Ok && *final(self) == *old(self),
    {
        if use_gas {
            self.consume_load_hash(hash)
        } else {
            Ok(())
        }
    }

    /// Charges the load of `cell` when `use_gas` is set, as
    /// `consume_load_hash` does for the cell's hash.
    pub fn load_cell(&mut self, cell: &Cell, use_gas: bool) -> (r: Result<(), VmError>)
        ensures
            use_gas ==> charged_load(*old(self), *final(self), hash_of(*cell), r),
            !use_gas ==> r is Ok && *final(self) == *old(self),
    {
        let hash = cell_repr_hash(cell);
        self.load_hash(hash, use_gas)
    }
}

} // verus!
