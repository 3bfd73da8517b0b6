//! The monotonic id generator: an 8-byte counter persisted in its own
//! region, holding the last identifier minted so far. Identifiers strictly
//! increase over the lifetime of the store, restarts included, because every
//! mint persists the new counter before reporting it.
//!
//! Persisted layout of the counter region, fixed by the cell it lives in:
//! the cell's header (a 3-byte magic, a 1-byte layout version, a 4-byte
//! little-endian value length), then the counter as 8 big-endian bytes.

use crate::region::RegionHandle;
use ic_stable_structures::memory_manager::VirtualMemory;
use ic_stable_structures::{Cell, DefaultMemoryImpl};
use vstd::prelude::*;

verus! {

/// A persisted cell holding the counter.
#[verifier::external_body]
pub struct CounterCell {
    cell: Cell<u64, VirtualMemory<DefaultMemoryImpl>>,
}

/// The value the cell holds.
pub uninterp spec fn counter_value(c: CounterCell) -> u64;

/// Relies on `Cell::init`: loads the value persisted in the region, or
/// persists and holds `default` when the region is still untouched; a failed
/// durable write traps rather than returning.
#[verifier::external_body]
fn counter_init(region: RegionHandle, default: u64) -> CounterCell {
    CounterCell { cell: Cell::init(region.memory, default) }
}

/// Relies on `Cell::get`: returns the held value without mutating it.
#[verifier::external_body]
fn counter_get(c: &CounterCell) -> (v: u64)
    ensures
        v == counter_value(*c),
{
    *c.cell.get()
}

/// Relies on `Cell::set`: durably persists `v`, then returns the previously
/// held value; a failed durable write traps rather than reporting an
/// in-memory-only success.
#[verifier::external_body]
fn counter_set(c: &mut CounterCell, v: u64) -> (prev: u64)
    ensures
        counter_value(*final(c)) == v,
        prev == counter_value(*old(c)),
{
    c.cell.set(v)
}

/// The monotonic id generator; its value is the last minted identifier, 0
/// before the first mint ever.
pub struct IdGen {
    cell: CounterCell,
}

impl IdGen {
    /// The last minted identifier.
    pub closed spec fn value(self) -> u64 {
        counter_value(self.cell)
    }

    /// Attaches to the counter region: the generator resumes from the last
    /// persisted value, or from 0 on first-ever use.
    pub fn attach(region: RegionHandle) -> (g: IdGen) {
        IdGen { cell: counter_init(region, 0) }
    }

    /// Reads the counter without minting.
    pub fn current(&self) -> (v: u64)
        ensures
            v == self.value(),
    {
        counter_get(&self.cell)
    }

    /// Mints a fresh identifier: persists the incremented counter, then
    /// returns it. Every identifier minted later is strictly greater.
    pub fn next(&mut self) -> (id: u64)
        requires
            old(self).value() < u64::MAX,
        ensures
            id == old(self).value() + 1,
            final(self).value() == id,
    {
        let current = counter_get(&self.cell);
        let _prev = counter_set(&mut self.cell, current + 1);
        current + 1
    }
}

} // verus!
