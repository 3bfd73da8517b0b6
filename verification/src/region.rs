//! The memory region allocator: one persistent linear byte space, presented
//! as independent regions keyed by small integer indices. Each region is
//! owned by exactly one structure, and reattaching after a restart yields the
//! same underlying bytes.

use ic_stable_structures::memory_manager::{MemoryId, MemoryManager, VirtualMemory};
use ic_stable_structures::DefaultMemoryImpl;
use vstd::prelude::*;

verus! {

/// The one persistent byte space the process owns.
#[verifier::external_body]
pub struct BackingMemory {
    memory: DefaultMemoryImpl,
}

/// Partitions the backing space into independent numbered regions.
#[verifier::external_body]
pub struct RegionSpace {
    manager: MemoryManager<DefaultMemoryImpl>,
}

/// A handle over one region's bytes.
#[verifier::external_body]
pub struct RegionHandle {
    pub(crate) memory: VirtualMemory<DefaultMemoryImpl>,
}

/// The purpose of each region, resolved to its index in exactly one place so
/// that a new region cannot silently collide with an existing one.
pub enum RegionPurpose {
    IdCounter,
    ServiceTable,
}

impl RegionPurpose {
    /// The fixed region index this purpose owns.
    pub open spec fn region_index(self) -> u8 {
        match self {
            RegionPurpose::IdCounter => 0u8,
            RegionPurpose::ServiceTable => 1u8,
        }
    }

    /// Resolves the purpose to its region index.
    pub fn index(&self) -> (i: u8)
        ensures
            i == self.region_index(),
            i < 255,
    {
        match self {
            RegionPurpose::IdCounter => 0,
            RegionPurpose::ServiceTable => 1,
        }
    }
}

/// Relies on `DefaultMemoryImpl::default`: a handle on the process's
/// persistent byte space.
#[verifier::external_body]
pub fn backing_memory() -> BackingMemory {
    BackingMemory { memory: DefaultMemoryImpl::default() }
}

/// Relies on `MemoryManager::init`: presents the backing space as numbered
/// regions, reattaching to whatever each region already holds.
#[verifier::external_body]
pub fn region_space(backing: BackingMemory) -> RegionSpace {
    RegionSpace { manager: MemoryManager::init(backing.memory) }
}

/// Relies on `MemoryManager::get`: a handle over the region with the given
/// index; repeated calls with one index address the same underlying bytes.
/// Index 255 is reserved by the manager and refused.
#[verifier::external_body]
pub fn region(space: &RegionSpace, index: u8) -> RegionHandle
    requires
        index < 255,
{
    RegionHandle { memory: space.manager.get(MemoryId::new(index)) }
}

} // verus!
