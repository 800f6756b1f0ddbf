//! Consensus epochs and the tree version each of them selects.

use vstd::prelude::*;
use zcash_protocol::consensus::BranchId;

verus! {

/// A consensus epoch: the stretch of chain between two network upgrades.
#[allow(non_camel_case_types)]
#[derive(Clone, Copy, Debug, PartialEq, Eq, Structural)]
pub enum Epoch {
    Sprout,
    Overwinter,
    Sapling,
    Blossom,
    Heartwood,
    Canopy,
    Nu5,
    Nu6,
    Nu6_1,
    Nu6_2,
    Nu6_3,
    Nu7,
}

/// The two rule sets for encoding and hashing tree nodes.
#[derive(Clone, Copy, Debug, PartialEq, Eq, Structural)]
pub enum TreeVersion {
    /// Nodes without Orchard metadata.
    Legacy,
    /// Nodes that also carry Orchard metadata.
    Current,
}

/// The epoch that a consensus branch identifier stands for, if any.
pub open spec fn epoch_of_id(id: u32) -> Option<Epoch> {
    if id == 0 {
        Some(Epoch::Sprout)
    } else if id == 0x5ba8_1b19 {
        Some(Epoch::Overwinter)
    } else if id == 0x76b8_09bb {
        Some(Epoch::Sapling)
    } else if id == 0x2bb4_0e60 {
        Some(Epoch::Blossom)
    } else if id == 0xf5b9_230b {
        Some(Epoch::Heartwood)
    } else if id == 0xe9ff_75a6 {
        Some(Epoch::Canopy)
    } else if id == 0xc2d6_d0b4 {
        Some(Epoch::Nu5)
    } else if id == 0xc8e7_1055 {
        Some(Epoch::Nu6)
    } else if id == 0x4dec_4df0 {
        Some(Epoch::Nu6_1)
    } else if id == 0x5437_f330 {
        Some(Epoch::Nu6_2)
    } else if id == 0x37a5_165b {
        Some(Epoch::Nu6_3)
    } else if id == 0x7719_0ad9 {
        Some(Epoch::Nu7)
    } else {
        None
    }
}

/// The tree version in force during an epoch. The rules changed once, with
/// Nu5: every epoch before it has the legacy rules, Nu5 and every epoch after
/// it the current ones.
pub open spec fn version_in(epoch: Epoch) -> TreeVersion {
    match epoch {
        Epoch::Sprout
        | Epoch::Overwinter
        | Epoch::Sapling
        | Epoch::Blossom
        | Epoch::Heartwood
        | Epoch::Canopy => TreeVersion::Legacy,
        _ => TreeVersion::Current,
    }
}

/// Whether `id` names one of the epochs of the legacy rules: those before Nu5.
pub open spec fn legacy_epoch(id: u32) -> bool {
    id == 0 || id == 0x5ba8_1b19 || id == 0x76b8_09bb || id == 0x2bb4_0e60 || id == 0xf5b9_230b
        || id == 0xe9ff_75a6
}

/// Whether `id` names an epoch.
pub open spec fn is_known_epoch(id: u32) -> bool {
    epoch_of_id(id) is Some
}

/// The tree version that the epoch named by `id` selects.
pub open spec fn version_of_id(id: u32) -> TreeVersion
    recommends
        is_known_epoch(id),
{
    version_in(epoch_of_id(id)->0)
}

/// Calls `BranchId::try_from` of zcash_protocol and renames the variant it
/// returns. Trusted: the identifiers in `epoch_of_id` are those that the
/// conversion accepts, each with the variant of the same name, and every other
/// identifier is refused.
#[verifier::external_body]
fn lookup_epoch(id: u32) -> (r: Option<Epoch>)
    ensures
        r == epoch_of_id(id),
{
    match BranchId::try_from(id) {
        Ok(BranchId::Sprout) => Some(Epoch::Sprout),
        Ok(BranchId::Overwinter) => Some(Epoch::Overwinter),
        Ok(BranchId::Sapling) => Some(Epoch::Sapling),
        Ok(BranchId::Blossom) => Some(Epoch::Blossom),
        Ok(BranchId::Heartwood) => Some(Epoch::Heartwood),
        Ok(BranchId::Canopy) => Some(Epoch::Canopy),
        Ok(BranchId::Nu5) => Some(Epoch::Nu5),
        Ok(BranchId::Nu6) => Some(Epoch::Nu6),
        Ok(BranchId::Nu6_1) => Some(Epoch::Nu6_1),
        Ok(BranchId::Nu6_2) => Some(Epoch::Nu6_2),
        Ok(BranchId::Nu6_3) => Some(Epoch::Nu6_3),
        Ok(BranchId::Nu7) => Some(Epoch::Nu7),
        Err(_) => None,
    }
}

/// The epoch named by `id`, or `None` where the protocol knows no such epoch.
pub fn epoch_for(id: u32) -> (r: Option<Epoch>)
    ensures
        r == epoch_of_id(id),
{
    lookup_epoch(id)
}

/// The tree version in force during `epoch`.
pub fn version_for(epoch: Epoch) -> (v: TreeVersion)
    ensures
        v == version_in(epoch),
{
    match epoch {
        Epoch::Sprout
        | Epoch::Overwinter
        | Epoch::Sapling
        | Epoch::Blossom
        | Epoch::Heartwood
        | Epoch::Canopy => TreeVersion::Legacy,
        _ => TreeVersion::Current,
    }
}

/// The tree version for the epoch named by `id`. An identifier that names no
/// epoch is a mistake of the caller; `is_known` tells the two apart.
pub fn select_version(id: u32) -> (v: TreeVersion)
    requires
        is_known_epoch(id),
    ensures
        v == version_of_id(id),
{
    match lookup_epoch(id) {
        Some(epoch) => version_for(epoch),
        None => TreeVersion::Current,
    }
}

/// Whether `id` names an epoch.
pub fn is_known(id: u32) -> (b: bool)
    ensures
        b == is_known_epoch(id),
{
    lookup_epoch(id).is_some()
}

} // verus!
