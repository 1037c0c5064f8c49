//! The people sharing the list, and the devices they carry.
//!
//! Users and devices are modelled separately: a person owns several devices,
//! and revocation is a per-device act while attribution is a per-person one.
//! Everything keyed on these names is **declarative, never access control**.

use vstd::prelude::*;

use crate::ids::{DeviceId, Timestamp, UserId};

verus! {

/// A person, as far as attribution is concerned.
#[derive(Debug, PartialEq, Eq)]
pub struct User {
    pub id: UserId,
    /// Shown wherever attribution surfaces: "added by Alexis".
    pub name: String,
}

impl Clone for User {
    fn clone(&self) -> (r: Self)
        ensures
            r == *self,
    {
        User { id: self.id.clone(), name: self.name.clone() }
    }
}

impl User {
    pub fn new(id: UserId, name: &str) -> (r: User)
        ensures
            r.id == id,
            r.name@ == name@,
    {
        User { id, name: name.to_owned() }
    }
}

/// A paired device, belonging to exactly one user.
#[derive(Debug, PartialEq, Eq)]
pub struct Device {
    pub id: DeviceId,
    pub owner: UserId,
    /// What the device list calls it — "Alexis' iPhone".
    pub name: String,
    /// When this device joined the family document. Supplied by the caller,
    /// like every timestamp here: the domain reads no clock.
    pub paired_at: Timestamp,
}

impl Clone for Device {
    fn clone(&self) -> (r: Self)
        ensures
            r == *self,
    {
        Device {
            id: self.id.clone(),
            owner: self.owner.clone(),
            name: self.name.clone(),
            paired_at: self.paired_at,
        }
    }
}

impl Device {
    pub fn new(id: DeviceId, owner: UserId, name: &str, paired_at: Timestamp) -> (r: Device)
        ensures
            r.id == id,
            r.owner == owner,
            r.name@ == name@,
            r.paired_at == paired_at,
    {
        Device { id, owner, name: name.to_owned(), paired_at }
    }
}

/// The devices of `devices` that belong to `owner`, in order.
pub open spec fn owned_by(devices: Seq<Device>, owner: Seq<char>) -> Seq<Device>
    decreases devices.len(),
{
    if devices.len() == 0 {
        seq![]
    } else {
        let rest = owned_by(devices.drop_last(), owner);
        if devices.last().owner@ == owner {
            rest.push(devices.last())
        } else {
            rest
        }
    }
}

/// The devices belonging to `owner`, in the order given.
///
/// Reported, never enforced: a device whose owner is not in the roster is
/// simply absent from every user's list rather than an error.
pub fn devices_of(devices: &[Device], owner: &UserId) -> (r: Vec<Device>)
    ensures
        r@ == owned_by(devices@, owner@),
{
    let mut r: Vec<Device> = Vec::new();
    let mut i: usize = 0;
    while i < devices.len()
        invariant
            i <= devices@.len(),
            r@ == owned_by(devices@.take(i as int), owner@),
        decreases devices@.len() - i,
    {
        proof {
            assert(devices@.take(i + 1).drop_last() =~= devices@.take(i as int));
        }
        if devices[i].owner.same(owner) {
            r.push(devices[i].clone());
        }
        i = i + 1;
    }
    proof {
        assert(devices@.take(i as int) =~= devices@);
    }
    r
}

/// Every device listed for a person belongs to that person, and none of
/// theirs is left out.
pub proof fn law_devices_of_are_exactly_the_owners(devices: Seq<Device>, owner: Seq<char>)
    ensures
        forall|i: int|
            0 <= i < owned_by(devices, owner).len() ==> (#[trigger] owned_by(devices, owner)[i]).owner@
                == owner,
        forall|i: int|
            0 <= i < devices.len() && (#[trigger] devices[i]).owner@ == owner ==> owned_by(
                devices,
                owner,
            ).contains(devices[i]),
    decreases devices.len(),
{
    if devices.len() > 0 {
        let init = devices.drop_last();
        law_devices_of_are_exactly_the_owners(init, owner);
        assert forall|i: int|
            0 <= i < devices.len() && (#[trigger] devices[i]).owner@ == owner implies owned_by(
            devices,
            owner,
        ).contains(devices[i]) by {
            if i < devices.len() - 1 {
                assert(devices[i] == init[i]);
                let j = choose|j: int|
                    0 <= j < owned_by(init, owner).len() && owned_by(init, owner)[j] == init[i];
                assert(owned_by(devices, owner)[j] == devices[i]);
            } else {
                assert(owned_by(devices, owner).last() == devices[i]);
            }
        }
    }
}

} // verus!
