//! What the core needs from the machine it runs on, and who this device is.

use vstd::prelude::*;

use crate::client::error::AppError;
use crate::client::id::{hex_digits, mint, DEVICE, USER};
use crate::ids::{DeviceId, Timestamp, UserId};

verus! {

/// The clock and the randomness, supplied by whatever hosts the core.
pub trait Platform {
    fn now(&self) -> Timestamp;

    fn random_u64(&self) -> Result<u64, AppError>;
}

/// Who this device is: its user and itself, each by id and by name.
#[derive(Debug, Clone, PartialEq, Eq)]
pub struct Identity {
    pub user: String,
    pub user_name: String,
    pub device: String,
    pub device_name: String,
}

/// FNV-1a's offset basis.
pub const FNV_OFFSET: u64 = 0xcbf2_9ce4_8422_2325;

/// FNV-1a's prime.
pub const FNV_PRIME: u64 = 0x0000_0100_0000_01b3;

/// The 64-bit FNV-1a hash of `bytes`.
pub open spec fn fnv1a(bytes: Seq<u8>) -> u64
    decreases bytes.len(),
{
    if bytes.len() == 0 {
        FNV_OFFSET
    } else {
        (fnv1a(bytes.drop_last()) ^ (bytes.last() as u64)).wrapping_mul(FNV_PRIME)
    }
}

impl Identity {
    /// A new identity: fresh ids for the user and the device, and the names
    /// they go by.
    pub fn mint<P: Platform>(platform: &P, user_name: String, device_name: String) -> (r: Result<
        Identity,
        AppError,
    >)
        ensures
            r matches Ok(i) ==> i.user_name@ == user_name@ && i.device_name@ == device_name@,
            r matches Ok(i) ==> exists|n: u64| i.user@ == USER@ + hex_digits(n as nat, 16),
            r matches Ok(i) ==> exists|n: u64| i.device@ == DEVICE@ + hex_digits(n as nat, 16),
    {
        let user = match mint(platform, USER) {
            Ok(u) => u,
            Err(e) => return Err(e),
        };
        let device = match mint(platform, DEVICE) {
            Ok(d) => d,
            Err(e) => return Err(e),
        };
        Ok(Identity { user, user_name, device, device_name })
    }

    pub fn user_id(&self) -> (id: UserId)
        ensures
            id@ == self.user@,
    {
        UserId::from_raw(self.user.as_str())
    }

    pub fn device_id(&self) -> (id: DeviceId)
        ensures
            id@ == self.device@,
    {
        DeviceId::from_raw(self.device.as_str())
    }

    /// This device's number among the replicas: the FNV-1a hash of its id,
    /// so it is stable for a device and differs between devices.
    pub fn peer(&self) -> (h: u64)
        ensures
            h == fnv1a(vstd::utf8::encode_utf8(self.device@)),
    {
        let bytes = self.device.as_str().as_bytes();
        let mut hash: u64 = FNV_OFFSET;
        let mut i: usize = 0;
        while i < bytes.len()
            invariant
                i <= bytes@.len(),
                hash == fnv1a(bytes@.take(i as int)),
            decreases bytes@.len() - i,
        {
            proof {
                assert(bytes@.take(i + 1).drop_last() =~= bytes@.take(i as int));
            }
            hash = (hash ^ (bytes[i] as u64)).wrapping_mul(FNV_PRIME);
            i = i + 1;
        }
        proof {
            assert(bytes@.take(i as int) =~= bytes@);
        }
        hash
    }
}

} // verus!
