//! Minting identifiers.
//!
//! **Random, not sequential.** Two devices offline at the same time both mint
//! ids, and a counter would have them both mint the same one — which under a
//! CRDT is not a conflict but a silent merge of two different recipes into
//! one. Sixty-four bits makes that collision impossible in practice for a
//! library of a few thousand entities.
//!
//! The prefix is for humans: a raw document dump or a sync trace is much
//! easier to read when `rec_…` is visibly not `ing_…`. Nothing parses it,
//! and nothing may start to — an id that carries meaning is an id that
//! cannot be changed.

use vstd::prelude::*;

use crate::client::error::AppError;
use crate::client::platform::Platform;
use crate::text::{digit, digit_char, push_str, string_of};

verus! {

pub const INGREDIENT: &'static str = "ing_";

pub const RECIPE: &'static str = "rec_";

pub const USAGE: &'static str = "use_";

pub const LIST_ENTRY: &'static str = "ent_";

pub const USER: &'static str = "usr_";

pub const DEVICE: &'static str = "dev_";

/// The last `width` hex digits of `n`, most significant first.
pub open spec fn hex_digits(n: nat, width: nat) -> Seq<char>
    decreases width,
{
    if width == 0 {
        seq![]
    } else {
        hex_digits(n / 16, (width - 1) as nat).push(digit((n % 16) as int))
    }
}

/// `prefix` and then `n` as sixteen lowercase hex digits: fixed width, so
/// ids sort the same way whatever the value.
pub fn format_id(prefix: &str, n: u64) -> (s: String)
    ensures
        s@ == prefix@ + hex_digits(n as nat, 16),
{
    let mut digits: Vec<char> = Vec::new();
    let mut rest: u64 = n;
    let mut k: usize = 0;
    while k < 16
        invariant
            k <= 16,
            digits@.len() == k,
            hex_digits(n as nat, 16) == hex_digits(rest as nat, (16 - k) as nat) + digits@,
        decreases 16 - k,
    {
        let d = (rest % 16) as u8;
        let ghost before = digits@;
        digits.insert(0, digit_char(d));
        proof {
            assert(hex_digits(rest as nat, (16 - k) as nat) == hex_digits(rest as nat / 16, (16 - k - 1) as nat).push(digit((rest as nat % 16) as int)));
            assert(hex_digits(rest as nat / 16, (16 - k - 1) as nat) + digits@ =~= hex_digits(rest as nat / 16, (16 - k - 1) as nat).push(digit((rest as nat % 16) as int)) + before);
        }
        rest = rest / 16;
        k = k + 1;
    }
    let mut out: Vec<char> = Vec::new();
    push_str(&mut out, prefix);
    let mut j: usize = 0;
    while j < 16
        invariant
            j <= 16,
            digits@.len() == 16,
            out@ == prefix@ + digits@.take(j as int),
        decreases 16 - j,
    {
        out.push(digits[j]);
        proof {
            assert(digits@.take(j + 1) =~= digits@.take(j as int).push(digits@[j as int]));
        }
        j = j + 1;
    }
    proof {
        assert(digits@.take(16) =~= digits@);
        assert(hex_digits(rest as nat, 0) =~= Seq::<char>::empty());
        assert(hex_digits(n as nat, 16) =~= digits@);
    }
    string_of(&out)
}

/// A fresh id under `prefix`, from the platform's randomness.
pub fn mint<P: Platform>(platform: &P, prefix: &str) -> (r: Result<String, AppError>)
    ensures
        r matches Ok(s) ==> exists|n: u64| s@ == prefix@ + hex_digits(n as nat, 16),
{
    match platform.random_u64() {
        Ok(n) => Ok(format_id(prefix, n)),
        Err(e) => Err(e),
    }
}

} // verus!
