//! Where a target's secrets are kept in the credential vault.

use vstd::prelude::*;
use crate::model::TargetId;

verus! {

/// The name the vault files this library's secrets under.
pub const SERVICE_NAME: &'static str = "SFTP-SYNC";

/// Which secret of which target.
#[derive(Clone, Copy, PartialEq, Eq, Debug, Structural)]
pub enum SecretSlot {
    Password(TargetId),
    KeyPassphrase(TargetId),
}

/// The decimal digit for `d`.
pub open spec fn decimal_digit(d: int) -> char {
    ('0' as int + d) as char
}

/// The decimal form of `n`, without leading zeros.
pub open spec fn decimal_of(n: nat) -> Seq<char>
    decreases n,
{
    if n < 10 {
        seq![decimal_digit(n as int)]
    } else {
        decimal_of(n / 10) + seq![decimal_digit((n % 10) as int)]
    }
}

/// Executable form of [`decimal_of`].
pub fn to_decimal(n: u64) -> (r: String)
    ensures
        r@ == decimal_of(n as nat),
    decreases n,
{
    let digits = "0123456789";
    proof {
        reveal_strlit("0123456789");
    }
    let d = (n % 10) as usize;
    let last = digits.substring_char(d, d + 1);
    proof {
        assert(last@ =~= seq![decimal_digit(d as int)]);
    }
    if n < 10 {
        last.to_owned()
    } else {
        let mut s = to_decimal(n / 10);
        s.append(last);
        s
    }
}

/// The key a slot's secret is stored under: `target-<id>-password` or
/// `target-<id>-passphrase`.
pub open spec fn storage_key_of(slot: SecretSlot) -> Seq<char> {
    match slot {
        SecretSlot::Password(id) => "target-"@ + decimal_of(id as nat) + "-password"@,
        SecretSlot::KeyPassphrase(id) => "target-"@ + decimal_of(id as nat) + "-passphrase"@,
    }
}

impl SecretSlot {
    pub fn storage_key(&self) -> (r: String)
        ensures
            r@ == storage_key_of(*self),
    {
        let mut s = String::from_str("target-");
        match self {
            SecretSlot::Password(id) => {
                let digits = to_decimal(*id);
                s.append(digits.as_str());
                s.append("-password");
            }
            SecretSlot::KeyPassphrase(id) => {
                let digits = to_decimal(*id);
                s.append(digits.as_str());
                s.append("-passphrase");
            }
        }
        s
    }
}

/// A change to make in the vault.
pub enum SecretUpdate {
    Store { slot: SecretSlot, secret: String },
    Delete { slot: SecretSlot },
}

} // verus!
