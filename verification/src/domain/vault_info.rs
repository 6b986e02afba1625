//! Vault information for listing vaults.
use vstd::prelude::*;

use crate::config::Config;
use crate::text::str_eq;

verus! {

/// Information about a vault, for listing.
#[derive(Debug, Clone)]
pub struct VaultInfo {
    /// Vault name (`default`, `dev`, `prod`).
    pub name: String,
    /// Path to the vault file.
    pub path: String,
    /// Number of secrets.
    pub secret_count: usize,
    /// Number of recipients.
    pub recipient_count: usize,
    /// Whether the current identity has access.
    pub has_access: bool,
}

} // verus!

verus! {

/// The name a listing shows for a vault: its name, or `default`.
pub open spec fn listed_name(name: Option<Seq<char>>) -> Seq<char> {
    match name {
        Some(n) => n,
        None => "default"@,
    }
}

/// Whether a public key is one of the values of the recipient pairs.
pub open spec fn key_listed(ps: Seq<(Seq<char>, Seq<char>)>, key: Seq<char>) -> bool {
    exists|i: int| 0 <= i < ps.len() && #[trigger] ps[i].1 == key
}

impl VaultInfo {
    /// The listing entry of a vault from its loaded configuration; it is
    /// accessible when the current public key is one of its recipients.
    pub fn for_vault(
        name: Option<String>,
        path: String,
        config: &Config,
        identity_pubkey: Option<&str>,
    ) -> (info: Self)
        ensures
            info.name@ == listed_name(crate::config::opt_text(name)),
            info.path@ == path@,
            info.secret_count == config@.secrets.len(),
            info.recipient_count == config@.recipients.len(),
            info.has_access == (identity_pubkey matches Some(pk) && key_listed(
                config@.recipients,
                pk@,
            )),
    {
        let has_access = match identity_pubkey {
            Some(pk) => {
                let n = config.recipients.len();
                let ghost ps = config.recipients.pairs();
                let mut found = false;
                let mut i: usize = 0;
                while i < n
                    invariant
                        n == ps.len(),
                        ps == config.recipients.pairs(),
                        i <= n,
                        found == exists|j: int| 0 <= j < i && #[trigger] ps[j].1 == pk@,
                    decreases n - i,
                {
                    let (_, key) = config.recipients.entry_at(i);
                    if str_eq(key.as_str(), pk) {
                        found = true;
                    }
                    i = i + 1;
                }
                found
            },
            None => false,
        };
        VaultInfo {
            name: match name {
                Some(n) => n,
                None => String::from_str("default"),
            },
            path,
            secret_count: config.secrets.len(),
            recipient_count: config.recipients.len(),
            has_access,
        }
    }
}

} // verus!
