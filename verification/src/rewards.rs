//! The reward-token account.
//!
//! The fungible-token contract that actually moves balances is an external
//! collaborator: this ledger stops at recording that a mint was authorized.
//! [`RewardToken`] holds the token's configuration and decides, for a mint
//! request, whether the acting principal is the configured admin; the host
//! delivers the mint notification on success.

use vstd::prelude::*;

use crate::errors::LedgerError;
use crate::ids::Principal;

verus! {

/// The reward-token configuration.
pub struct RewardToken {
    pub admin: Option<Principal>,
    pub name: Option<Vec<u8>>,
    pub symbol: Option<Vec<u8>>,
    pub initialized: bool,
}

/// Mathematical image of the token configuration.
#[verifier::ext_equal]
pub ghost struct TokenV {
    pub admin: Option<Principal>,
    pub name: Option<Seq<u8>>,
    pub symbol: Option<Seq<u8>>,
    pub initialized: bool,
}

impl View for RewardToken {
    type V = TokenV;

    open spec fn view(&self) -> TokenV {
        TokenV {
            admin: self.admin,
            name: match self.name {
                Some(ref n) => Some(n@),
                None => None,
            },
            symbol: match self.symbol {
                Some(ref y) => Some(y@),
                None => None,
            },
            initialized: self.initialized,
        }
    }
}

impl RewardToken {
    /// An empty, unconfigured token.
    pub fn new() -> (s: RewardToken)
        ensures
            s@ == (TokenV { admin: None, name: None, symbol: None, initialized: false }),
    {
        RewardToken { admin: None, name: None, symbol: None, initialized: false }
    }

    /// Configure the token: the admin allowed to mint, and the display name
    /// and symbol.  Re-initialization silently overwrites.
    pub fn initialize(&mut self, admin: Principal, name: Vec<u8>, symbol: Vec<u8>)
        ensures
            final(self)@ == (TokenV {
                admin: Some(admin),
                name: Some(name@),
                symbol: Some(symbol@),
                initialized: true,
            }),
    {
        self.admin = Some(admin);
        self.name = Some(name);
        self.symbol = Some(symbol);
        self.initialized = true;
        proof {
            assert(self@ =~= (TokenV {
                admin: Some(admin),
                name: Some(name@),
                symbol: Some(symbol@),
                initialized: true,
            }));
        }
    }

    /// Authorize a mint of `amount` tokens to `to`.  The caller must have
    /// proved its identity to the host.  Rejected with `Uninitialized` while
    /// no admin is configured and with `Unauthorized` for any caller but the
    /// admin; on success the configuration is unchanged and the host is
    /// expected to notify the balance-moving collaborator with (to, amount).
    pub fn mint(&self, caller: Principal, to: Principal, amount: i128) -> (r: Result<
        (),
        LedgerError,
    >)
        ensures
            r == (if self@.admin is None {
                Err::<(), LedgerError>(LedgerError::Uninitialized)
            } else if self@.admin != Some(caller) {
                Err::<(), LedgerError>(LedgerError::Unauthorized)
            } else {
                Ok::<(), LedgerError>(())
            }),
    {
        let _ = to;
        let _ = amount;
        match self.admin {
            None => Err(LedgerError::Uninitialized),
            Some(a) => {
                if a != caller {
                    Err(LedgerError::Unauthorized)
                } else {
                    Ok(())
                }
            },
        }
    }

    /// The configured display name, if any.
    pub fn name(&self) -> (r: Option<&Vec<u8>>)
        ensures
            match r {
                Some(n) => self@.name == Some(n@),
                None => self@.name is None,
            },
    {
        self.name.as_ref()
    }

    /// The configured symbol, if any.
    pub fn symbol(&self) -> (r: Option<&Vec<u8>>)
        ensures
            match r {
                Some(y) => self@.symbol == Some(y@),
                None => self@.symbol is None,
            },
    {
        self.symbol.as_ref()
    }
}

} // verus!
