//! The splitter configuration record and the errors its operations report.

use vstd::prelude::*;

verus! {

/// An opaque account identifier: a recipient address, an authority, or a
/// derived storage key.  The store resolves identifiers by equality only.
#[derive(Clone, Copy, PartialEq, Eq, Structural, Debug)]
pub struct AccountId {
    pub id: u64,
}

/// Every way an operation on a splitter can be refused.
#[derive(Clone, Copy, PartialEq, Eq, Structural, Debug)]
pub enum ErrorCode {
    /// The three shares do not sum to exactly 100.
    InvalidShares,
    /// A configuration already occupies the derived key.
    AlreadyExists,
    /// The caller is not the authority recorded in the configuration.
    Unauthorized,
    /// The payer's balance is below the amount to be split.
    InsufficientFunds,
    /// No configuration stands at the derived key given to the executor.
    StaleConfig,
    /// No configuration stands at the key given to `update_shares`.
    NotFound,
}

/// A splitter configuration: three recipients, their percentage shares,
/// the authority allowed to change the shares, and the derivation proof
/// (`bump`) recorded by the account store.
#[derive(Clone, Copy, PartialEq, Eq, Structural, Debug)]
pub struct Splitter {
    pub merchant: AccountId,
    pub agent: AccountId,
    pub platform: AccountId,
    pub merchant_share: u8,
    pub agent_share: u8,
    pub platform_share: u8,
    pub authority: AccountId,
    pub bump: u8,
}

/// The single validity rule on shares: they sum to exactly 100.
pub open spec fn valid_shares(merchant_share: u8, agent_share: u8, platform_share: u8) -> bool {
    merchant_share + agent_share + platform_share == 100
}

impl Splitter {
    /// A well-formed configuration keeps the 100-sum invariant.
    pub open spec fn wf(self) -> bool {
        valid_shares(self.merchant_share, self.agent_share, self.platform_share)
    }
}

/// Runtime form of `valid_shares`, widened so the sum cannot overflow.
pub fn shares_are_valid(merchant_share: u8, agent_share: u8, platform_share: u8) -> (r: bool)
    ensures
        r == valid_shares(merchant_share, agent_share, platform_share),
{
    (merchant_share as u64) + (agent_share as u64) + (platform_share as u64) == 100
}

} // verus!
