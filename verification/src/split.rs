//! The split executor: turns a configuration and a payment amount into
//! the three disbursement amounts, by floor division over percentages.

use vstd::prelude::*;
use vstd::arithmetic::div_mod::{lemma_fundamental_div_mod, lemma_mod_bound};
use crate::splitter::Splitter;

verus! {

/// The three amounts a payment is divided into.
#[derive(Clone, Copy, PartialEq, Eq, Structural, Debug)]
pub struct SplitOutcome {
    pub merchant_amount: u64,
    pub agent_amount: u64,
    pub platform_amount: u64,
}

/// One recipient's cut of `amount`: `floor(amount * share / 100)`.
pub open spec fn share_amount(amount: u64, share: u8) -> int {
    (amount as int * share as int) / 100
}

/// The total disbursed by a split under `config`.
pub open spec fn split_total(amount: u64, config: Splitter) -> int {
    share_amount(amount, config.merchant_share) + share_amount(amount, config.agent_share)
        + share_amount(amount, config.platform_share)
}

/// Law: because the shares sum to exactly 100, a split disburses at most
/// `amount`, and the dust withheld by truncation is at most 2 units.
pub proof fn lemma_split_sum(amount: u64, config: Splitter)
    requires
        config.wf(),
    ensures
        0 <= split_total(amount, config) <= amount,
        amount - split_total(amount, config) <= 2,
{
    let a = amount as int;
    let m = config.merchant_share as int;
    let g = config.agent_share as int;
    let p = config.platform_share as int;
    let am = a * m;
    let ag = a * g;
    let ap = a * p;
    assert(am >= 0 && ag >= 0 && ap >= 0) by (nonlinear_arith)
        requires
            a >= 0,
            m >= 0,
            g >= 0,
            p >= 0,
            am == a * m,
            ag == a * g,
            ap == a * p,
    ;
    assert(am + ag + ap == a * 100) by (nonlinear_arith)
        requires
            m + g + p == 100,
            am == a * m,
            ag == a * g,
            ap == a * p,
    ;
    lemma_fundamental_div_mod(am, 100);
    lemma_fundamental_div_mod(ag, 100);
    lemma_fundamental_div_mod(ap, 100);
    lemma_mod_bound(am, 100);
    lemma_mod_bound(ag, 100);
    lemma_mod_bound(ap, 100);
    let total = am / 100 + ag / 100 + ap / 100;
    assert(100 * total == 100 * a - (am % 100 + ag % 100 + ap % 100));
}

/// Law: each individual disbursement is at most `amount`.
pub proof fn lemma_share_amount_le(amount: u64, share: u8)
    requires
        share <= 100,
    ensures
        0 <= share_amount(amount, share) <= amount,
{
    let a = amount as int;
    let s = share as int;
    let prod = a * s;
    assert(0 <= prod <= a * 100) by (nonlinear_arith)
        requires
            a >= 0,
            0 <= s <= 100,
            prod == a * s,
    ;
    lemma_fundamental_div_mod(prod, 100);
    lemma_mod_bound(prod, 100);
    assert(a * 100 / 100 == a) by (nonlinear_arith);
    vstd::arithmetic::div_mod::lemma_div_is_ordered(prod, a * 100, 100);
}

/// Computes the three disbursement amounts for `amount` under `config`:
/// each is `floor(amount * share / 100)`, taken with a 128-bit
/// intermediate product so the multiplication cannot overflow.  The
/// residual dust stays with the payer and is at most 2 units.
pub fn compute_split(config: &Splitter, amount: u64) -> (r: SplitOutcome)
    requires
        config.wf(),
    ensures
        r.merchant_amount == share_amount(amount, config.merchant_share),
        r.agent_amount == share_amount(amount, config.agent_share),
        r.platform_amount == share_amount(amount, config.platform_share),
        r.merchant_amount + r.agent_amount + r.platform_amount <= amount,
        amount - (r.merchant_amount + r.agent_amount + r.platform_amount) <= 2,
        r.merchant_amount <= amount,
        r.agent_amount <= amount,
        r.platform_amount <= amount,
{
    proof {
        lemma_split_sum(amount, *config);
        lemma_share_amount_le(amount, config.merchant_share);
        lemma_share_amount_le(amount, config.agent_share);
        lemma_share_amount_le(amount, config.platform_share);
    }
    let merchant_amount: u64 = ((amount as u128) * (config.merchant_share as u128) / 100) as u64;
    let agent_amount: u64 = ((amount as u128) * (config.agent_share as u128) / 100) as u64;
    let platform_amount: u64 = ((amount as u128) * (config.platform_share as u128) / 100) as u64;
    SplitOutcome { merchant_amount, agent_amount, platform_amount }
}

} // verus!
