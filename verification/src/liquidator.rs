//! The liquidation engine: when a loan is unhealthy, and what to do about it.

use crate::lending_pool::{LoanData, LoanStatus};
use vstd::arithmetic::div_mod::{
    lemma_div_is_ordered,
    lemma_div_multiples_vanish,
    lemma_fundamental_div_mod,
    lemma_hoist_over_denominator,
};
use vstd::prelude::*;

verus! {

/// Why the liquidator turned a call down.
#[derive(Copy, Clone, Debug, PartialEq, Eq, Structural, PartialOrd, Ord)]
pub enum ShieldError {
    /// The caller may not act for the identity concerned.
    Unauthorized,
    /// The loan is not open to liquidation.
    LoanHealthy,
    /// The collateral could not be withdrawn, or the exchange gave too little
    /// for it.
    LiquidateFailed,
    /// No loan has this identifier.
    LoanNotFound,
}

impl ShieldError {
    /// The number under which the error is reported.
    pub fn code(&self) -> (c: u32)
        ensures
            c == match *self {
                ShieldError::Unauthorized => 1u32,
                ShieldError::LoanHealthy => 2u32,
                ShieldError::LiquidateFailed => 3u32,
                ShieldError::LoanNotFound => 4u32,
            },
    {
        match self {
            ShieldError::Unauthorized => 1,
            ShieldError::LoanHealthy => 2,
            ShieldError::LiquidateFailed => 3,
            ShieldError::LoanNotFound => 4,
        }
    }
}

/// Ratios are given in parts of this: a ratio of 15 000 is one and a half.
pub const RATIO_SCALE: u32 = 10_000;

/// How the value of collateral that a commitment hides is established.
#[derive(Copy, Clone, Debug, PartialEq, Eq, Structural)]
pub enum CollateralValuation {
    /// By a proof that the liquidator submits.
    LiquidatorProof,
    /// By a value that the oracle attests.
    OracleFloor,
}

/// The parameters of liquidation that the protocol leaves to its deployment.
#[derive(Copy, Clone, Debug, PartialEq, Eq, Structural)]
pub struct LiquidationPolicy {
    /// The least ratio of collateral value to debt value of a healthy loan.
    pub min_ratio_bps: u32,
    /// Whose word on the collateral's value counts.
    pub valuation: CollateralValuation,
    /// The largest part of the debt that the exchange of the collateral may
    /// fall short of.
    pub max_slippage_bps: u32,
}

impl LiquidationPolicy {
    /// The slippage allowed is a part of the whole.
    pub open spec fn valid(self) -> bool {
        self.max_slippage_bps <= RATIO_SCALE
    }
}

/// What is put forward as the value of a loan's collateral.
#[derive(Copy, Clone, Debug, PartialEq, Eq, Structural)]
pub enum CollateralEvidence {
    /// The liquidator's proof that the collateral is worth `value`, and
    /// whether the verifier accepted it.
    Proven { value: u128, accepted: bool },
    /// The oracle's word that the collateral is worth `value`.
    Attested { value: u128 },
}

/// The identities a liquidator works with, written once by the first
/// `initialize`.
#[derive(Clone, Debug, PartialEq, Eq)]
pub struct LiquidatorConfig {
    pub admin: String,
    pub lending_pool: String,
    pub vault: String,
}

/// What has to happen to liquidate a loan: withdraw the collateral of
/// `deposit_id` from the vault, exchange it for at least `min_out` of
/// `debt_asset`, and close the loan through the pool.
#[derive(Clone, Debug, PartialEq, Eq)]
pub struct LiquidationOrder {
    pub loan_id: u64,
    pub deposit_id: u64,
    pub debt_asset: String,
    pub debt: i128,
    pub min_out: i128,
}

/// A loss: the exchange of a loan's collateral gave `shortfall` less than
/// the loan's debt.
#[derive(Copy, Clone, Debug, PartialEq, Eq, Structural)]
pub struct BadDebt {
    pub loan_id: u64,
    pub shortfall: i128,
}

/// How a liquidation ends: loan `loan_id` is closed through the pool, and a
/// loss, if there is one, is put on record.
#[derive(Copy, Clone, Debug, PartialEq, Eq, Structural)]
pub struct Settlement {
    pub loan_id: u64,
    pub bad_debt: Option<BadDebt>,
}

/// The value of the collateral that the evidence establishes under the
/// policy: evidence of the kind the policy names, and a proof only if the
/// verifier accepted it.
pub open spec fn established_value(
    policy: LiquidationPolicy,
    evidence: CollateralEvidence,
) -> Option<u128> {
    match (policy.valuation, evidence) {
        (CollateralValuation::LiquidatorProof, CollateralEvidence::Proven { value, accepted }) => {
            if accepted {
                Some(value)
            } else {
                None
            }
        },
        (CollateralValuation::OracleFloor, CollateralEvidence::Attested { value }) => Some(value),
        _ => None,
    }
}

/// The collateral is worth less than `min_ratio_bps` parts in
/// `RATIO_SCALE` of the debt, which is `amount` at `price` each.
pub open spec fn undercollateralized(
    collateral_value: int,
    amount: int,
    price: int,
    min_ratio_bps: int,
) -> bool {
    collateral_value * RATIO_SCALE < min_ratio_bps * (amount * price)
}

/// The loan is open to liquidation: it is active, and the value that the
/// evidence establishes for its collateral is too low for its debt.
pub open spec fn liquidatable(
    policy: LiquidationPolicy,
    loan: LoanData,
    price: u64,
    evidence: CollateralEvidence,
) -> bool {
    &&& loan.status == LoanStatus::Active
    &&& established_value(policy, evidence) is Some
    &&& undercollateralized(
        established_value(policy, evidence)->0 as int,
        loan.amount as int,
        price as int,
        policy.min_ratio_bps as int,
    )
}

/// The least that the exchange must give for the collateral of a loan of
/// `debt`: the debt less the slippage allowed, rounded down.
pub open spec fn min_out_of(debt: int, max_slippage_bps: int) -> int {
    debt * (RATIO_SCALE - max_slippage_bps) / (RATIO_SCALE as int)
}

/// What `check_liquidatable` answers of what the pool holds under `loan_id`.
pub open spec fn check_decision(
    policy: LiquidationPolicy,
    loan_id: u64,
    loan: Option<LoanData>,
    price: u64,
    evidence: CollateralEvidence,
) -> Result<bool, ShieldError> {
    match loan {
        Some(loan) => if loan.loan_id == loan_id {
            Ok(liquidatable(policy, loan, price, evidence))
        } else {
            Err(ShieldError::LoanNotFound)
        },
        None => Err(ShieldError::LoanNotFound),
    }
}

/// What `liquidate_loan` answers of what the pool holds under `loan_id`.
pub open spec fn liquidate_decision(
    policy: LiquidationPolicy,
    loan_id: u64,
    loan: Option<LoanData>,
    price: u64,
    evidence: CollateralEvidence,
) -> Result<LiquidationOrder, ShieldError> {
    match check_decision(policy, loan_id, loan, price, evidence) {
        Ok(open) => if open {
            Ok(
                LiquidationOrder {
                    loan_id,
                    deposit_id: loan->0.deposit_id,
                    debt_asset: loan->0.asset,
                    debt: loan->0.amount,
                    min_out: min_out_of(
                        loan->0.amount as int,
                        policy.max_slippage_bps as int,
                    ) as i128,
                },
            )
        } else {
            Err(ShieldError::LoanHealthy)
        },
        Err(e) => Err(e),
    }
}

/// How a liquidation ends when the exchange gave `proceeds`, or nothing
/// because the withdrawal or the exchange failed. Proceeds below the order's
/// minimum, or below nothing, fail it; proceeds below the debt leave a loss.
pub open spec fn settle_decision(order: LiquidationOrder, proceeds: Option<i128>) -> Result<
    Settlement,
    ShieldError,
> {
    match proceeds {
        Some(got) => if got < 0 || got < order.min_out {
            Err(ShieldError::LiquidateFailed)
        } else if got < order.debt {
            Ok(
                Settlement {
                    loan_id: order.loan_id,
                    bad_debt: Some(
                        BadDebt { loan_id: order.loan_id, shortfall: (order.debt - got) as i128 },
                    ),
                },
            )
        } else {
            Ok(Settlement { loan_id: order.loan_id, bad_debt: None })
        },
        None => Err(ShieldError::LiquidateFailed),
    }
}

/// The liquidator as contracts speak of it.
pub struct LiquidatorState {
    pub config: Option<LiquidatorConfig>,
    pub policy: LiquidationPolicy,
}

impl LiquidatorConfig {
    /// The configuration that `initialize` writes.
    pub open spec fn first(admin: String, lending_pool: String, vault: String) -> LiquidatorConfig {
        LiquidatorConfig { admin, lending_pool, vault }
    }
}

impl LiquidatorState {
    /// The state after `initialize(admin, lending_pool, vault)`: the first
    /// call writes the configuration, every later one changes nothing.
    pub open spec fn initialize(
        self,
        admin: String,
        lending_pool: String,
        vault: String,
    ) -> LiquidatorState {
        if self.config is Some {
            self
        } else {
            LiquidatorState {
                config: Some(LiquidatorConfig::first(admin, lending_pool, vault)),
                ..self
            }
        }
    }
}

/// The liquidation engine.
pub struct ShieldLiquidator {
    config: Option<LiquidatorConfig>,
    policy: LiquidationPolicy,
}

impl View for ShieldLiquidator {
    type V = LiquidatorState;

    closed spec fn view(&self) -> LiquidatorState {
        LiquidatorState { config: self.config, policy: self.policy }
    }
}

/// For a positive divisor, a number is below a multiple of it exactly when
/// its quotient is below the multiplier.
proof fn lemma_below_multiple(x: int, k: int, a: int)
    requires
        0 < k,
    ensures
        x < k * a <==> x / k < a,
{
    lemma_fundamental_div_mod(x, k);
    let q = x / k;
    assert(0 <= x % k < k);
    if q < a {
        assert(k * q + k <= k * a) by (nonlinear_arith)
            requires
                q + 1 <= a,
                0 < k,
        ;
    } else {
        assert(k * a <= k * q) by (nonlinear_arith)
            requires
                a <= q,
                0 < k,
        ;
    }
}

/// The quotient of `c * scale` by `k`, from the quotient and remainder of
/// `c` by `k`.
proof fn lemma_scaled_quotient(c: int, scale: int, k: int)
    requires
        0 < k,
        0 <= c,
        0 <= scale,
    ensures
        (c * scale) / k == (c / k) * scale + ((c % k) * scale) / k,
{
    let q = c / k;
    let rem = c % k;
    lemma_fundamental_div_mod(c, k);
    assert(c * scale == rem * scale + (q * scale) * k) by (nonlinear_arith)
        requires
            c == k * q + rem,
    ;
    lemma_hoist_over_denominator(rem * scale, q * scale, k as nat);
}

/// Whether collateral worth `collateral_value` is too little for a debt
/// of `amount` at `price` each.
fn is_undercollateralized(
    collateral_value: u128,
    amount: i128,
    price: u64,
    min_ratio_bps: u32,
) -> (low: bool)
    ensures
        low == undercollateralized(
            collateral_value as int,
            amount as int,
            price as int,
            min_ratio_bps as int,
        ),
{
    let scale: u128 = RATIO_SCALE as u128;
    if amount <= 0 || price == 0 || min_ratio_bps == 0 {
        assert(min_ratio_bps * (amount * price) <= 0) by (nonlinear_arith)
            requires
                amount <= 0 || price == 0 || min_ratio_bps == 0,
                0 <= price,
                0 <= min_ratio_bps,
        ;
        assert(0 <= collateral_value * RATIO_SCALE) by (nonlinear_arith)
            requires
                0 <= collateral_value,
                0 <= RATIO_SCALE,
        ;
        return false;
    }
    let debt: u128 = amount as u128;
    assert(min_ratio_bps * price < 0x1_0000_0000_0000_0000_0000_0000 && 0 < min_ratio_bps * price)
        by (nonlinear_arith)
        requires
            0 < min_ratio_bps < 0x1_0000_0000,
            0 < price < 0x1_0000_0000_0000_0000,
    ;
    let k: u128 = (min_ratio_bps as u128) * (price as u128);
    let q: u128 = collateral_value / k;
    let rem: u128 = collateral_value % k;
    assert(rem * scale < 0x1_0000_0000_0000_0000_0000_0000 * 10_000) by (nonlinear_arith)
        requires
            0 <= rem < 0x1_0000_0000_0000_0000_0000_0000,
            scale == 10_000,
    ;
    let low_part: u128 = (rem * scale) / k;
    proof {
        lemma_scaled_quotient(collateral_value as int, scale as int, k as int);
        lemma_below_multiple(collateral_value * scale, k as int, debt as int);
        assert(min_ratio_bps * (amount * price) == k * debt) by (nonlinear_arith)
            requires
                k == min_ratio_bps * price,
                debt == amount,
        ;
        assert(0 <= q * scale) by (nonlinear_arith)
            requires
                0 <= q,
                0 <= scale,
        ;
    }
    match q.checked_mul(scale) {
        Some(high_part) => match high_part.checked_add(low_part) {
            Some(quotient) => quotient < debt,
            None => false,
        },
        None => false,
    }
}

/// The least that the exchange must give for the collateral of a loan of
/// `debt`.
fn min_out(debt: i128, max_slippage_bps: u32) -> (least: i128)
    requires
        0 < debt,
        max_slippage_bps <= RATIO_SCALE,
    ensures
        least == min_out_of(debt as int, max_slippage_bps as int),
        0 <= least <= debt,
{
    let scale: u128 = RATIO_SCALE as u128;
    let keep: u128 = (RATIO_SCALE - max_slippage_bps) as u128;
    let whole: u128 = debt as u128;
    let q: u128 = whole / scale;
    let rem: u128 = whole % scale;
    proof {
        lemma_scaled_quotient(whole as int, keep as int, scale as int);
        assert(q * keep <= q * scale) by (nonlinear_arith)
            requires
                0 <= q,
                0 <= keep <= scale,
        ;
        assert(rem * keep <= rem * scale && 0 <= rem * keep) by (nonlinear_arith)
            requires
                0 <= rem,
                0 <= keep <= scale,
        ;
        lemma_div_is_ordered(rem * keep, rem * scale, scale as int);
        assert(rem * scale == scale * rem) by (nonlinear_arith);
        lemma_div_multiples_vanish(rem as int, scale as int);
        lemma_fundamental_div_mod(whole as int, scale as int);
        assert(scale * q == q * scale) by (nonlinear_arith);
        assert(rem * keep < 100_000_000) by (nonlinear_arith)
            requires
                0 <= rem < 10_000,
                0 <= keep <= 10_000,
        ;
    }
    let least: u128 = q * keep + (rem * keep) / scale;
    least as i128
}

impl ShieldLiquidator {
    /// A liquidator that works to `policy` and that nobody has initialised;
    /// nothing if the policy allows more slippage than the whole.
    pub fn new(policy: LiquidationPolicy) -> (r: Option<ShieldLiquidator>)
        ensures
            match r {
                Some(liquidator) => {
                    &&& policy.valid()
                    &&& liquidator@.config is None
                    &&& liquidator@.policy == policy
                },
                None => !policy.valid(),
            },
    {
        if policy.max_slippage_bps > RATIO_SCALE {
            return None;
        }
        Some(ShieldLiquidator { config: None, policy })
    }

    #[verifier::type_invariant]
    spec fn inv(&self) -> bool {
        self.policy.valid()
    }

    /// Names the administrator, the lending pool and the vault. The first
    /// call wins: on a liquidator that has been initialised already this
    /// changes nothing, and succeeds all the same.
    pub fn initialize(&mut self, admin: String, lending_pool: String, vault: String) -> (r: Result<
        (),
        ShieldError,
    >)
        ensures
            r is Ok,
            final(self)@ == old(self)@.initialize(admin, lending_pool, vault),
    {
        proof {
            use_type_invariant(&*self);
        }
        if self.config.is_some() {
            return Ok(());
        }
        self.config = Some(LiquidatorConfig { admin, lending_pool, vault });
        Ok(())
    }

    /// The liquidator's configuration, once it has been initialised.
    pub fn get_config(&self) -> (r: Option<LiquidatorConfig>)
        ensures
            r == self@.config,
    {
        match &self.config {
            Some(c) => Some(
                LiquidatorConfig {
                    admin: c.admin.clone(),
                    lending_pool: c.lending_pool.clone(),
                    vault: c.vault.clone(),
                },
            ),
            None => None,
        }
    }

    /// The policy the liquidator works to.
    pub fn get_policy(&self) -> (policy: LiquidationPolicy)
        ensures
            policy == self@.policy,
            policy.valid(),
    {
        proof {
            use_type_invariant(self);
        }
        self.policy
    }

    /// Whether the loan that the pool holds under `loan_id` is open to
    /// liquidation, at the oracle's `price` for its asset and on the
    /// evidence given for its collateral's value.
    pub fn check_liquidatable(
        &self,
        loan_id: u64,
        loan: &Option<LoanData>,
        price: u64,
        evidence: CollateralEvidence,
    ) -> (r: Result<bool, ShieldError>)
        ensures
            r == check_decision(self@.policy, loan_id, *loan, price, evidence),
    {
        let loan = match loan {
            Some(loan) => loan,
            None => {
                return Err(ShieldError::LoanNotFound);
            },
        };
        if loan.loan_id != loan_id {
            return Err(ShieldError::LoanNotFound);
        }
        if loan.status != LoanStatus::Active {
            return Ok(false);
        }
        let value: u128 = match (self.policy.valuation, evidence) {
            (
                CollateralValuation::LiquidatorProof,
                CollateralEvidence::Proven { value, accepted },
            ) => {
                if !accepted {
                    return Ok(false);
                }
                value
            },
            (CollateralValuation::OracleFloor, CollateralEvidence::Attested { value }) => value,
            _ => {
                return Ok(false);
            },
        };
        Ok(is_undercollateralized(value, loan.amount, price, self.policy.min_ratio_bps))
    }

    /// Plans the liquidation of the loan that the pool holds under
    /// `loan_id`. A loan that is not open to liquidation is left alone.
    pub fn liquidate_loan(
        &self,
        loan_id: u64,
        loan: &Option<LoanData>,
        price: u64,
        evidence: CollateralEvidence,
    ) -> (r: Result<LiquidationOrder, ShieldError>)
        ensures
            r == liquidate_decision(self@.policy, loan_id, *loan, price, evidence),
    {
        proof {
            use_type_invariant(self);
        }
        match self.check_liquidatable(loan_id, loan, price, evidence) {
            Ok(open) => {
                if !open {
                    return Err(ShieldError::LoanHealthy);
                }
            },
            Err(e) => {
                return Err(e);
            },
        }
        match loan {
            Some(loan) => {
                proof {
                    if loan.amount <= 0 {
                        assert(self.policy.min_ratio_bps * (loan.amount * price) <= 0)
                            by (nonlinear_arith)
                            requires
                                loan.amount <= 0,
                                0 <= price,
                                0 <= self.policy.min_ratio_bps,
                        ;
                        assert(0 <= established_value(self.policy, evidence)->0 * RATIO_SCALE)
                            by (nonlinear_arith)
                            requires
                                0 <= established_value(self.policy, evidence)->0,
                                0 <= RATIO_SCALE,
                        ;
                    }
                }
                Ok(
                    LiquidationOrder {
                        loan_id,
                        deposit_id: loan.deposit_id,
                        debt_asset: loan.asset.clone(),
                        debt: loan.amount,
                        min_out: min_out(loan.amount, self.policy.max_slippage_bps),
                    },
                )
            },
            None => Err(ShieldError::LoanNotFound),
        }
    }
}

impl LiquidationOrder {
    /// How the liquidation ends when the exchange gave `proceeds`, or
    /// nothing because the withdrawal or the exchange failed.
    pub fn settle(&self, proceeds: Option<i128>) -> (r: Result<Settlement, ShieldError>)
        ensures
            r == settle_decision(*self, proceeds),
    {
        match proceeds {
            Some(got) => {
                if got < 0 || got < self.min_out {
                    Err(ShieldError::LiquidateFailed)
                } else if got < self.debt {
                    Ok(
                        Settlement {
                            loan_id: self.loan_id,
                            bad_debt: Some(
                                BadDebt { loan_id: self.loan_id, shortfall: self.debt - got },
                            ),
                        },
                    )
                } else {
                    Ok(Settlement { loan_id: self.loan_id, bad_debt: None })
                }
            },
            None => Err(ShieldError::LiquidateFailed),
        }
    }
}

/// Initialising twice is initialising once: whatever the second call names,
/// the administrator, the pool and the vault stay those of the first.
pub proof fn lemma_initialize_is_idempotent(
    state: LiquidatorState,
    admin: String,
    lending_pool: String,
    vault: String,
    other_admin: String,
    other_pool: String,
    other_vault: String,
)
    ensures
        state.initialize(admin, lending_pool, vault).initialize(
            other_admin,
            other_pool,
            other_vault,
        ) == state.initialize(admin, lending_pool, vault),
        state.config is None ==> state.initialize(admin, lending_pool, vault).initialize(
            other_admin,
            other_pool,
            other_vault,
        ).config == Some(LiquidatorConfig::first(admin, lending_pool, vault)),
{
}

/// A loan that `check_liquidatable` finds healthy is one that
/// `liquidate_loan` refuses as healthy, and conversely; and a loan that one
/// of them cannot find, the other cannot find either.
pub proof fn lemma_only_unhealthy_loans_are_liquidated(
    policy: LiquidationPolicy,
    loan_id: u64,
    loan: Option<LoanData>,
    price: u64,
    evidence: CollateralEvidence,
)
    ensures
        check_decision(policy, loan_id, loan, price, evidence) == Ok::<bool, ShieldError>(false)
            <==> liquidate_decision(policy, loan_id, loan, price, evidence) == Err::<
            LiquidationOrder,
            ShieldError,
        >(ShieldError::LoanHealthy),
        check_decision(policy, loan_id, loan, price, evidence) == Ok::<bool, ShieldError>(true)
            <==> liquidate_decision(policy, loan_id, loan, price, evidence) is Ok,
        check_decision(policy, loan_id, loan, price, evidence) == Err::<bool, ShieldError>(
            ShieldError::LoanNotFound,
        ) <==> liquidate_decision(policy, loan_id, loan, price, evidence) == Err::<
            LiquidationOrder,
            ShieldError,
        >(ShieldError::LoanNotFound),
{
}

} // verus!
