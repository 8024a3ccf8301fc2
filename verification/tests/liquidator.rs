use shield_protocol::lending_pool::{LoanData, LoanStatus};
use shield_protocol::liquidator::{
    BadDebt, CollateralEvidence, CollateralValuation, LiquidationOrder, LiquidationPolicy,
    LiquidatorConfig, Settlement, ShieldError, ShieldLiquidator,
};

fn who(name: &str) -> String {
    name.to_string()
}

fn policy() -> LiquidationPolicy {
    LiquidationPolicy {
        min_ratio_bps: 15_000,
        valuation: CollateralValuation::OracleFloor,
        max_slippage_bps: 250,
    }
}

fn engine() -> ShieldLiquidator {
    ShieldLiquidator::new(policy()).unwrap()
}

fn loan(loan_id: u64, amount: i128, status: LoanStatus) -> Option<LoanData> {
    Some(LoanData {
        loan_id,
        borrower: who("alice"),
        amount,
        asset: who("USDC"),
        deposit_id: 40 + loan_id,
        status,
        start_time: 77,
    })
}

fn worth(value: u128) -> CollateralEvidence {
    CollateralEvidence::Attested { value }
}

#[test]
fn a_policy_cannot_allow_more_slippage_than_the_whole() {
    let mut p = policy();
    p.max_slippage_bps = 10_001;
    assert!(ShieldLiquidator::new(p).is_none());
    p.max_slippage_bps = 10_000;
    let liquidator = ShieldLiquidator::new(p).unwrap();
    assert_eq!(liquidator.get_policy(), p);
    assert_eq!(liquidator.get_config(), None);
}

#[test]
fn the_first_initialize_of_the_liquidator_wins() {
    let mut liquidator = engine();
    assert_eq!(liquidator.initialize(who("A"), who("pool-1"), who("vault-1")), Ok(()));
    assert_eq!(liquidator.initialize(who("B"), who("pool-2"), who("vault-2")), Ok(()));
    assert_eq!(
        liquidator.get_config(),
        Some(LiquidatorConfig {
            admin: who("A"),
            lending_pool: who("pool-1"),
            vault: who("vault-1"),
        })
    );
    assert_eq!(liquidator.get_policy(), policy());
}

#[test]
fn a_loan_is_unhealthy_below_the_minimum_ratio_and_not_at_it() {
    let liquidator = engine();
    // A debt of 100 at a price of 2 is worth 200; at one and a half times
    // that, collateral worth 300 is just enough.
    let l = loan(1, 100, LoanStatus::Active);
    assert_eq!(liquidator.check_liquidatable(1, &l, 2, worth(299)), Ok(true));
    assert_eq!(liquidator.check_liquidatable(1, &l, 2, worth(300)), Ok(false));
    assert_eq!(liquidator.check_liquidatable(1, &l, 2, worth(301)), Ok(false));
    assert_eq!(liquidator.check_liquidatable(1, &l, 2, worth(0)), Ok(true));
    assert_eq!(liquidator.check_liquidatable(1, &l, 3, worth(449)), Ok(true));
    assert_eq!(liquidator.check_liquidatable(1, &l, 3, worth(450)), Ok(false));
}

#[test]
fn the_ratio_is_compared_exactly() {
    let mut p = policy();
    p.min_ratio_bps = 12_345;
    let liquidator = ShieldLiquidator::new(p).unwrap();
    // 12 345 parts in 10 000 of a debt worth 7 * 13 = 91 is 112.3395.
    let l = loan(1, 7, LoanStatus::Active);
    assert_eq!(liquidator.check_liquidatable(1, &l, 13, worth(112)), Ok(true));
    assert_eq!(liquidator.check_liquidatable(1, &l, 13, worth(113)), Ok(false));
}

#[test]
fn a_loan_without_debt_is_healthy() {
    let liquidator = engine();
    assert_eq!(
        liquidator.check_liquidatable(1, &loan(1, 0, LoanStatus::Active), 2, worth(0)),
        Ok(false)
    );
    assert_eq!(
        liquidator.check_liquidatable(1, &loan(1, 100, LoanStatus::Active), 0, worth(0)),
        Ok(false)
    );
    assert_eq!(
        liquidator.check_liquidatable(1, &loan(1, -5, LoanStatus::Active), 2, worth(0)),
        Ok(false)
    );
    let mut p = policy();
    p.min_ratio_bps = 0;
    let lax = ShieldLiquidator::new(p).unwrap();
    assert_eq!(
        lax.check_liquidatable(1, &loan(1, 100, LoanStatus::Active), 2, worth(0)),
        Ok(false)
    );
}

#[test]
fn the_largest_values_are_compared_without_overflow() {
    let mut p = policy();
    p.min_ratio_bps = u32::MAX;
    let strict = ShieldLiquidator::new(p).unwrap();
    let huge = loan(1, i128::MAX, LoanStatus::Active);
    assert_eq!(strict.check_liquidatable(1, &huge, u64::MAX, worth(u128::MAX)), Ok(true));
    p.min_ratio_bps = 1;
    let lax = ShieldLiquidator::new(p).unwrap();
    let tiny = loan(1, 1, LoanStatus::Active);
    assert_eq!(lax.check_liquidatable(1, &tiny, 1, worth(u128::MAX)), Ok(false));
    assert_eq!(lax.check_liquidatable(1, &tiny, 1, worth(0)), Ok(true));
    // One part in 10 000 of a debt worth the largest amount: collateral
    // worth a ten-thousandth of it, rounded up, is just enough.
    let edge = i128::MAX as u128 / 10_000;
    assert_eq!(lax.check_liquidatable(1, &huge, 1, worth(edge)), Ok(true));
    assert_eq!(lax.check_liquidatable(1, &huge, 1, worth(edge + 1)), Ok(false));
}

#[test]
fn only_active_loans_are_open_to_liquidation() {
    let liquidator = engine();
    assert_eq!(
        liquidator.check_liquidatable(1, &loan(1, 100, LoanStatus::Repaid), 2, worth(0)),
        Ok(false)
    );
    assert_eq!(
        liquidator.check_liquidatable(1, &loan(1, 100, LoanStatus::Liquidated), 2, worth(0)),
        Ok(false)
    );
    assert_eq!(
        liquidator.liquidate_loan(1, &loan(1, 100, LoanStatus::Repaid), 2, worth(0)),
        Err(ShieldError::LoanHealthy)
    );
}

#[test]
fn only_evidence_that_the_policy_names_counts() {
    let by_oracle = engine();
    let l = loan(1, 100, LoanStatus::Active);
    let proven = CollateralEvidence::Proven { value: 0, accepted: true };
    assert_eq!(by_oracle.check_liquidatable(1, &l, 2, proven), Ok(false));
    assert_eq!(by_oracle.liquidate_loan(1, &l, 2, proven), Err(ShieldError::LoanHealthy));

    let mut p = policy();
    p.valuation = CollateralValuation::LiquidatorProof;
    let by_proof = ShieldLiquidator::new(p).unwrap();
    assert_eq!(by_proof.check_liquidatable(1, &l, 2, proven), Ok(true));
    assert_eq!(by_proof.check_liquidatable(1, &l, 2, worth(0)), Ok(false));
    let rejected = CollateralEvidence::Proven { value: 0, accepted: false };
    assert_eq!(by_proof.check_liquidatable(1, &l, 2, rejected), Ok(false));
    let enough = CollateralEvidence::Proven { value: 300, accepted: true };
    assert_eq!(by_proof.check_liquidatable(1, &l, 2, enough), Ok(false));
}

#[test]
fn a_healthy_loan_is_not_liquidated() {
    let liquidator = engine();
    let l = loan(1, 100, LoanStatus::Active);
    assert_eq!(liquidator.check_liquidatable(1, &l, 2, worth(300)), Ok(false));
    assert_eq!(liquidator.liquidate_loan(1, &l, 2, worth(300)), Err(ShieldError::LoanHealthy));
    assert_eq!(liquidator.get_config(), None);
    assert_eq!(liquidator.get_policy(), policy());
}

#[test]
fn a_loan_that_the_pool_does_not_hold_is_not_found() {
    let liquidator = engine();
    let missing = Err(ShieldError::LoanNotFound);
    assert_eq!(liquidator.check_liquidatable(1, &None, 2, worth(0)), missing);
    assert_eq!(liquidator.liquidate_loan(1, &None, 2, worth(0)), Err(ShieldError::LoanNotFound));
    let other = loan(2, 100, LoanStatus::Active);
    assert_eq!(liquidator.check_liquidatable(1, &other, 2, worth(0)), missing);
    assert_eq!(liquidator.liquidate_loan(1, &other, 2, worth(0)), Err(ShieldError::LoanNotFound));
}

#[test]
fn an_unhealthy_loan_is_ordered_to_be_liquidated() {
    let liquidator = engine();
    let order = liquidator.liquidate_loan(3, &loan(3, 1_000, LoanStatus::Active), 2, worth(2_999));
    assert_eq!(
        order,
        Ok(LiquidationOrder {
            loan_id: 3,
            deposit_id: 43,
            debt_asset: who("USDC"),
            debt: 1_000,
            min_out: 975,
        })
    );
}

#[test]
fn the_least_acceptable_output_is_rounded_down() {
    let liquidator = engine();
    let of = |amount: i128| {
        liquidator
            .liquidate_loan(1, &loan(1, amount, LoanStatus::Active), 1, worth(0))
            .unwrap()
            .min_out
    };
    assert_eq!(of(999), 974);
    assert_eq!(of(1), 0);
    assert_eq!(of(40), 39);
    assert_eq!(of(41), 39);
    assert_eq!(of(10_000), 9_750);
    assert_eq!(of(123_456_789), 120_370_369);
    let largest = i128::MAX;
    assert_eq!(of(largest), largest / 10_000 * 9_750 + (largest % 10_000) * 9_750 / 10_000);

    let mut p = policy();
    p.max_slippage_bps = 0;
    let none = ShieldLiquidator::new(p).unwrap();
    let order = none.liquidate_loan(1, &loan(1, 999, LoanStatus::Active), 1, worth(0)).unwrap();
    assert_eq!(order.min_out, 999);
    p.max_slippage_bps = 10_000;
    let all = ShieldLiquidator::new(p).unwrap();
    let order = all.liquidate_loan(1, &loan(1, 999, LoanStatus::Active), 1, worth(0)).unwrap();
    assert_eq!(order.min_out, 0);
}

#[test]
fn a_liquidation_settles_by_what_the_exchange_gave() {
    let order = LiquidationOrder {
        loan_id: 3,
        deposit_id: 43,
        debt_asset: who("USDC"),
        debt: 1_000,
        min_out: 975,
    };
    assert_eq!(order.settle(None), Err(ShieldError::LiquidateFailed));
    assert_eq!(order.settle(Some(974)), Err(ShieldError::LiquidateFailed));
    assert_eq!(order.settle(Some(-1)), Err(ShieldError::LiquidateFailed));
    assert_eq!(
        order.settle(Some(975)),
        Ok(Settlement { loan_id: 3, bad_debt: Some(BadDebt { loan_id: 3, shortfall: 25 }) })
    );
    assert_eq!(
        order.settle(Some(999)),
        Ok(Settlement { loan_id: 3, bad_debt: Some(BadDebt { loan_id: 3, shortfall: 1 }) })
    );
    assert_eq!(order.settle(Some(1_000)), Ok(Settlement { loan_id: 3, bad_debt: None }));
    assert_eq!(order.settle(Some(5_000)), Ok(Settlement { loan_id: 3, bad_debt: None }));
}

#[test]
fn proceeds_below_nothing_fail_whatever_the_order_says() {
    let order = LiquidationOrder {
        loan_id: 3,
        deposit_id: 43,
        debt_asset: who("USDC"),
        debt: i128::MAX,
        min_out: i128::MIN,
    };
    assert_eq!(order.settle(Some(i128::MIN)), Err(ShieldError::LiquidateFailed));
    assert_eq!(order.settle(Some(-1)), Err(ShieldError::LiquidateFailed));
    assert_eq!(
        order.settle(Some(0)),
        Ok(Settlement { loan_id: 3, bad_debt: Some(BadDebt { loan_id: 3, shortfall: i128::MAX }) })
    );
}

#[test]
fn liquidator_errors_have_their_codes() {
    assert_eq!(ShieldError::Unauthorized.code(), 1);
    assert_eq!(ShieldError::LoanHealthy.code(), 2);
    assert_eq!(ShieldError::LiquidateFailed.code(), 3);
    assert_eq!(ShieldError::LoanNotFound.code(), 4);
}
