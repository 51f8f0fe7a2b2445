use vault_farm::asset::{Asset, AssetInfo};
use vault_farm::error::ContractError;
use vault_farm::vault::{Position, RepayOutcome, Vault};

fn token() -> AssetInfo {
    AssetInfo::Token { contract_addr: "testtoken".to_string() }
}

fn new_vault(now: u64) -> Vault {
    let mut v = Vault::new(token(), 1000, vec!["farm".to_string()], "creator".to_string(), now);
    v.set_vault_token_addr("vtoken".to_string());
    v
}

#[test]
fn tests_proper_initialization() {
    let v = Vault::new(token(), 1000, vec![], "creator".to_string(), 1571797419);
    assert_eq!(v.last_accrue_timestamp, 1571797419);
    assert_eq!(v.last_id, 0);
    assert_eq!(v.total_debt, 0);
    assert_eq!(v.total_debt_shares, 0);
}

#[test]
fn accrue_interest() {
    let positions = vec![Position { id: 1, farm_addr: "farm".to_string(), debt_share: 500000000 }];
    let mut v = Vault::restore(
        1, token(), "vtoken".to_string(), 500000000, 500000000, 0, 1000, vec!["farm".to_string()],
        "creator".to_string(), 0, positions,
    )
    .unwrap();
    // total balance 1000000000: 500000000 on hand plus 500000000 of debt
    v.accrue_interests(300, 500000000).unwrap();
    assert_eq!(v.total_debt, 500000000u128 + 2376u128);
    assert_eq!(v.last_accrue_timestamp, 300);
}

#[test]
fn partial_repayment() {
    let mut v = new_vault(0);
    let id = v.borrow(&"farm".to_string(), 500000000, 1000000000, 0).unwrap();
    assert_eq!(v.total_debt, 500000000);
    assert_eq!(v.total_debt_shares, 500000000);
    let out = v.repay(&"testtoken".to_string(), id, 200000000, 700000000, 0).unwrap();
    assert_eq!(out, RepayOutcome { refund: 0, debt_share: 300000000 });
    assert_eq!(v.total_debt, 300000000);
    assert_eq!(v.total_debt_shares, 300000000);
    assert_eq!(v.positions.get(&id).unwrap().debt_share, 300000000);
}

#[test]
fn deposit_bootstrap_and_second_deposit() {
    let mut v = new_vault(0);
    let a = Asset { info: token(), amount: 1000 };
    // the vault holds the deposit once it arrives
    assert_eq!(v.deposit(&a, 0, 1000, 10), Ok(1000));
    assert_eq!(v.deposit(&a, 1000, 2000, 20), Ok(1000));
    assert_eq!(v.last_accrue_timestamp, 20);
}

#[test]
fn deposit_wrong_token() {
    let mut v = new_vault(0);
    let a = Asset { info: AssetInfo::NativeToken { denom: "testtoken".to_string() }, amount: 5 };
    assert_eq!(v.deposit(&a, 0, 5, 1), Err(ContractError::WrongToken));
    assert_eq!(v.last_accrue_timestamp, 0);
}

#[test]
fn deposit_into_drained_vault_is_math_error() {
    let mut v = new_vault(0);
    let a = Asset { info: token(), amount: 5 };
    // shares outstanding against nothing
    assert_eq!(v.deposit(&a, 10, 5, 1), Err(ContractError::MathError));
}

#[test]
fn withdraw_pays_value_of_shares() {
    let mut v = new_vault(0);
    let a = Asset { info: token(), amount: 1000 };
    v.deposit(&a, 0, 1000, 0).unwrap();
    assert_eq!(v.withdraw(&"vtoken".to_string(), 250, 1000, 1000, 5), Ok(250));
    assert_eq!(v.withdraw(&"other".to_string(), 250, 1000, 1000, 5), Err(ContractError::WrongToken));
}

#[test]
fn withdraw_beyond_on_hand_fails() {
    let mut v = new_vault(0);
    v.borrow(&"farm".to_string(), 900, 1000, 0).unwrap();
    // 100 on hand, 900 lent out: all 1000 shares are worth 1000
    assert_eq!(
        v.withdraw(&"vtoken".to_string(), 1000, 1000, 100, 0),
        Err(ContractError::InsufficientFunds)
    );
    assert_eq!(v.total_debt, 900);
}

#[test]
fn borrow_scenario_shares() {
    let mut v = new_vault(0);
    let first = v.borrow(&"farm".to_string(), 100, 1000, 0).unwrap();
    assert_eq!(v.positions.get(&first).unwrap().debt_share, 100);
    let second = v.borrow(&"farm".to_string(), 50, 900, 0).unwrap();
    assert_eq!(v.positions.get(&second).unwrap().debt_share, 50);
    assert_eq!(v.total_debt, 150);
    assert_eq!(v.total_debt_shares, 150);
    assert!(second > first);
}

#[test]
fn borrow_not_whitelisted_is_unauthorized() {
    let mut v = new_vault(0);
    assert_eq!(v.borrow(&"stranger".to_string(), 100, 1000, 5), Err(ContractError::Unauthorized));
    assert_eq!(v.total_debt, 0);
    assert_eq!(v.total_debt_shares, 0);
    assert_eq!(v.last_id, 0);
    assert!(v.positions.is_empty());
    assert_eq!(v.last_accrue_timestamp, 0);
}

#[test]
fn full_repayment_removes_position_and_refunds_excess() {
    let mut v = new_vault(0);
    let a = v.borrow(&"farm".to_string(), 100, 1000, 0).unwrap();
    let b = v.borrow(&"farm".to_string(), 50, 900, 0).unwrap();
    let out = v.repay(&"testtoken".to_string(), a, 130, 980, 0).unwrap();
    assert_eq!(out, RepayOutcome { refund: 30, debt_share: 0 });
    assert!(v.positions.get(&a).is_none());
    assert_eq!(v.total_debt_shares, 50);
    assert_eq!(v.total_debt, 50);
    assert_eq!(v.positions.get(&b).unwrap().debt_share, 50);
}

#[test]
fn repay_exact_debt_removes_position() {
    let mut v = new_vault(0);
    let a = v.borrow(&"farm".to_string(), 100, 1000, 0).unwrap();
    let out = v.repay(&"testtoken".to_string(), a, 100, 1000, 0).unwrap();
    assert_eq!(out, RepayOutcome { refund: 0, debt_share: 0 });
    assert!(v.positions.is_empty());
    assert_eq!(v.total_debt, 0);
    assert_eq!(v.total_debt_shares, 0);
}

#[test]
fn repay_errors() {
    let mut v = new_vault(0);
    let a = v.borrow(&"farm".to_string(), 100, 1000, 0).unwrap();
    assert_eq!(v.repay(&"vtoken".to_string(), a, 10, 1000, 0), Err(ContractError::WrongToken));
    assert_eq!(v.repay(&"testtoken".to_string(), a + 1, 10, 1000, 0), Err(ContractError::NotFound));
}

#[test]
fn repay_after_interest() {
    let mut v = new_vault(0);
    let a = v.borrow(&"farm".to_string(), 500000000, 1000000000, 0).unwrap();
    // 500000000 on hand: the same accrual as the linear scenario
    let out = v.repay(&"testtoken".to_string(), a, 500000000, 500000000, 300).unwrap();
    assert_eq!(out.refund, 0);
    assert_eq!(v.total_debt, 2376);
    // the only position: its remaining debt starts the pool afresh
    assert_eq!(v.positions.get(&a).unwrap().debt_share, 2376);
    assert_eq!(v.total_debt_shares, 2376);
}

fn sole_position(debt_share: u128, total_debt: u128) -> Vault {
    let positions = vec![Position { id: 1, farm_addr: "farm".to_string(), debt_share }];
    Vault::restore(
        1, token(), "vtoken".to_string(), debt_share, total_debt, 0, 0, vec!["farm".to_string()],
        "creator".to_string(), 0, positions,
    )
    .unwrap()
}

fn two_positions(a_share: u128, b_share: u128, total_debt: u128) -> Vault {
    let positions = vec![
        Position { id: 1, farm_addr: "farm".to_string(), debt_share: a_share },
        Position { id: 2, farm_addr: "farm".to_string(), debt_share: b_share },
    ];
    Vault::restore(
        2, token(), "vtoken".to_string(), a_share + b_share, total_debt, 0, 0,
        vec!["farm".to_string()], "creator".to_string(), 0, positions,
    )
    .unwrap()
}

#[test]
fn partial_repayment_keeps_other_claims() {
    // 10 shares over a debt of 7; position 1 holds 5, worth 3
    let mut v = two_positions(5, 5, 7);
    let out = v.repay(&"testtoken".to_string(), 1, 0, 0, 0).unwrap();
    // 3 left against the rest of the pool, 5 shares for 4: 3 * 5 / 4 = 3 shares
    assert_eq!(out, RepayOutcome { refund: 0, debt_share: 3 });
    assert_eq!(v.total_debt_shares, 8);
    assert_eq!(v.total_debt, 7);
    let out = v.repay(&"testtoken".to_string(), 1, 1, 0, 0).unwrap();
    assert!(out.debt_share <= 3);
    assert_eq!(v.total_debt, 6);
}

#[test]
fn partial_repayment_of_sole_position_rebases() {
    // all 100 shares, debt grown to 150
    let mut v = sole_position(100, 150);
    let out = v.repay(&"testtoken".to_string(), 1, 10, 0, 0).unwrap();
    assert_eq!(out, RepayOutcome { refund: 0, debt_share: 140 });
    assert_eq!(v.total_debt_shares, 140);
    assert_eq!(v.total_debt, 140);
}

#[test]
fn share_rounding_to_zero_removes_position() {
    // position 1: 1 share of 100 over a debt of 150, worth 1
    let mut v = two_positions(1, 99, 150);
    let out = v.repay(&"testtoken".to_string(), 1, 0, 0, 0).unwrap();
    // 1 left against 99 shares for 149 rounds to no share
    assert_eq!(out, RepayOutcome { refund: 0, debt_share: 0 });
    assert!(v.positions.get(&1).is_none());
    assert_eq!(v.total_debt_shares, 99);
    assert_eq!(v.total_debt, 150);
}

#[test]
fn deposit_not_received_is_wrong_amount() {
    let mut v = new_vault(0);
    let a = Asset { info: token(), amount: 500 };
    assert_eq!(v.deposit(&a, 0, 499, 1), Err(ContractError::WrongAmount { amount: 500 }));
    assert_eq!(v.last_accrue_timestamp, 0);
}

#[test]
fn whitelist_admin_only() {
    let mut v = new_vault(0);
    assert_eq!(
        v.add_whitelist(&"someone".to_string(), "farm2".to_string()),
        Err(ContractError::Unauthorized)
    );
    assert_eq!(v.borrow(&"farm2".to_string(), 1, 10, 0), Err(ContractError::Unauthorized));
    v.add_whitelist(&"creator".to_string(), "farm2".to_string()).unwrap();
    assert_eq!(v.borrow(&"farm2".to_string(), 1, 10, 0), Ok(1));
}

#[test]
fn query_position_reports_debt_value() {
    let mut v = new_vault(0);
    let a = v.borrow(&"farm".to_string(), 100, 1000, 0).unwrap();
    v.total_debt = 200;
    let p = v.query_position(a).unwrap();
    assert_eq!(p.debt_share, 100);
    assert_eq!(p.debt_value, 200);
    assert_eq!(p.farm_addr, "farm");
    assert!(v.query_position(9).is_err());
}

#[test]
fn total_balance_counts_debt_less_reserve() {
    let mut v = new_vault(0);
    v.total_debt = 30;
    v.total_debt_shares = 30;
    v.reserve_pool = 5;
    assert_eq!(v.total_balance(100), Ok(125));
    v.reserve_pool = 200;
    assert_eq!(v.total_balance(100), Err(ContractError::MathError));
}

#[test]
fn restore_rebuilds_ledger() {
    let positions = vec![
        Position { id: 1, farm_addr: "farm".to_string(), debt_share: 60 },
        Position { id: 2, farm_addr: "farm".to_string(), debt_share: 40 },
    ];
    let v = Vault::restore(
        2, token(), "vtoken".to_string(), 100, 120, 0, 1000, vec!["farm".to_string()],
        "creator".to_string(), 7, positions,
    )
    .unwrap();
    assert_eq!(v.positions.len(), 2);
    assert_eq!(v.query_position(1).unwrap().debt_value, 72);
}

#[test]
fn restore_refuses_inconsistent_parts() {
    let unknown_id = vec![Position { id: 3, farm_addr: "farm".to_string(), debt_share: 60 }];
    assert!(matches!(
        Vault::restore(2, token(), String::new(), 60, 60, 0, 0, vec![], "a".to_string(), 0, unknown_id),
        Err(ContractError::MathError)
    ));
    assert!(matches!(
        Vault::restore(0, token(), String::new(), 0, 60, 0, 0, vec![], "a".to_string(), 0, vec![]),
        Err(ContractError::MathError)
    ));
    let shares_short = vec![Position { id: 1, farm_addr: "farm".to_string(), debt_share: 50 }];
    assert!(matches!(
        Vault::restore(2, token(), String::new(), 60, 60, 0, 0, vec![], "a".to_string(), 0, shares_short),
        Err(ContractError::MathError)
    ));
    let same_id = vec![
        Position { id: 1, farm_addr: "farm".to_string(), debt_share: 30 },
        Position { id: 1, farm_addr: "farm".to_string(), debt_share: 30 },
    ];
    assert!(matches!(
        Vault::restore(2, token(), String::new(), 60, 60, 0, 0, vec![], "a".to_string(), 0, same_id),
        Err(ContractError::MathError)
    ));
}

#[test]
fn lenders_earn_accrued_interest() {
    let mut v = new_vault(0);
    let a = Asset { info: token(), amount: 1000000000 };
    assert_eq!(v.deposit(&a, 0, 1000000000, 0), Ok(1000000000));
    v.borrow(&"farm".to_string(), 500000000, 1000000000, 0).unwrap();
    // 500000000 stay on hand; after 300 s the debt has grown by 2376
    assert_eq!(v.withdraw(&"vtoken".to_string(), 1000, 1000000000, 500000000, 300), Ok(1000));
    assert_eq!(v.total_debt, 500002376);
    // half the shares are worth 500001188, more than the 500000000 on hand
    assert_eq!(
        v.withdraw(&"vtoken".to_string(), 500000000, 1000000000, 500000000, 300),
        Err(ContractError::InsufficientFunds)
    );
    assert_eq!(v.withdraw(&"vtoken".to_string(), 400000000, 1000000000, 500000000, 300), Ok(400000950));
}
