use vault_farm::asset::AssetInfo;
use vault_farm::error::ContractError;
use vault_farm::events::{parse_amount, Attribute, Event};
use vault_farm::farm::{swap_amount, ClosePlan, Farm, OpenPlan, PendingOpen, Position, Stage};
use vault_farm::game::{game_result, resolve_game, GameResult, Move};

fn attr(k: &str, v: &str) -> Attribute {
    Attribute { key: k.to_string(), value: v.to_string() }
}

fn farm(base: AssetInfo) -> Farm {
    Farm::new(
        "vault".to_string(),
        base,
        AssetInfo::Token { contract_addr: "other".to_string() },
        "lp".to_string(),
        "factory".to_string(),
    )
}

fn base_token() -> AssetInfo {
    AssetInfo::Token { contract_addr: "base".to_string() }
}

fn swap_events() -> Vec<Event> {
    vec![
        Event { ty: "wasm".to_string(), attributes: vec![attr("action", "send")] },
        Event {
            ty: "wasm".to_string(),
            attributes: vec![
                attr("action", "swap"),
                attr("offer_asset", "base"),
                attr("ask_asset", "other"),
            ],
        },
    ]
}

fn provide_events(share: &str) -> Vec<Event> {
    vec![Event {
        ty: "wasm".to_string(),
        attributes: vec![attr("action", "provide_liquidity"), attr("share", share)],
    }]
}

fn open_one(f: &mut Farm, owner: &str, vault_id: u128, minted: u128, lp_balance: u128) -> u128 {
    let plan = f.open_position(owner.to_string(), vault_id, 1000, 1000, None).unwrap();
    f.on_swap_reply(plan.workflow_id, &swap_events()).unwrap();
    f.on_provide_liquidity_reply(plan.workflow_id, &provide_events(&minted.to_string()), lp_balance)
        .unwrap()
}

#[test]
fn swap_amount_reserves_half_net_of_fee() {
    assert_eq!(swap_amount(1000, 1000), Ok(1001));
    assert_eq!(swap_amount(1997, 0), Ok(1000));
    assert_eq!(swap_amount(u128::MAX, 1), Err(ContractError::MathError));
}

#[test]
fn open_workflow_runs_to_a_position() {
    let mut f = farm(base_token());
    let plan = f.open_position("alice".to_string(), 1, 1000, 1000, None).unwrap();
    assert_eq!(plan, OpenPlan { workflow_id: 0, amount_to_swap: 1001 });
    assert_eq!(f.pending_stage(0), Some(Stage::AwaitingSwap));
    f.on_swap_reply(0, &swap_events()).unwrap();
    assert_eq!(f.pending_stage(0), Some(Stage::AwaitingLiquidity));
    assert_eq!(f.on_provide_liquidity_reply(0, &provide_events("500"), 500), Ok(500));
    assert_eq!(f.pending_stage(0), None);
    assert_eq!(f.total_shares, 500);
    assert_eq!(f.positions.get(&1).unwrap().shares, 500);
    assert_eq!(f.positions.get(&1).unwrap().owner, "alice");
}

#[test]
fn second_position_gets_proportional_shares() {
    let mut f = farm(base_token());
    assert_eq!(open_one(&mut f, "alice", 1, 500, 500), 500);
    // the pool had 500 tokens for 500 shares; 250 more tokens arrive
    assert_eq!(open_one(&mut f, "bob", 2, 250, 750), 250);
    assert_eq!(f.total_shares, 750);
}

#[test]
fn concurrent_opens_keep_separate_records() {
    let mut f = farm(base_token());
    let a = f.open_position("alice".to_string(), 1, 10, 10, None).unwrap();
    let b = f.open_position("bob".to_string(), 2, 10, 10, None).unwrap();
    assert_ne!(a.workflow_id, b.workflow_id);
    f.on_swap_reply(b.workflow_id, &swap_events()).unwrap();
    f.on_provide_liquidity_reply(b.workflow_id, &provide_events("40"), 40).unwrap();
    assert_eq!(f.positions.get(&2).unwrap().owner, "bob");
    assert_eq!(f.pending_stage(a.workflow_id), Some(Stage::AwaitingSwap));
}

#[test]
fn native_base_needs_exact_funds() {
    let mut f = farm(AssetInfo::NativeToken { denom: "uluna".to_string() });
    assert_eq!(
        f.open_position("alice".to_string(), 1, 1000, 1000, Some(999)),
        Err(ContractError::WrongAmount { amount: 999 })
    );
    assert_eq!(
        f.open_position("alice".to_string(), 1, 1000, 1000, None),
        Err(ContractError::WrongAmount { amount: 0 })
    );
    assert!(f.open_position("alice".to_string(), 1, 1000, 1000, Some(1000)).is_ok());
}

#[test]
fn swap_reply_without_marker_fails() {
    let mut f = farm(base_token());
    let plan = f.open_position("alice".to_string(), 1, 10, 10, None).unwrap();
    let wrong_pair = vec![Event {
        ty: "wasm".to_string(),
        attributes: vec![attr("action", "swap"), attr("offer_asset", "other"), attr("ask_asset", "base")],
    }];
    assert_eq!(f.on_swap_reply(plan.workflow_id, &wrong_pair), Err(ContractError::ExternalCallError));
    assert_eq!(f.on_swap_reply(plan.workflow_id, &vec![]), Err(ContractError::ExternalCallError));
    assert_eq!(f.pending_stage(plan.workflow_id), Some(Stage::AwaitingSwap));
    assert_eq!(f.on_swap_reply(plan.workflow_id + 1, &swap_events()), Err(ContractError::NotFound));
}

#[test]
fn provide_reply_without_share_fails() {
    let mut f = farm(base_token());
    let plan = f.open_position("alice".to_string(), 1, 10, 10, None).unwrap();
    // the liquidity reply is not awaited before the swap reply
    assert_eq!(
        f.on_provide_liquidity_reply(plan.workflow_id, &provide_events("5"), 5),
        Err(ContractError::NotFound)
    );
    f.on_swap_reply(plan.workflow_id, &swap_events()).unwrap();
    assert_eq!(
        f.on_provide_liquidity_reply(plan.workflow_id, &provide_events("12x"), 5),
        Err(ContractError::ExternalCallError)
    );
    assert_eq!(
        f.on_provide_liquidity_reply(plan.workflow_id, &swap_events(), 5),
        Err(ContractError::ExternalCallError)
    );
    assert_eq!(f.on_provide_liquidity_reply(plan.workflow_id, &provide_events("5"), 4), Err(ContractError::MathError));
    assert_eq!(f.on_provide_liquidity_reply(plan.workflow_id, &provide_events("+5"), 5), Ok(5));
}

#[test]
fn parse_amount_reads_decimal() {
    assert_eq!(parse_amount(&"1234".to_string()), Some(1234));
    assert_eq!(parse_amount(&"+7".to_string()), Some(7));
    assert_eq!(parse_amount(&"".to_string()), None);
    assert_eq!(parse_amount(&"-1".to_string()), None);
    assert_eq!(parse_amount(&"340282366920938463463374607431768211456".to_string()), None);
}

#[test]
fn close_returns_remainder_and_removes_position() {
    let mut f = farm(base_token());
    open_one(&mut f, "alice", 1, 500, 500);
    open_one(&mut f, "bob", 2, 500, 1000);
    assert_eq!(f.position_liquidity(&"alice".to_string(), 1, 1000), Ok(500));
    let plan = f.close_position(&"alice".to_string(), 1, 1000, 1500, 1000, 800).unwrap();
    assert_eq!(plan, ClosePlan { liquidity_amount: 500, repay_amount: 1500, return_amount: 300 });
    assert!(f.positions.get(&1).is_none());
    assert_eq!(f.total_shares, 500);
}

#[test]
fn close_refused_when_debt_not_covered() {
    let mut f = farm(base_token());
    open_one(&mut f, "alice", 1, 500, 500);
    assert_eq!(
        f.close_position(&"alice".to_string(), 1, 500, 1500, 1000, 499),
        Err(ContractError::InsufficientFunds)
    );
    assert_eq!(f.positions.get(&1).unwrap().shares, 500);
    assert_eq!(f.total_shares, 500);
}

#[test]
fn close_by_stranger_is_unauthorized() {
    let mut f = farm(base_token());
    open_one(&mut f, "alice", 1, 500, 500);
    assert_eq!(f.close_position(&"mallory".to_string(), 1, 500, 0, 1, 1), Err(ContractError::Unauthorized));
    assert_eq!(f.close_position(&"alice".to_string(), 7, 500, 0, 1, 1), Err(ContractError::NotFound));
}

#[test]
fn opponent_move() {
    // host plays paper, opponent plays scissors: the opponent wins
    assert_eq!(resolve_game(Move::Paper, Move::Scissors), 1);
    assert_eq!(game_result(Move::Paper, Move::Scissors), GameResult::Done);
}

#[test]
fn resolve_game_all_rounds() {
    assert_eq!(resolve_game(Move::Scissors, Move::Paper), 0);
    assert_eq!(resolve_game(Move::Stone, Move::Scissors), 0);
    assert_eq!(resolve_game(Move::Stone, Move::Paper), 1);
    assert_eq!(resolve_game(Move::Stone, Move::Stone), -1);
    assert_eq!(game_result(Move::Paper, Move::Paper), GameResult::Draw);
}

#[test]
fn asset_info_equal_and_kind() {
    let a = AssetInfo::Token { contract_addr: "x".to_string() };
    let b = AssetInfo::NativeToken { denom: "x".to_string() };
    assert!(a.equal(&a.clone()));
    assert!(!a.equal(&b));
    assert!(b.is_native_token());
    assert!(!a.is_native_token());
    assert_eq!(b.label(), "x");
}

#[test]
fn restore_farm_keeps_records() {
    let f = Farm::restore(
        "vault".to_string(),
        base_token(),
        AssetInfo::Token { contract_addr: "other".to_string() },
        "lp".to_string(),
        10,
        "factory".to_string(),
        vec![Position { vault_position_id: 4, owner: "alice".to_string(), shares: 10 }],
        vec![(2, PendingOpen { vault_position_id: 5, owner: "bob".to_string(), stage: Stage::AwaitingLiquidity })],
        3,
    )
    .unwrap();
    assert_eq!(f.pending_stage(2), Some(Stage::AwaitingLiquidity));
    assert_eq!(f.position_liquidity(&"alice".to_string(), 4, 30), Ok(30));
    let stale = Farm::restore(
        "vault".to_string(),
        base_token(),
        base_token(),
        "lp".to_string(),
        0,
        "factory".to_string(),
        vec![],
        vec![(3, PendingOpen { vault_position_id: 5, owner: "bob".to_string(), stage: Stage::AwaitingSwap })],
        3,
    );
    assert!(matches!(stale, Err(ContractError::MathError)));
}

#[test]
fn repeated_vault_id_is_refused() {
    let mut f = farm(base_token());
    open_one(&mut f, "alice", 1, 500, 500);
    let plan = f.open_position("bob".to_string(), 1, 10, 10, None).unwrap();
    f.on_swap_reply(plan.workflow_id, &swap_events()).unwrap();
    assert_eq!(
        f.on_provide_liquidity_reply(plan.workflow_id, &provide_events("100"), 600),
        Err(ContractError::PositionExists)
    );
    assert_eq!(f.positions.get(&1).unwrap().owner, "alice");
    assert_eq!(f.total_shares, 500);
}

#[test]
fn restore_farm_refuses_share_mismatch() {
    let r = Farm::restore(
        "vault".to_string(),
        base_token(),
        base_token(),
        "lp".to_string(),
        11,
        "factory".to_string(),
        vec![Position { vault_position_id: 4, owner: "alice".to_string(), shares: 10 }],
        vec![],
        0,
    );
    assert!(matches!(r, Err(ContractError::MathError)));
}
