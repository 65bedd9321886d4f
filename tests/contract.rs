use fill_ledger::activity::RecordKind;
use fill_ledger::config::{authorize, ContractError, SecretContract};
use fill_ledger::contract::{
    handle, init, query, query_balance_of_token, BalanceOverride, ContractState, Env, HandleMsg,
    InitMsg, QueryMsg, MOCK_AMOUNT,
};

fn token(addr: &str) -> SecretContract {
    SecretContract { address: addr.as_bytes().to_vec(), contract_hash: b"hash".to_vec() }
}

fn env(sender: &str) -> Env {
    Env { sender: sender.as_bytes().to_vec(), contract_address: b"C".to_vec() }
}

fn initialised() -> ContractState {
    let mut state = ContractState::new();
    init(
        &mut state,
        &env("A"),
        InitMsg { butt: token("butt"), sscrt: token("sscrt"), execution_fee: 7 },
    );
    state
}

#[test]
fn init_sets_admin_and_allow_list() {
    let state = initialised();
    let c = query(&state, QueryMsg::Config).unwrap();
    assert_eq!(c.admin, b"A".to_vec());
    assert_eq!(c.addresses_allowed_to_fill, vec![b"A".to_vec(), b"C".to_vec()]);
    assert_eq!(c.execution_fee, 7);
    assert_eq!(c.butt.address, b"butt".to_vec());
    assert_eq!(c.sscrt.address, b"sscrt".to_vec());
}

#[test]
fn query_before_init_is_not_found() {
    let state = ContractState::new();
    assert_eq!(query(&state, QueryMsg::Config).err(), Some(ContractError::NotFound));
}

#[test]
fn update_before_init_is_not_found() {
    let mut state = ContractState::new();
    let r = handle(
        &mut state,
        &env("A"),
        HandleMsg::UpdateConfig { addresses_allowed_to_fill: None, execution_fee: Some(1) },
    );
    assert_eq!(r.err(), Some(ContractError::NotFound));
    assert!(state.config.is_none());
}

#[test]
fn update_by_non_admin_is_unauthorized() {
    let mut state = initialised();
    let r = handle(
        &mut state,
        &env("B"),
        HandleMsg::UpdateConfig {
            addresses_allowed_to_fill: Some(vec![b"X".to_vec()]),
            execution_fee: Some(99),
        },
    );
    assert_eq!(r.err(), Some(ContractError::Unauthorized));
    let c = query(&state, QueryMsg::Config).unwrap();
    assert_eq!(c.addresses_allowed_to_fill, vec![b"A".to_vec(), b"C".to_vec()]);
    assert_eq!(c.execution_fee, 7);
}

#[test]
fn update_by_admin_keeps_required_members() {
    let mut state = initialised();
    let r = handle(
        &mut state,
        &env("A"),
        HandleMsg::UpdateConfig {
            addresses_allowed_to_fill: Some(vec![b"X".to_vec()]),
            execution_fee: None,
        },
    );
    assert!(r.unwrap().data.is_none());
    let c = query(&state, QueryMsg::Config).unwrap();
    assert_eq!(c.addresses_allowed_to_fill, vec![b"X".to_vec(), b"C".to_vec(), b"A".to_vec()]);
    assert_eq!(c.execution_fee, 7);
}

#[test]
fn update_fee_only() {
    let mut state = initialised();
    handle(
        &mut state,
        &env("A"),
        HandleMsg::UpdateConfig { addresses_allowed_to_fill: None, execution_fee: Some(42) },
    )
    .unwrap();
    let c = query(&state, QueryMsg::Config).unwrap();
    assert_eq!(c.execution_fee, 42);
    assert_eq!(c.addresses_allowed_to_fill, vec![b"A".to_vec(), b"C".to_vec()]);
}

#[test]
fn update_list_already_holding_members() {
    let mut state = initialised();
    handle(
        &mut state,
        &env("A"),
        HandleMsg::UpdateConfig {
            addresses_allowed_to_fill: Some(vec![b"C".to_vec(), b"Y".to_vec(), b"A".to_vec()]),
            execution_fee: None,
        },
    )
    .unwrap();
    let c = query(&state, QueryMsg::Config).unwrap();
    assert_eq!(c.addresses_allowed_to_fill, vec![b"C".to_vec(), b"Y".to_vec(), b"A".to_vec()]);
}

#[test]
fn receive_through_handle() {
    let mut state = initialised();
    let r = handle(
        &mut state,
        &env("B"),
        HandleMsg::Receive { from: b"B".to_vec(), amount: 10, msg: Some(b"x".to_vec()) },
    );
    assert!(r.unwrap().data.is_none());
}

#[test]
fn authorize_members_only() {
    let list = vec![b"A".to_vec(), b"C".to_vec()];
    assert_eq!(authorize(&list, &b"C".to_vec()), Ok(()));
    assert_eq!(authorize(&list, &b"D".to_vec()), Err(ContractError::Unauthorized));
    assert_eq!(authorize(&vec![], &b"A".to_vec()), Err(ContractError::Unauthorized));
}

#[test]
fn balance_overrides() {
    let overrides = vec![
        BalanceOverride { address: b"mock-token-address".to_vec(), amount: MOCK_AMOUNT },
        BalanceOverride { address: b"mock-butt-address".to_vec(), amount: MOCK_AMOUNT },
        BalanceOverride { address: b"mock-butt-address".to_vec(), amount: 3 },
    ];
    assert_eq!(query_balance_of_token(&overrides, &token("mock-butt-address")), Some(MOCK_AMOUNT));
    assert_eq!(query_balance_of_token(&overrides, &token("mock-token-address")), Some(MOCK_AMOUNT));
    assert_eq!(query_balance_of_token(&overrides, &token("live")), None);
}

#[test]
fn end_to_end_init_then_fills() {
    let mut state = initialised();
    let d = b"D".to_vec();
    for i in 0..3u8 {
        state.activity.append(&d, RecordKind::FillRecords, vec![i]);
    }
    assert_eq!(state.activity.get_count(&d, RecordKind::FillRecords), 3);
    assert_eq!(
        state.activity.get_activity_records(&d, 0, 2, RecordKind::FillRecords),
        (vec![vec![2], vec![1]], 3)
    );
    assert_eq!(
        state.activity.get_activity_records(&d, 1, 2, RecordKind::FillRecords),
        (vec![vec![0]], 3)
    );
    assert_eq!(state.activity.get_activity_records(&d, 2, 2, RecordKind::FillRecords), (vec![], 3));
}
