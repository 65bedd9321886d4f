use vstd::prelude::*;
use crate::activity::ActivityStore;
use crate::bytes::bytes_eq;
use crate::config::{Config, ConfigView, ContractError, SecretContract, update_config, updated_config, optional_addresses};
use crate::pad::{BLOCK_SIZE, padded, space_pad};

verus! {

/// Balance reported for a token whose address has an override.
pub const MOCK_AMOUNT: u128 = 1_000_000_000_000;

/// Who called, and the address of the contract itself.
pub struct Env {
    pub sender: Vec<u8>,
    pub contract_address: Vec<u8>,
}

/// What the first configuration is made of, besides the caller.
pub struct InitMsg {
    pub butt: SecretContract,
    pub sscrt: SecretContract,
    pub execution_fee: u128,
}

/// The calls that change state.
pub enum HandleMsg {
    /// A token transfer to the contract was announced; nothing acts on it yet.
    Receive { from: Vec<u8>, amount: u128, msg: Option<Vec<u8>> },
    /// The admin changes the allow-list and the execution fee.
    UpdateConfig { addresses_allowed_to_fill: Option<Vec<Vec<u8>>>, execution_fee: Option<u128> },
}

/// The calls that read state.
pub enum QueryMsg {
    Config,
}

/// The reply to an initialisation.
pub struct InitResponse {}

/// The reply to a state-changing call, with its payload if it has one.
pub struct HandleResponse {
    pub data: Option<Vec<u8>>,
}

/// Everything the contract keeps between calls.
pub struct ContractState {
    pub config: Option<Config>,
    pub activity: ActivityStore,
}

impl ContractState {
    /// State before initialisation: no configuration and empty logs.
    pub fn new() -> (r: ContractState)
        ensures
            r.config is None,
            r.activity.wf(),
            forall|a: Seq<u8>, k: crate::activity::RecordKind|
                r.activity.log_of(a, k) == Seq::<Seq<u8>>::empty(),
    {
        ContractState { config: None, activity: ActivityStore::new() }
    }
}

/// Stores the first configuration: the caller is the admin, and the caller and
/// the contract itself may submit fills.
pub fn init(state: &mut ContractState, env: &Env, msg: InitMsg) -> (r: InitResponse)
    ensures
        final(state).config is Some,
        final(state).config->Some_0@ == (ConfigView {
            admin: env.sender@,
            addresses_allowed_to_fill: seq![env.sender@, env.contract_address@],
            butt: msg.butt@,
            execution_fee: msg.execution_fee,
            sscrt: msg.sscrt@,
        }),
        final(state).activity == old(state).activity,
{
    let config = Config::new(&env.sender, &env.contract_address, msg.butt, msg.sscrt, msg.execution_fee);
    state.config = Some(config);
    InitResponse {}
}

/// Whether a response is `response` with its payload, if any, padded to the
/// block size.
pub open spec fn is_padded_response(
    r: Result<HandleResponse, ContractError>,
    response: Result<HandleResponse, ContractError>,
) -> bool {
    match response {
        Err(e) => r == Err::<HandleResponse, ContractError>(e),
        Ok(h) => r is Ok && match h.data {
            None => r->Ok_0.data is None,
            Some(d) => r->Ok_0.data is Some && r->Ok_0.data->Some_0@ == padded(d@, BLOCK_SIZE as nat),
        },
    }
}

/// Pads the payload of a successful response to a multiple of the block
/// size, so that its length tells little of its content.
pub fn pad_response(response: Result<HandleResponse, ContractError>) -> (r: Result<HandleResponse, ContractError>)
    requires
        response matches Ok(h) ==> (h.data matches Some(d) ==> d@.len() + BLOCK_SIZE <= usize::MAX),
    ensures
        is_padded_response(r, response),
{
    match response {
        Err(e) => Err(e),
        Ok(h) => match h.data {
            None => Ok(HandleResponse { data: None }),
            Some(d) => {
                let mut data = d;
                space_pad(BLOCK_SIZE, &mut data);
                Ok(HandleResponse { data: Some(data) })
            },
        },
    }
}

/// Announced token transfers are accepted and not acted on; the empty reply
/// is padded like every other.
pub fn receive(from: Vec<u8>, amount: u128, msg: Option<Vec<u8>>) -> (r: Result<HandleResponse, ContractError>)
    ensures
        r matches Ok(h) && h.data is None,
{
    pad_response(Ok(HandleResponse { data: None }))
}

/// Carries out a state-changing call. A configuration update before
/// initialisation fails with `NotFound`; one by anyone but the admin fails
/// with `Unauthorized`; either way nothing changes.
pub fn handle(state: &mut ContractState, env: &Env, msg: HandleMsg) -> (r: Result<HandleResponse, ContractError>)
    ensures
        final(state).activity == old(state).activity,
        match msg {
            HandleMsg::Receive { .. } => (r matches Ok(h) && h.data is None) && final(state).config
                == old(state).config,
            HandleMsg::UpdateConfig { addresses_allowed_to_fill, execution_fee } => match old(state).config {
                None => r == Err::<HandleResponse, ContractError>(ContractError::NotFound)
                    && final(state).config == old(state).config,
                Some(c) => if env.sender@ == c.admin@ {
                    (r matches Ok(h) && h.data is None) && final(state).config is Some
                        && final(state).config->Some_0@ == updated_config(
                        c@,
                        env.contract_address@,
                        optional_addresses(addresses_allowed_to_fill),
                        execution_fee,
                    )
                } else {
                    r == Err::<HandleResponse, ContractError>(ContractError::Unauthorized)
                        && final(state).config == old(state).config
                },
            },
        },
{
    match msg {
        HandleMsg::Receive { from, amount, msg } => receive(from, amount, msg),
        HandleMsg::UpdateConfig { addresses_allowed_to_fill, execution_fee } => {
            let mut slot: Option<Config> = None;
            std::mem::swap(&mut slot, &mut state.config);
            match slot {
                None => Err(ContractError::NotFound),
                Some(mut config) => {
                    let result = update_config(
                        &mut config,
                        &env.sender,
                        &env.contract_address,
                        addresses_allowed_to_fill,
                        execution_fee,
                    );
                    state.config = Some(config);
                    match result {
                        Ok(()) => Ok(HandleResponse { data: None }),
                        Err(e) => Err(e),
                    }
                },
            }
        },
    }
}

/// Answers a read: a copy of the configuration, or `NotFound` before
/// initialisation.
pub fn query(state: &ContractState, msg: QueryMsg) -> (r: Result<Config, ContractError>)
    ensures
        match state.config {
            None => r == Err::<Config, ContractError>(ContractError::NotFound),
            Some(c) => r matches Ok(k) && k@ == c@,
        },
{
    match msg {
        QueryMsg::Config => match &state.config {
            None => Err(ContractError::NotFound),
            Some(c) => Ok(c.copy()),
        },
    }
}

/// A fixed balance to report for a token contract in place of asking it.
pub struct BalanceOverride {
    pub address: Vec<u8>,
    pub amount: u128,
}

/// The amount of the first override for `address`, if any.
pub open spec fn override_for(overrides: Seq<BalanceOverride>, address: Seq<u8>) -> Option<u128>
    decreases overrides.len(),
{
    if overrides.len() == 0 {
        None
    } else if overrides[0].address@ == address {
        Some(overrides[0].amount)
    } else {
        override_for(overrides.drop_first(), address)
    }
}

/// The balance to use for `token` without asking it: the amount of the first
/// override for its address, or `None` when the token contract itself must be
/// asked.
pub fn query_balance_of_token(overrides: &Vec<BalanceOverride>, token: &SecretContract) -> (r: Option<u128>)
    ensures
        r == override_for(overrides@, token.address@),
{
    let mut i: usize = 0;
    assert(overrides@.subrange(0, overrides@.len() as int) =~= overrides@);
    while i < overrides.len()
        invariant
            i <= overrides@.len(),
            override_for(overrides@, token.address@) == override_for(
                overrides@.subrange(i as int, overrides@.len() as int),
                token.address@,
            ),
        decreases overrides@.len() - i,
    {
        let ghost rest = overrides@.subrange(i as int, overrides@.len() as int);
        assert(rest[0] == overrides@[i as int]);
        if bytes_eq(&overrides[i].address, &token.address) {
            return Some(overrides[i].amount);
        }
        assert(rest.drop_first() =~= overrides@.subrange(i as int + 1, overrides@.len() as int));
        i = i + 1;
    }
    assert(overrides@.subrange(i as int, overrides@.len() as int) =~= Seq::<BalanceOverride>::empty());
    None
}

} // verus!
