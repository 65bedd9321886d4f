use vstd::prelude::*;
use crate::bytes::{bytes_eq, copy_bytes};

verus! {

/// The byte strings held by a list of addresses.
pub open spec fn address_views(list: Seq<Vec<u8>>) -> Seq<Seq<u8>> {
    list.map_values(|a: Vec<u8>| a@)
}

/// `list` with `address` added at its end when it is not in it yet.
pub open spec fn with_member(list: Seq<Seq<u8>>, address: Seq<u8>) -> Seq<Seq<u8>> {
    if list.contains(address) {
        list
    } else {
        list.push(address)
    }
}

/// An outside token contract: its address and the hash of its code.
pub struct SecretContract {
    pub address: Vec<u8>,
    pub contract_hash: Vec<u8>,
}

impl View for SecretContract {
    type V = (Seq<u8>, Seq<u8>);

    open spec fn view(&self) -> (Seq<u8>, Seq<u8>) {
        (self.address@, self.contract_hash@)
    }
}

impl SecretContract {
    /// A copy of this token reference.
    pub fn copy(&self) -> (r: SecretContract)
        ensures
            r@ == self@,
    {
        SecretContract { address: copy_bytes(&self.address), contract_hash: copy_bytes(&self.contract_hash) }
    }
}

/// What a configuration holds, as plain values.
pub struct ConfigView {
    pub admin: Seq<u8>,
    pub addresses_allowed_to_fill: Seq<Seq<u8>>,
    pub butt: (Seq<u8>, Seq<u8>),
    pub execution_fee: u128,
    pub sscrt: (Seq<u8>, Seq<u8>),
}

/// The global configuration: its admin, who may submit fills, the execution
/// fee, and the two token contracts.
pub struct Config {
    pub admin: Vec<u8>,
    pub addresses_allowed_to_fill: Vec<Vec<u8>>,
    pub butt: SecretContract,
    pub execution_fee: u128,
    pub sscrt: SecretContract,
}

impl View for Config {
    type V = ConfigView;

    open spec fn view(&self) -> ConfigView {
        ConfigView {
            admin: self.admin@,
            addresses_allowed_to_fill: address_views(self.addresses_allowed_to_fill@),
            butt: self.butt@,
            execution_fee: self.execution_fee,
            sscrt: self.sscrt@,
        }
    }
}

/// The errors of configuration and queries.
#[derive(Clone, Copy, PartialEq, Eq, Structural, Debug)]
pub enum ContractError {
    /// The caller may not do this.
    Unauthorized,
    /// Nothing is stored under the key that was read.
    NotFound,
}

/// A copy of a list of addresses.
pub fn copy_addresses(list: &Vec<Vec<u8>>) -> (r: Vec<Vec<u8>>)
    ensures
        address_views(r@) == address_views(list@),
{
    let mut r: Vec<Vec<u8>> = Vec::new();
    let mut i: usize = 0;
    while i < list.len()
        invariant
            i <= list@.len(),
            address_views(r@) == address_views(list@).subrange(0, i as int),
        decreases list@.len() - i,
    {
        let ghost before = r@;
        r.push(copy_bytes(&list[i]));
        assert(address_views(r@) =~= address_views(before).push(list@[i as int]@));
        assert(address_views(list@)[i as int] == list@[i as int]@);
        i = i + 1;
        assert(address_views(r@) =~= address_views(list@).subrange(0, i as int));
    }
    assert(address_views(list@).subrange(0, i as int) =~= address_views(list@));
    r
}

/// Whether `address` is in `list`.
pub fn contains_address(list: &Vec<Vec<u8>>, address: &Vec<u8>) -> (r: bool)
    ensures
        r == address_views(list@).contains(address@),
{
    let mut i: usize = 0;
    while i < list.len()
        invariant
            i <= list@.len(),
            forall|j: int| 0 <= j < i ==> address_views(list@)[j] != address@,
        decreases list@.len() - i,
    {
        if bytes_eq(&list[i], address) {
            assert(address_views(list@)[i as int] == address@);
            return true;
        }
        i = i + 1;
    }
    false
}

/// Succeeds if and only if `sender` is in `allowed`.
pub fn authorize(allowed: &Vec<Vec<u8>>, sender: &Vec<u8>) -> (r: Result<(), ContractError>)
    ensures
        r is Ok <==> address_views(allowed@).contains(sender@),
        r is Err ==> r == Err::<(), ContractError>(ContractError::Unauthorized),
{
    if contains_address(allowed, sender) {
        Ok(())
    } else {
        Err(ContractError::Unauthorized)
    }
}

fn push_if_missing(list: &mut Vec<Vec<u8>>, address: &Vec<u8>)
    ensures
        address_views(final(list)@) == with_member(address_views(old(list)@), address@),
{
    if !contains_address(list, address) {
        let ghost before = list@;
        list.push(copy_bytes(address));
        assert(address_views(list@) =~= address_views(before).push(address@));
    }
}

impl Config {
    /// A copy of this configuration.
    pub fn copy(&self) -> (r: Config)
        ensures
            r@ == self@,
    {
        Config {
            admin: copy_bytes(&self.admin),
            addresses_allowed_to_fill: copy_addresses(&self.addresses_allowed_to_fill),
            butt: self.butt.copy(),
            execution_fee: self.execution_fee,
            sscrt: self.sscrt.copy(),
        }
    }

    /// The first configuration: `sender` is the admin, and it and the contract
    /// itself may submit fills.
    pub fn new(
        sender: &Vec<u8>,
        contract_address: &Vec<u8>,
        butt: SecretContract,
        sscrt: SecretContract,
        execution_fee: u128,
    ) -> (r: Config)
        ensures
            r@ == (ConfigView {
                admin: sender@,
                addresses_allowed_to_fill: seq![sender@, contract_address@],
                butt: butt@,
                execution_fee,
                sscrt: sscrt@,
            }),
    {
        let mut addresses_allowed_to_fill: Vec<Vec<u8>> = Vec::new();
        addresses_allowed_to_fill.push(copy_bytes(sender));
        addresses_allowed_to_fill.push(copy_bytes(contract_address));
        let r = Config {
            admin: copy_bytes(sender),
            addresses_allowed_to_fill,
            butt,
            execution_fee,
            sscrt,
        };
        assert(r@.addresses_allowed_to_fill =~= seq![sender@, contract_address@]);
        r
    }
}

/// The allow-list that an update leaves: unchanged when no new list is
/// given, else the new list with the contract and then the admin added
/// where missing.
pub open spec fn updated_allow_list(
    old_list: Seq<Seq<u8>>,
    new_list: Option<Seq<Seq<u8>>>,
    contract_address: Seq<u8>,
    admin: Seq<u8>,
) -> Seq<Seq<u8>> {
    match new_list {
        Some(l) => with_member(with_member(l, contract_address), admin),
        None => old_list,
    }
}

/// The byte strings of an optional list of addresses.
pub open spec fn optional_addresses(list: Option<Vec<Vec<u8>>>) -> Option<Seq<Seq<u8>>> {
    match list {
        Some(l) => Some(address_views(l@)),
        None => None,
    }
}

/// The configuration after an update by its admin.
pub open spec fn updated_config(
    config: ConfigView,
    contract_address: Seq<u8>,
    new_list: Option<Seq<Seq<u8>>>,
    new_fee: Option<u128>,
) -> ConfigView {
    ConfigView {
        addresses_allowed_to_fill: updated_allow_list(
            config.addresses_allowed_to_fill,
            new_list,
            contract_address,
            config.admin,
        ),
        execution_fee: match new_fee {
            Some(f) => f,
            None => config.execution_fee,
        },
        ..config
    }
}

/// Changes the allow-list and the execution fee, each only where a new value
/// is given; only the admin may do so. The contract itself and the admin stay
/// on the allow-list.
pub fn update_config(
    config: &mut Config,
    sender: &Vec<u8>,
    contract_address: &Vec<u8>,
    addresses_allowed_to_fill: Option<Vec<Vec<u8>>>,
    execution_fee: Option<u128>,
) -> (r: Result<(), ContractError>)
    ensures
        r is Ok <==> sender@ == old(config).admin@,
        r is Err ==> r == Err::<(), ContractError>(ContractError::Unauthorized) && *final(config)
            == *old(config),
        r is Ok ==> final(config)@ == updated_config(
            old(config)@,
            contract_address@,
            optional_addresses(addresses_allowed_to_fill),
            execution_fee,
        ),
{
    if !bytes_eq(sender, &config.admin) {
        return Err(ContractError::Unauthorized);
    }
    let ghost pre = *config;
    if let Some(list) = addresses_allowed_to_fill {
        config.addresses_allowed_to_fill = list;
        push_if_missing(&mut config.addresses_allowed_to_fill, contract_address);
        let admin = copy_bytes(&config.admin);
        push_if_missing(&mut config.addresses_allowed_to_fill, &admin);
    }
    if let Some(fee) = execution_fee {
        config.execution_fee = fee;
    }
    proof {
        let v = config@;
        assert(v.admin == pre@.admin);
        assert(v.butt == pre@.butt);
        assert(v.sscrt == pre@.sscrt);
    }
    Ok(())
}

/// Whether the allow-list holds both the admin and the contract itself.
pub open spec fn keeps_required_members(config: ConfigView, contract_address: Seq<u8>) -> bool {
    config.addresses_allowed_to_fill.contains(config.admin)
        && config.addresses_allowed_to_fill.contains(contract_address)
}

/// After the admin replaces the allow-list and gives no new fee, every
/// address of the new list, the admin and the contract itself are on the
/// allow-list, and the fee is the one from before.
pub proof fn lemma_update_keeps_members(
    config: ConfigView,
    new_list: Seq<Seq<u8>>,
    contract_address: Seq<u8>,
)
    ensures
        forall|x: Seq<u8>|
            new_list.contains(x) ==> #[trigger] updated_config(
                config,
                contract_address,
                Some(new_list),
                None,
            ).addresses_allowed_to_fill.contains(x),
        keeps_required_members(
            updated_config(config, contract_address, Some(new_list), None),
            contract_address,
        ),
        updated_config(config, contract_address, Some(new_list), None).execution_fee
            == config.execution_fee,
        updated_config(config, contract_address, Some(new_list), None).admin == config.admin,
{
    let admin = config.admin;
    let l1 = with_member(new_list, contract_address);
    let l2 = with_member(l1, admin);
    assert forall|x: Seq<u8>| new_list.contains(x) implies #[trigger] l2.contains(x) by {
        let i = choose|i: int| 0 <= i < new_list.len() && new_list[i] == x;
        assert(l1[i] == x);
        assert(l2[i] == x);
    }
    if !new_list.contains(contract_address) {
        assert(l1[new_list.len() as int] == contract_address);
    }
    let j = choose|j: int| 0 <= j < l1.len() && l1[j] == contract_address;
    assert(l2[j] == contract_address);
    if !l1.contains(admin) {
        assert(l2[l1.len() as int] == admin);
    }
}

} // verus!
