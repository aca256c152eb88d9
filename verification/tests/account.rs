use move_core_types::account_address::AccountAddress;
use move_core_types::identifier::Identifier;
use move_core_types::language_storage::{ModuleId, StructTag, TypeTag, CORE_CODE_ADDRESS};
use parallel_executor::access_path::{collect_exactly_one, parse_path, Path, TypeName};
use parallel_executor::account_state::{compare_keys, AccountState, KeyOrder};
use parallel_executor::resources::{core_code_address, ConfigKind, CurrencyError, ResourceKind};
use parallel_executor::roles::{currency_code_of, file_by_currency, AccountRole, DesignatedDealerPreburns, NoCurrencyCode};
use std::collections::BTreeMap;

fn ident(name: &str) -> Identifier {
    Identifier::new(name).unwrap()
}

fn tag(module: &str, name: &str, type_params: Vec<TypeTag>) -> StructTag {
    StructTag { address: CORE_CODE_ADDRESS, module: ident(module), name: ident(name), type_params }
}

fn currency(code: &str) -> TypeTag {
    TypeTag::Struct(tag(code, code, vec![]))
}

fn path(module: &str, name: &str) -> Vec<u8> {
    tag(module, name, vec![]).access_vector()
}

fn path_for(module: &str, name: &str, code: &str) -> Vec<u8> {
    tag(module, name, vec![currency(code)]).access_vector()
}

fn state(entries: Vec<(Vec<u8>, Vec<u8>)>) -> AccountState {
    let mut state = AccountState::new();
    for (key, value) in entries {
        state.insert(key, value);
    }
    state
}

#[test]
fn new_state_is_empty() {
    let state = AccountState::new();
    assert_eq!(state.iter(), vec![]);
    assert_eq!(state.get(b"k"), None);
    assert_eq!(state, AccountState::default());
    assert_eq!(state.get_account_role(), Some(AccountRole::Unknown));
}

#[test]
fn insert_get_remove() {
    let mut state = AccountState::new();
    assert_eq!(state.insert(vec![2], vec![20]), None);
    assert_eq!(state.insert(vec![1], vec![10]), None);
    assert_eq!(state.insert(vec![2], vec![21]), Some(vec![20]));
    assert_eq!(state.get(&[2]), Some(&vec![21]));
    assert_eq!(state.get(&[1]), Some(&vec![10]));
    assert_eq!(state.get(&[3]), None);
    assert!(state.contains_key(&[1]));
    assert!(!state.contains_key(&[]));
    assert_eq!(state.get_resource_impl(&[1]), Some(&vec![10]));
    assert_eq!(state.remove(&[3]), None);
    assert_eq!(state.remove(&[1]), Some(vec![10]));
    assert_eq!(state.remove(&[1]), None);
    assert_eq!(state.get(&[1]), None);
    assert_eq!(state.iter(), vec![(&vec![2], &vec![21])]);
}

#[test]
fn entries_are_walked_by_rising_key() {
    let keys: Vec<Vec<u8>> = vec![
        vec![5],
        vec![],
        vec![1, 2, 3],
        vec![1, 2],
        vec![255],
        vec![1, 3],
        vec![0, 255, 255],
        vec![1],
        vec![0],
        vec![1, 2, 3, 0],
    ];
    let mut ours = AccountState::new();
    let mut theirs: BTreeMap<Vec<u8>, Vec<u8>> = BTreeMap::new();
    for (i, key) in keys.iter().enumerate() {
        assert_eq!(ours.insert(key.clone(), vec![i as u8]), theirs.insert(key.clone(), vec![i as u8]));
    }
    assert_eq!(ours.iter(), theirs.iter().collect::<Vec<_>>());
    assert_eq!(ours.remove(&[1, 2]), theirs.remove(&vec![1u8, 2]));
    assert_eq!(ours.insert(vec![1, 2, 3], vec![99]), theirs.insert(vec![1, 2, 3], vec![99]));
    assert_eq!(ours.iter(), theirs.iter().collect::<Vec<_>>());
}

#[test]
fn keys_compare_byte_by_byte() {
    assert_eq!(compare_keys(&[], &[]), KeyOrder::Same);
    assert_eq!(compare_keys(&[], &[0]), KeyOrder::Before);
    assert_eq!(compare_keys(&[0], &[]), KeyOrder::After);
    assert_eq!(compare_keys(&[1, 2], &[1, 2, 0]), KeyOrder::Before);
    assert_eq!(compare_keys(&[1, 3], &[1, 2, 9]), KeyOrder::After);
    assert_eq!(compare_keys(&[7, 7], &[7, 7]), KeyOrder::Same);
    assert_eq!(compare_keys(&[2], &[10]), KeyOrder::Before);
}

#[test]
fn resources_are_found_under_their_access_vectors() {
    let state = state(vec![
        (path("ChainId", "ChainId"), vec![4]),
        (path("DiemAccount", "DiemAccount"), vec![1, 1]),
        (path("CRSN", "CRSN"), vec![2]),
        (path("DiemConfig", "Configuration"), vec![3]),
        (path("DiemTimestamp", "CurrentTimeMicroseconds"), vec![5]),
        (path("ValidatorConfig", "ValidatorConfig"), vec![6]),
        (path("ValidatorOperatorConfig", "ValidatorOperatorConfig"), vec![7]),
        (path("AccountFreezing", "FreezingBit"), vec![8]),
        (path("DiemBlock", "BlockMetadata"), vec![9]),
    ]);
    assert_eq!(state.get_chain_id_resource(), Some(&vec![4]));
    assert_eq!(state.get_diem_account_resource(), Some(&vec![1, 1]));
    assert_eq!(state.get_crsn_resource(), Some(&vec![2]));
    assert_eq!(state.get_configuration_resource(), Some(&vec![3]));
    assert_eq!(state.get_timestamp_resource(), Some(&vec![5]));
    assert_eq!(state.get_validator_config_resource(), Some(&vec![6]));
    assert_eq!(state.get_validator_operator_config_resource(), Some(&vec![7]));
    assert_eq!(state.get_freezing_bit(), Some(&vec![8]));
    assert_eq!(state.get_block_resource(), Some(&vec![9]));
    assert_eq!(state.get_resource(ResourceKind::ChainId), Some(&vec![4]));
    assert_eq!(state.get_resource(ResourceKind::Balance), None);
    assert_eq!(AccountState::new().get_chain_id_resource(), None);
}

#[test]
fn lookup_uses_the_access_vector_of_the_struct_tag() {
    let name = ResourceKind::CurrencyInfo.struct_tag();
    assert_eq!(name.address, CORE_CODE_ADDRESS.to_vec());
    assert_eq!(name.address, core_code_address());
    assert_eq!(name.module, b"Diem".to_vec());
    assert_eq!(name.name, b"CurrencyInfo".to_vec());
    let xus = TypeName { address: core_code_address(), module: b"XUS".to_vec(), name: b"XUS".to_vec() };
    let state = state(vec![
        (path_for("Diem", "CurrencyInfo", "XUS"), vec![1]),
        (path("Diem", "CurrencyInfo"), vec![2]),
        // The name itself, unencoded, is no path.
        (b"CurrencyInfo".to_vec(), vec![3]),
    ]);
    assert_eq!(state.lookup(&name, Some(&xus)), Some(&vec![1]));
    assert_eq!(state.lookup(&name, None), Some(&vec![2]));
    let bad = TypeName { address: vec![0; 15], module: b"Diem".to_vec(), name: b"CurrencyInfo".to_vec() };
    assert_eq!(state.lookup(&bad, None), None);
    let invalid = TypeName { address: core_code_address(), module: b"no identifier".to_vec(), name: b"X".to_vec() };
    assert_eq!(state.lookup(&invalid, None), None);
    assert_eq!(state.lookup(&name, Some(&invalid)), None);
}

#[test]
fn account_resource_stands_before_the_older_one() {
    let both = state(vec![(path("Account", "Account"), vec![1]), (path("DiemAccount", "DiemAccount"), vec![2])]);
    assert_eq!(both.get_account_resource(), Some((ResourceKind::Account, &vec![1])));
    assert_eq!(both.get_account_address(), Some((ResourceKind::Account, &vec![1])));
    let older = state(vec![(path("DiemAccount", "DiemAccount"), vec![2])]);
    assert_eq!(older.get_account_resource(), Some((ResourceKind::DiemAccount, &vec![2])));
    assert_eq!(older.get_account_address(), Some((ResourceKind::DiemAccount, &vec![2])));
    let neither = state(vec![(path("ChainId", "ChainId"), vec![2])]);
    assert_eq!(neither.get_account_resource(), None);
    assert_eq!(neither.get_account_address(), None);
}

#[test]
fn configurations_are_looked_for_in_both_layouts() {
    let new_layout = path("DiemVersion", "DiemVersion");
    let old_layout = path_for("DiemConfig", "DiemConfig", "DiemVersion");
    let both = state(vec![(new_layout.clone(), vec![1]), (old_layout.clone(), vec![2])]);
    assert_eq!(both.get_version(), Some(&vec![1]));
    assert_eq!(both.get_config(ConfigKind::Version), Some(&vec![1]));
    let old = state(vec![(old_layout, vec![2])]);
    assert_eq!(old.get_version(), Some(&vec![2]));
    assert_eq!(old.get_validator_set(), None);
    let set = state(vec![(path("DiemSystem", "DiemSystem"), vec![7])]);
    assert_eq!(set.get_validator_set(), Some(&vec![7]));
    assert_eq!(ConfigKind::VmPublishingOption.name(), "DiemTransactionPublishingOption");
    assert_eq!(ConfigKind::ValidatorSet.struct_tag().module, b"DiemSystem".to_vec());
}

#[test]
fn publishing_option_is_looked_for_in_the_older_layout_only() {
    let name = "DiemTransactionPublishingOption";
    let new_only = state(vec![(path(name, name), vec![1])]);
    assert_eq!(new_only.get_vm_publishing_option(), None);
    let old = state(vec![(path(name, name), vec![1]), (path_for("DiemConfig", "DiemConfig", name), vec![2])]);
    assert_eq!(old.get_vm_publishing_option(), Some(&vec![2]));
}

#[test]
fn registered_currencies() {
    let list = |codes: &[&str]| bcs::to_bytes(&codes.iter().map(|c| ident(c)).collect::<Vec<_>>()).unwrap();
    let config = path("RegisteredCurrencies", "RegisteredCurrencies");
    assert_eq!(AccountState::new().get_registered_currency_info_resources(), Ok(vec![]));
    let full = state(vec![
        (config.clone(), list(&["XUS", "XDX"])),
        (path_for("Diem", "CurrencyInfo", "XDX"), vec![2]),
        (path_for("Diem", "CurrencyInfo", "XUS"), vec![1]),
    ]);
    assert_eq!(full.get_registered_currency_info_resources(), Ok(vec![&vec![1], &vec![2]]));
    let partial = state(vec![
        (config.clone(), list(&["XUS", "XDX", "ABC"])),
        (path_for("Diem", "CurrencyInfo", "XUS"), vec![1]),
    ]);
    assert_eq!(
        partial.get_registered_currency_info_resources(),
        Err(CurrencyError::NotFound(b"XDX".to_vec()))
    );
    let none = state(vec![(config.clone(), list(&[]))]);
    assert_eq!(none.get_registered_currency_info_resources(), Ok(vec![]));
    let malformed = state(vec![(config, vec![3, 1])]);
    assert_eq!(malformed.get_registered_currency_info_resources(), Err(CurrencyError::Malformed));
    let old_layout = state(vec![
        (path_for("DiemConfig", "DiemConfig", "RegisteredCurrencies"), list(&["XUS"])),
        (path_for("Diem", "CurrencyInfo", "XUS"), vec![9]),
    ]);
    assert_eq!(old_layout.get_registered_currency_info_resources(), Ok(vec![&vec![9]]));
}

#[test]
fn keys_are_read_as_paths() {
    let module = ModuleId::new(AccountAddress::new([7; 16]), ident("Coin"));
    match parse_path(&module.access_vector()) {
        Some(Path::Code(id)) => {
            assert_eq!(id.address, vec![7; 16]);
            assert_eq!(id.name, b"Coin".to_vec());
        }
        other => panic!("{:?}", other),
    }
    let resource = tag("DiemAccount", "Balance", vec![currency("XUS"), TypeTag::U64, TypeTag::Vector(Box::new(TypeTag::Bool))]);
    match parse_path(&resource.access_vector()) {
        Some(Path::Resource(found)) => {
            assert_eq!(found.address, CORE_CODE_ADDRESS.to_vec());
            assert_eq!(found.module, b"DiemAccount".to_vec());
            assert_eq!(found.name, b"Balance".to_vec());
            assert_eq!(found.type_params.len(), 3);
            assert_eq!(
                found.type_params[0],
                parallel_executor::access_path::TypeTag::Struct {
                    address: CORE_CODE_ADDRESS.to_vec(),
                    module: b"XUS".to_vec(),
                    name: b"XUS".to_vec(),
                    arity: 0,
                }
            );
            assert_eq!(found.type_params[1], parallel_executor::access_path::TypeTag::Other);
            assert_eq!(found.type_params[2], parallel_executor::access_path::TypeTag::Other);
        }
        other => panic!("{:?}", other),
    }
    assert_eq!(parse_path(&[]), None);
    assert_eq!(parse_path(&[0]), None);
    assert_eq!(parse_path(&[1]), None);
    assert_eq!(parse_path(&[2, 0, 0]), None);
    let mut trailing = module.access_vector();
    trailing.push(0);
    assert_eq!(parse_path(&trailing), None);
    let mut swapped = module.access_vector();
    swapped[0] = 1;
    assert_eq!(parse_path(&swapped), None);
    let mut other_tag = module.access_vector();
    other_tag[0] = 0x80;
    assert_eq!(parse_path(&other_tag), None);
}

#[test]
fn modules_are_the_blobs_under_code_paths() {
    let first = ModuleId::new(AccountAddress::new([1; 16]), ident("B")).access_vector();
    let second = ModuleId::new(AccountAddress::new([1; 16]), ident("A")).access_vector();
    let state = state(vec![
        (first.clone(), vec![10]),
        (path("ChainId", "ChainId"), vec![4]),
        (second.clone(), vec![20]),
    ]);
    assert!(state.has_valid_paths());
    assert!(second < first);
    assert_eq!(state.get_modules(), vec![&vec![20], &vec![10]]);
    assert_eq!(state.try_get_modules(), Some(vec![&vec![20], &vec![10]]));
    assert_eq!(state.clone().try_into_modules(), Some(vec![vec![20], vec![10]]));
    assert_eq!(state.into_modules(), vec![vec![20], vec![10]]);
    let broken = self::state(vec![(first, vec![10]), (vec![9, 9], vec![1])]);
    assert!(!broken.has_valid_paths());
    assert_eq!(broken.try_get_modules(), None);
    assert_eq!(broken.try_into_modules(), None);
    assert_eq!(AccountState::new().get_modules(), Vec::<&Vec<u8>>::new());
}

#[test]
fn resources_pass_over_what_is_no_resource() {
    let module = ModuleId::new(AccountAddress::new([1; 16]), ident("B")).access_vector();
    let state = state(vec![
        (module, vec![10]),
        (vec![9, 9], vec![1]),
        (path("ChainId", "ChainId"), vec![4]),
        (path_for("DiemAccount", "Balance", "XUS"), vec![5]),
        (path_for("DiemAccount", "Balance", "XDX"), vec![6]),
    ]);
    let all = state.get_resources();
    assert_eq!(all.len(), 3);
    let names: Vec<Vec<u8>> = all.iter().map(|(t, _)| t.name.clone()).collect();
    assert!(names.contains(&b"ChainId".to_vec()));
    let balances = state.get_resources_with_type(&ResourceKind::Balance.struct_tag());
    assert_eq!(balances.len(), 2);
    // XDX sorts before XUS in the keys.
    assert_eq!(balances[0].1, &vec![6]);
    assert_eq!(balances[1].1, &vec![5]);
    assert_eq!(balances[0].0.name, b"Balance".to_vec());
    assert_eq!(state.get_resources_with_type(&ResourceKind::Preburn.struct_tag()), vec![]);
}

#[test]
fn balances_are_filed_by_currency_code() {
    let state = state(vec![
        (path_for("DiemAccount", "Balance", "XUS"), vec![5]),
        (path_for("DiemAccount", "Balance", "XDX"), vec![6]),
        (path_for("Diem", "Preburn", "XUS"), vec![7]),
        (path("ChainId", "ChainId"), vec![4]),
    ]);
    assert_eq!(state.get_balance_resources(), Ok(vec![(b"XDX".to_vec(), vec![6]), (b"XUS".to_vec(), vec![5])]));
    assert_eq!(state.get_preburn_balances(), Ok(vec![(b"XUS".to_vec(), vec![7])]));
    assert_eq!(state.get_preburn_queue_balances(), Ok(vec![]));
    let untyped = self::state(vec![
        (path_for("DiemAccount", "Balance", "XUS"), vec![5]),
        (path("DiemAccount", "Balance"), vec![6]),
    ]);
    assert_eq!(untyped.get_balance_resources(), Err(NoCurrencyCode));
    let two = tag("DiemAccount", "Balance", vec![currency("XUS"), currency("XDX")]).access_vector();
    assert_eq!(self::state(vec![(two, vec![1])]).get_balance_resources(), Err(NoCurrencyCode));
    let primitive = tag("DiemAccount", "Balance", vec![TypeTag::U64]).access_vector();
    assert_eq!(self::state(vec![(primitive, vec![1])]).get_balance_resources(), Err(NoCurrencyCode));
    let mismatched = tag("DiemAccount", "Balance", vec![TypeTag::Struct(tag("XUS", "Coin", vec![]))]).access_vector();
    assert_eq!(self::state(vec![(mismatched, vec![1])]).get_balance_resources(), Err(NoCurrencyCode));
    let nested = tag("DiemAccount", "Balance", vec![TypeTag::Struct(tag("XUS", "XUS", vec![TypeTag::Bool]))]).access_vector();
    assert_eq!(self::state(vec![(nested, vec![1])]).get_balance_resources(), Err(NoCurrencyCode));
    let foreign = StructTag {
        address: AccountAddress::new([2; 16]),
        module: ident("XUS"),
        name: ident("XUS"),
        type_params: vec![],
    };
    let elsewhere = tag("DiemAccount", "Balance", vec![TypeTag::Struct(foreign)]).access_vector();
    assert_eq!(self::state(vec![(elsewhere, vec![1])]).get_balance_resources(), Err(NoCurrencyCode));
}

#[test]
fn currency_code_is_the_name_of_the_one_type_argument() {
    let found = match parse_path(&path_for("Diem", "Preburn", "XDX")) {
        Some(Path::Resource(found)) => found,
        other => panic!("{:?}", other),
    };
    assert_eq!(currency_code_of(found.clone()), Some(b"XDX".to_vec()));
    let blob = vec![1u8];
    assert_eq!(file_by_currency(vec![(found, &blob)]), Ok(vec![(b"XDX".to_vec(), vec![1])]));
    assert_eq!(file_by_currency(vec![]), Ok(vec![]));
}

#[test]
fn exactly_one_item() {
    assert_eq!(collect_exactly_one(Vec::<u8>::new()), None);
    assert_eq!(collect_exactly_one(vec![5u8]), Some(5));
    assert_eq!(collect_exactly_one(vec![5u8, 6]), None);
    assert_eq!(collect_exactly_one(vec![5u8, 6, 7]), None);
}

#[test]
fn role_of_a_parent_vasp() {
    let vasp = state(vec![(path("VASP", "ParentVASP"), vec![1]), (path("DualAttestation", "Credential"), vec![2])]);
    assert_eq!(vasp.get_account_role(), Some(AccountRole::ParentVASP { vasp: vec![1], credential: vec![2] }));
    let bare = state(vec![(path("VASP", "ParentVASP"), vec![1]), (path("VASP", "ChildVASP"), vec![3])]);
    assert_eq!(bare.get_account_role(), None);
}

#[test]
fn role_of_a_child_vasp() {
    let child = state(vec![(path("VASP", "ChildVASP"), vec![3]), (path("DesignatedDealer", "Dealer"), vec![4])]);
    assert_eq!(child.get_account_role(), Some(AccountRole::ChildVASP(vec![3])));
}

#[test]
fn role_of_a_designated_dealer() {
    let dealer = (path("DesignatedDealer", "Dealer"), vec![4]);
    let credential = (path("DualAttestation", "Credential"), vec![2]);
    let preburn = (path_for("Diem", "Preburn", "XUS"), vec![7]);
    let queue = (path_for("Diem", "PreburnQueue", "XUS"), vec![8]);
    let with_preburn = state(vec![dealer.clone(), credential.clone(), preburn.clone()]);
    assert_eq!(
        with_preburn.get_account_role(),
        Some(AccountRole::DesignatedDealer {
            dd_credential: vec![2],
            preburn_balances: DesignatedDealerPreburns::Preburn(vec![(b"XUS".to_vec(), vec![7])]),
            designated_dealer: vec![4],
        })
    );
    let with_queue = state(vec![dealer.clone(), credential.clone(), queue.clone()]);
    assert_eq!(
        with_queue.get_account_role(),
        Some(AccountRole::DesignatedDealer {
            dd_credential: vec![2],
            preburn_balances: DesignatedDealerPreburns::PreburnQueue(vec![(b"XUS".to_vec(), vec![8])]),
            designated_dealer: vec![4],
        })
    );
    let with_both = state(vec![dealer.clone(), credential.clone(), preburn.clone(), queue.clone()]);
    assert_eq!(with_both.get_account_role(), None);
    let with_neither = state(vec![dealer.clone(), credential.clone()]);
    assert_eq!(with_neither.get_account_role(), None);
    let without_credential = state(vec![dealer.clone(), preburn.clone()]);
    assert_eq!(without_credential.get_account_role(), None);
    let uncoded = state(vec![dealer, credential, preburn, (path("Diem", "PreburnQueue"), vec![9])]);
    assert_eq!(uncoded.get_account_role(), None);
}

#[test]
fn role_of_any_other_account() {
    let other = state(vec![(path("ChainId", "ChainId"), vec![4]), (path("DualAttestation", "Credential"), vec![2])]);
    assert_eq!(other.get_account_role(), Some(AccountRole::Unknown));
}

#[test]
fn names_of_the_resources() {
    assert_eq!(ResourceKind::Timestamp.module(), "DiemTimestamp");
    assert_eq!(ResourceKind::Timestamp.name(), "CurrentTimeMicroseconds");
    assert_eq!(ResourceKind::ParentVasp.struct_tag().module, ResourceKind::ChildVasp.struct_tag().module);
    assert_eq!(ResourceKind::Account.struct_tag().name, b"Account".to_vec());
}
