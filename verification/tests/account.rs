use wallet_engine::WalletError;
use wallet_engine::account::{
    Account, AccountIdentifier, AccountInitialiser, ClientOptions, LockRegistry, SignerType,
    account_id_to_stronghold_record_id,
};
use wallet_engine::address::{Address, AddressValue};
use wallet_engine::message::{Message, MessageType};

fn empty_account() -> Account {
    Account {
        id: AccountIdentifier::Index(0),
        signer_type: SignerType::Stronghold,
        index: 0,
        alias: "test".to_string(),
        created_at: 0,
        messages: vec![],
        addresses: vec![],
        client_options: ClientOptions { node: "http://localhost".to_string() },
        storage_path: "wallet".to_string(),
        has_pending_changes: false,
    }
}

fn make_address(tag: u8, key_index: usize, balance: u64, internal: bool) -> Address {
    Address {
        address: AddressValue::new(vec![tag; 32]),
        balance,
        key_index,
        checksum: String::new(),
        internal,
    }
}

fn make_message(
    id: u8,
    payload: Vec<u8>,
    value: i64,
    incoming: bool,
    broadcasted: bool,
    confirmed: Option<bool>,
    address_tag: u8,
) -> Message {
    Message {
        id: [id; 32],
        payload,
        value,
        incoming,
        broadcasted,
        confirmed,
        address: AddressValue::new(vec![address_tag; 32]),
    }
}

#[test]
fn latest_address_takes_highest_external_index() {
    let mut account = empty_account();
    account.addresses = vec![
        make_address(0, 0, 0, true),
        make_address(1, 1, 10, false),
        make_address(3, 3, 0, false),
    ];
    let latest = account.latest_address().unwrap();
    assert_eq!(latest.key_index, 3);
}

#[test]
fn latest_address_ignores_internal_only_sets() {
    let mut account = empty_account();
    account.addresses = vec![make_address(0, 0, 5, true)];
    assert!(account.latest_address().is_none());
}

#[test]
fn append_addresses_replaces_matching_key_index() {
    let mut account = empty_account();
    account.addresses = vec![make_address(1, 0, 10, false), make_address(2, 1, 20, false)];
    account.append_addresses(vec![make_address(9, 1, 99, false)]);
    assert_eq!(account.addresses.len(), 2);
    assert_eq!(account.addresses[1].balance, 99);
    assert_eq!(account.addresses[1].address.bytes, vec![9; 32]);
    assert_eq!(account.addresses[0].balance, 10);
}

#[test]
fn append_addresses_appends_novel_key_index() {
    let mut account = empty_account();
    account.addresses = vec![make_address(1, 0, 10, false)];
    account.append_addresses(vec![make_address(2, 5, 7, false)]);
    assert_eq!(account.addresses.len(), 2);
    assert_eq!(account.addresses[1].key_index, 5);
}

#[test]
fn list_messages_keeps_confirmed_original_over_reattachment() {
    let mut account = empty_account();
    account.messages = vec![
        make_message(1, vec![7, 7], 5, true, true, Some(true), 1),
        make_message(2, vec![7, 7], 5, true, true, None, 1),
    ];
    let listed = account.list_messages(0, 0, None);
    assert_eq!(listed.len(), 1);
    assert_eq!(listed[0].id, [1; 32]);
}

#[test]
fn list_messages_evicts_unconfirmed_original_for_reattachment() {
    let mut account = empty_account();
    account.messages = vec![
        make_message(1, vec![7, 7], 5, true, true, None, 1),
        make_message(2, vec![7, 7], 5, true, true, None, 1),
    ];
    let listed = account.list_messages(0, 0, None);
    assert_eq!(listed.len(), 1);
    assert_eq!(listed[0].id, [2; 32]);
}

#[test]
fn list_messages_filters_and_windows() {
    let mut account = empty_account();
    account.messages = vec![
        make_message(1, vec![1], 5, true, true, Some(true), 1),
        make_message(2, vec![2], -5, false, true, None, 1),
        make_message(3, vec![3], 9, true, false, Some(false), 1),
        make_message(4, vec![4], 0, true, true, Some(true), 1),
    ];
    let received = account.list_messages(0, 0, Some(MessageType::Received));
    assert_eq!(received.len(), 3);
    let sent = account.list_messages(0, 0, Some(MessageType::Sent));
    assert_eq!(sent.len(), 1);
    assert_eq!(sent[0].id, [2; 32]);
    let failed = account.list_messages(0, 0, Some(MessageType::Failed));
    assert_eq!(failed.len(), 1);
    assert_eq!(failed[0].id, [3; 32]);
    let unconfirmed = account.list_messages(0, 0, Some(MessageType::Unconfirmed));
    assert_eq!(unconfirmed.len(), 2);
    let value = account.list_messages(0, 0, Some(MessageType::Value));
    assert_eq!(value.len(), 2);
    let windowed = account.list_messages(2, 1, None);
    assert_eq!(windowed.len(), 2);
    assert_eq!(windowed[0].id, [2; 32]);
    assert_eq!(windowed[1].id, [3; 32]);
}

#[test]
fn balances_account_for_unconfirmed_spends() {
    let mut account = empty_account();
    account.addresses = vec![make_address(1, 0, 50, false), make_address(2, 1, 8, false)];
    account.messages = vec![
        // an unconfirmed outgoing transfer of 20 from the first address
        make_message(1, vec![1], -20, false, true, None, 1),
        // a confirmed spend changes nothing
        make_message(2, vec![2], -8, false, true, Some(true), 2),
    ];
    assert_eq!(account.total_balance(), 58);
    assert_eq!(account.available_balance(), 38);
}

#[test]
fn list_addresses_filters_by_spent_flag() {
    let mut account = empty_account();
    account.addresses = vec![make_address(1, 0, 50, false), make_address(2, 1, 8, false)];
    account.messages = vec![make_message(1, vec![1], -20, false, true, None, 1)];
    let flagged = account.list_addresses(true);
    assert_eq!(flagged.len(), 1);
    assert_eq!(flagged[0].key_index, 0);
    let unflagged = account.list_addresses(false);
    assert_eq!(unflagged.len(), 1);
    assert_eq!(unflagged[0].key_index, 1);
}

#[test]
fn set_alias_tracks_pending_changes() {
    let mut account = empty_account();
    account.set_alias("test".to_string());
    assert!(!account.has_pending_changes);
    account.set_alias("renamed".to_string());
    assert!(account.has_pending_changes);
    account.mark_saved();
    assert!(!account.has_pending_changes);
}

#[test]
fn set_client_options_tracks_pending_changes() {
    let mut account = empty_account();
    account.set_client_options(ClientOptions { node: "http://localhost".to_string() });
    assert!(!account.has_pending_changes);
    account.set_client_options(ClientOptions { node: "http://example.invalid".to_string() });
    assert!(account.has_pending_changes);
}

#[test]
fn record_id_round_trips_through_the_identifier() {
    let mut account = empty_account();
    account.set_id_from_record(&[0xab; 32]);
    match &account.id {
        AccountIdentifier::Id(s) => assert_eq!(s, &"ab".repeat(32)),
        AccountIdentifier::Index(_) => panic!("expected a string identifier"),
    }
    let record = account_id_to_stronghold_record_id(&account.id).unwrap();
    assert_eq!(record, [0xab; 32]);
}

#[test]
fn record_id_rejects_invalid_identifiers() {
    let index = AccountIdentifier::Index(3);
    assert_eq!(account_id_to_stronghold_record_id(&index).unwrap_err(), WalletError::InvalidIdentifier);
    let short = AccountIdentifier::Id("abcd".to_string());
    assert_eq!(account_id_to_stronghold_record_id(&short).unwrap_err(), WalletError::InvalidIdentifier);
    let bad = AccountIdentifier::Id("zz".repeat(32));
    assert_eq!(account_id_to_stronghold_record_id(&bad).unwrap_err(), WalletError::InvalidIdentifier);
}

#[test]
fn generate_address_takes_next_index() {
    let mut account = empty_account();
    account.addresses = vec![make_address(1, 0, 10, false)];
    let address = account.generate_address(AddressValue::new(vec![5; 32]), 3);
    assert_eq!(address.key_index, 1);
    assert!(!address.internal);
    assert_eq!(account.addresses.len(), 2);
    assert_eq!(account.addresses[1].balance, 3);
}

#[test]
fn initialise_gives_defaults_and_index_identifier() {
    let options = ClientOptions { node: "http://localhost".to_string() };
    let initialiser = AccountInitialiser::new(options, "wallet".to_string());
    let (account, mnemonic) = initialiser.initialise(2, None, true).unwrap();
    assert_eq!(account.alias, "Account 2");
    assert_eq!(account.index, 2);
    assert!(matches!(account.id, AccountIdentifier::Index(2)));
    assert!(mnemonic.is_none());
    assert!(!account.has_pending_changes);
}

#[test]
fn initialise_requires_a_signer_type() {
    let options = ClientOptions { node: "http://localhost".to_string() };
    let mut initialiser = AccountInitialiser::new(options, "wallet".to_string());
    initialiser.signer_type = None;
    let err = initialiser.initialise(0, None, true).unwrap_err();
    assert_eq!(err, WalletError::MissingSignerType);
}

#[test]
fn initialise_refuses_an_unused_latest_account() {
    let latest = empty_account();
    let options = ClientOptions { node: "http://localhost".to_string() };
    let initialiser = AccountInitialiser::new(options, "wallet".to_string());
    let err = initialiser.initialise(1, Some(&latest), true).unwrap_err();
    assert_eq!(err, WalletError::LatestAccountIsEmpty);

    let mut used = empty_account();
    used.addresses = vec![make_address(1, 0, 5, false)];
    let options = ClientOptions { node: "http://localhost".to_string() };
    let initialiser = AccountInitialiser::new(options, "wallet".to_string());
    assert!(initialiser.initialise(1, Some(&used), true).is_ok());
}

#[test]
fn initialise_generates_a_mnemonic_for_a_first_env_account() {
    let options = ClientOptions { node: "http://localhost".to_string() };
    let initialiser =
        AccountInitialiser::new(options, "wallet".to_string()).signer_type(SignerType::EnvMnemonic);
    let (_, mnemonic) = initialiser.initialise(0, None, false).unwrap();
    let phrase = mnemonic.expect("a mnemonic must be generated");
    assert_eq!(phrase.split(' ').count(), 24);
}

#[test]
fn lock_registry_is_idempotent_and_exclusive() {
    let mut registry = LockRegistry::new();
    let id = AccountIdentifier::Id("ab".repeat(32));
    let first = registry.get_account_addresses_lock(&id);
    let second = registry.get_account_addresses_lock(&id);
    assert_eq!(first, second);
    assert_eq!(registry.entries.len(), 1);

    assert!(registry.try_acquire(&id));
    assert!(!registry.try_acquire(&id));
    registry.release(&id);
    assert!(registry.try_acquire(&id));
    registry.release(&id);
}

#[test]
fn get_message_finds_by_id() {
    let mut account = empty_account();
    account.messages = vec![make_message(7, vec![1], 5, true, true, None, 1)];
    assert!(account.get_message(&[7; 32]).is_some());
    assert!(account.get_message(&[8; 32]).is_none());
}

#[test]
fn get_message_returns_the_first_occurrence() {
    let mut account = empty_account();
    account.messages = vec![
        make_message(7, vec![1], 5, true, true, None, 1),
        make_message(7, vec![2], 9, false, true, Some(true), 2),
    ];
    let found = account.get_message(&[7; 32]).unwrap();
    assert_eq!(found.payload, vec![1]);
    assert_eq!(found.value, 5);
}

#[test]
fn builder_requires_every_field() {
    let err = wallet_engine::address::AddressBuilder::new().build().unwrap_err();
    assert_eq!(err, WalletError::MissingField);
    let err = wallet_engine::address::AddressBuilder::new()
        .address(AddressValue::new(vec![1; 32]))
        .balance(1)
        .build()
        .unwrap_err();
    assert_eq!(err, WalletError::MissingField);
}
