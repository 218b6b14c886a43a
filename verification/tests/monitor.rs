use wallet_engine::WalletError;
use wallet_engine::account::{
    Account, AccountIdentifier, ClientOptions, LockRegistry, SignerType,
};
use wallet_engine::address::{Address, AddressValue};
use wallet_engine::event::EventBus;
use wallet_engine::message::Message;
use wallet_engine::monitor::{
    InclusionState, OutputPayload, OutputRecord, address_topic, apply_address_output,
    apply_confirmation_change, confirmation_update, message_topic, normalize_output,
    record_fetched_message,
};

fn monitored_account() -> Account {
    Account {
        id: AccountIdentifier::Id("cd".repeat(32)),
        signer_type: SignerType::Stronghold,
        index: 0,
        alias: "monitored".to_string(),
        created_at: 0,
        messages: vec![],
        addresses: vec![Address {
            address: AddressValue::new(vec![1; 32]),
            balance: 10,
            key_index: 0,
            checksum: String::new(),
            internal: false,
        }],
        client_options: ClientOptions { node: "http://localhost".to_string() },
        storage_path: "wallet".to_string(),
        has_pending_changes: false,
    }
}

fn output(message_id: u8, amount: u64, is_spent: bool) -> OutputRecord {
    OutputRecord {
        message_id: [message_id; 32],
        transaction_id: [0; 32],
        output_index: 0,
        is_spent,
        amount,
    }
}

fn fetched_message(id: u8) -> Message {
    Message {
        id: [id; 32],
        payload: vec![id],
        value: 25,
        incoming: true,
        broadcasted: true,
        confirmed: Some(true),
        address: AddressValue::new(vec![1; 32]),
    }
}

#[test]
fn normalize_output_decodes_hex_ids() {
    let payload = OutputPayload {
        message_id_hex: "0a".repeat(32),
        transaction_id_hex: "ff".repeat(32),
        output_index: 2,
        is_spent: false,
        amount: 7,
    };
    let record = normalize_output(&payload).unwrap();
    assert_eq!(record.message_id, [0x0a; 32]);
    assert_eq!(record.transaction_id, [0xff; 32]);
    assert_eq!(record.output_index, 2);
    assert!(!record.is_spent);
    assert_eq!(record.amount, 7);

    let bad = OutputPayload {
        message_id_hex: "xyz".to_string(),
        transaction_id_hex: "ff".repeat(32),
        output_index: 0,
        is_spent: false,
        amount: 0,
    };
    assert_eq!(normalize_output(&bad).unwrap_err(), WalletError::InvalidIdentifier);
}

#[test]
fn unknown_output_message_asks_for_a_fetch() {
    let mut account = monitored_account();
    let mut bus = EventBus::new();
    let balance_listener = bus.on_balance_change();
    let tx_listener = bus.on_new_transaction();
    let address = AddressValue::new(vec![1; 32]);

    let known = apply_address_output(&mut account, &address, &output(9, 25, false), &mut bus)
        .unwrap();
    assert!(!known);
    assert_eq!(account.addresses[0].balance, 35);
    let events = bus.balance_events(balance_listener);
    assert_eq!(events.len(), 1);
    assert_eq!(events[0].account_id, [0xcd; 32]);
    assert_eq!(events[0].balance, 35);

    record_fetched_message(&mut account, fetched_message(9), &mut bus).unwrap();
    assert_eq!(account.messages.len(), 1);
    assert_eq!(account.messages[0].confirmed, Some(true));
    let tx_events = bus.transaction_events(tx_listener);
    assert_eq!(tx_events.len(), 1);
    assert_eq!(tx_events[0].message_id, [9; 32]);
    assert_eq!(tx_events[0].account_id, [0xcd; 32]);
}

#[test]
fn recorded_messages_enter_the_history_confirmed() {
    // the referencing output proves inclusion, whatever flag the fetch gave
    let mut account = monitored_account();
    let mut bus = EventBus::new();
    let mut fetched = fetched_message(3);
    fetched.confirmed = None;
    record_fetched_message(&mut account, fetched, &mut bus).unwrap();
    assert_eq!(account.messages[0].confirmed, Some(true));
}

#[test]
fn recording_needs_a_decodable_identifier() {
    let mut account = monitored_account();
    account.id = AccountIdentifier::Index(1);
    let mut bus = EventBus::new();
    let err = record_fetched_message(&mut account, fetched_message(3), &mut bus).unwrap_err();
    assert_eq!(err, WalletError::InvalidIdentifier);
    assert!(account.messages.is_empty());
}

#[test]
fn topics_carry_the_hex_rendering() {
    let address = AddressValue::new(vec![0xab, 0x01]);
    assert_eq!(address_topic(&address), "addresses/ab01/outputs");
    assert_eq!(message_topic(&[0x0f; 32]), format!("messages/{}/metadata", "0f".repeat(32)));
}

#[test]
fn known_output_message_is_marked_confirmed() {
    let mut account = monitored_account();
    let mut message = fetched_message(9);
    message.confirmed = None;
    account.messages = vec![message];
    let mut bus = EventBus::new();
    let address = AddressValue::new(vec![1; 32]);

    let known = apply_address_output(&mut account, &address, &output(9, 5, true), &mut bus)
        .unwrap();
    assert!(known);
    assert_eq!(account.addresses[0].balance, 5);
    assert_eq!(account.messages[0].confirmed, Some(true));
}

#[test]
fn output_for_a_foreign_address_is_refused() {
    let mut account = monitored_account();
    let mut bus = EventBus::new();
    let address = AddressValue::new(vec![2; 32]);
    let err = apply_address_output(&mut account, &address, &output(9, 5, false), &mut bus)
        .unwrap_err();
    assert_eq!(err, WalletError::NotFound);
    assert_eq!(account.addresses[0].balance, 10);
}

#[test]
fn output_for_an_index_identifier_is_refused() {
    let mut account = monitored_account();
    account.id = AccountIdentifier::Index(0);
    let mut bus = EventBus::new();
    let address = AddressValue::new(vec![1; 32]);
    let err = apply_address_output(&mut account, &address, &output(9, 5, false), &mut bus)
        .unwrap_err();
    assert_eq!(err, WalletError::InvalidIdentifier);
}

#[test]
fn confirmation_update_decides_flips_only() {
    assert_eq!(confirmation_update(None, Some(InclusionState::Included)), Some(true));
    assert_eq!(confirmation_update(None, Some(InclusionState::Conflicting)), Some(false));
    assert_eq!(confirmation_update(Some(true), Some(InclusionState::Included)), None);
    assert_eq!(confirmation_update(Some(false), Some(InclusionState::Included)), Some(true));
    assert_eq!(confirmation_update(Some(true), Some(InclusionState::NoTransaction)), Some(false));
    assert_eq!(confirmation_update(Some(false), None), None);
}

#[test]
fn confirmation_change_updates_message_and_notifies() {
    let mut account = monitored_account();
    let mut message = fetched_message(4);
    message.confirmed = None;
    account.messages = vec![message];
    let mut bus = EventBus::new();
    let listener = bus.on_confirmation_state_change();

    apply_confirmation_change(&mut account, &[4; 32], true, &mut bus).unwrap();
    assert_eq!(account.messages[0].confirmed, Some(true));
    let events = bus.confirmation_events(listener);
    assert_eq!(events.len(), 1);
    assert_eq!(events[0].message_id, [4; 32]);
    assert!(events[0].confirmed);

    let err = apply_confirmation_change(&mut account, &[5; 32], true, &mut bus).unwrap_err();
    assert_eq!(err, WalletError::NotFound);
}

#[test]
fn serialized_mutations_lose_neither_change() {
    // Two operations race for one account: a foreground address generation
    // and a reconciliation event. Each one takes the account's lock, reloads
    // the stored record, mutates it and stores it back; afterwards the stored
    // record reflects both changes.
    let mut registry = LockRegistry::new();
    let mut bus = EventBus::new();
    let id = AccountIdentifier::Id("cd".repeat(32));
    let mut stored = monitored_account();

    assert!(registry.try_acquire(&id));
    let mut working = stored.clone();
    let fresh = working.generate_address(AddressValue::new(vec![2; 32]), 0);
    stored = working;
    registry.release(&id);

    assert!(registry.try_acquire(&id));
    // while the lock is held, the competing operation cannot enter
    assert!(!registry.try_acquire(&id));
    let mut working = stored.clone();
    let address = AddressValue::new(vec![1; 32]);
    apply_address_output(&mut working, &address, &output(9, 30, false), &mut bus).unwrap();
    stored = working;
    registry.release(&id);

    assert_eq!(stored.addresses.len(), 2);
    assert_eq!(stored.addresses[0].balance, 40);
    assert_eq!(stored.addresses[1].key_index, fresh.key_index);
}
