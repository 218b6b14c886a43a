use wallet_engine::WalletError;
use wallet_engine::address::{AddressBuilder, AddressValue};
use wallet_engine::event::{EventBus, TransactionEventType};

#[test]
fn balance_events() {
    let mut bus = EventBus::new();
    let listener = bus.on_balance_change();

    bus.emit_balance_change(
        [1; 32],
        AddressBuilder::new()
            .address(AddressValue::new(vec![0; 32]))
            .balance(0)
            .key_index(0)
            .build()
            .expect("failed to build address"),
        0,
    );

    let events = bus.balance_events(listener);
    assert_eq!(events.len(), 1);
    assert!(events[0].account_id == [1; 32]);
    assert!(events[0].balance == 0);
}

#[test]
fn on_new_transaction_event() {
    let account_id = [0; 32];
    let message_id = [0u8; 32];
    let mut bus = EventBus::new();
    let listener = bus.on_new_transaction();

    bus.emit_transaction_event(TransactionEventType::NewTransaction, account_id, message_id);

    let events = bus.transaction_events(listener);
    assert_eq!(events.len(), 1);
    assert!(events[0].account_id == account_id);
    assert!(events[0].message_id == message_id);
}

#[test]
fn on_reattachment_event() {
    let account_id = [0; 32];
    let message_id = [0u8; 32];
    let mut bus = EventBus::new();
    let listener = bus.on_reattachment();

    bus.emit_transaction_event(TransactionEventType::Reattachment, account_id, message_id);

    let events = bus.transaction_events(listener);
    assert_eq!(events.len(), 1);
    assert!(events[0].account_id == account_id);
    assert!(events[0].message_id == message_id);
}

#[test]
fn on_broadcast_event() {
    let account_id = [5; 32];
    let message_id = [0u8; 32];
    let mut bus = EventBus::new();
    let listener = bus.on_broadcast();

    bus.emit_transaction_event(TransactionEventType::Broadcast, account_id, message_id);

    let events = bus.transaction_events(listener);
    assert_eq!(events.len(), 1);
    assert!(events[0].account_id == account_id);
    assert!(events[0].message_id == message_id);
}

#[test]
fn on_confirmation_state_change_event() {
    let account_id = [6; 32];
    let message_id = [0u8; 32];
    let confirmed = true;
    let mut bus = EventBus::new();
    let listener = bus.on_confirmation_state_change();

    bus.emit_confirmation_state_change(&account_id, message_id, confirmed);

    let events = bus.confirmation_events(listener);
    assert_eq!(events.len(), 1);
    assert!(events[0].account_id == account_id);
    assert!(events[0].message_id == message_id);
    assert!(events[0].confirmed == confirmed);
}

#[test]
fn transaction_listeners_only_see_their_kind() {
    let mut bus = EventBus::new();
    let new_tx = bus.on_new_transaction();
    let reattach = bus.on_reattachment();
    let broadcast = bus.on_broadcast();

    bus.emit_transaction_event(TransactionEventType::Reattachment, [2; 32], [3; 32]);

    assert_eq!(bus.transaction_events(new_tx).len(), 0);
    assert_eq!(bus.transaction_events(reattach).len(), 1);
    assert_eq!(bus.transaction_events(broadcast).len(), 0);
}

#[test]
fn every_listener_observes_in_registration_order() {
    let mut bus = EventBus::new();
    let first = bus.on_balance_change();
    let second = bus.on_balance_change();

    let address = AddressBuilder::new()
        .address(AddressValue::new(vec![4; 32]))
        .balance(10)
        .key_index(1)
        .build()
        .unwrap();
    bus.emit_balance_change([9; 32], address.clone(), 10);
    bus.emit_balance_change([9; 32], address, 11);

    for listener in [first, second] {
        let events = bus.balance_events(listener);
        assert_eq!(events.len(), 2);
        assert_eq!(events[0].balance, 10);
        assert_eq!(events[1].balance, 11);
    }
}

#[test]
fn error_listeners_observe_swallowed_failures() {
    let mut bus = EventBus::new();
    let listener = bus.on_error();
    bus.emit_error(WalletError::NotFound);
    let errors = bus.errors(listener);
    assert_eq!(errors.len(), 1);
    assert_eq!(errors[0], WalletError::NotFound);
}
