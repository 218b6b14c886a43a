//! The typed event bus: channel-style listener registries for balance
//! changes, transaction lifecycle events and confirmation-state changes.
//! Registration hands back a listener handle; emission appends the event to
//! the queue of every matching listener, in registration order.

use vstd::prelude::*;

use crate::WalletError;
use crate::address::{Address, AddressView};

verus! {

/// The mathematical value of a balance change event.
#[verifier::ext_equal]
pub ghost struct BalanceEventView {
    /// The account record id.
    pub account_id: Seq<u8>,
    /// The affected address.
    pub address: AddressView,
    /// The new balance.
    pub balance: u64,
}

/// The balance change event data.
pub struct BalanceEvent {
    /// The associated account record id.
    pub account_id: [u8; 32],
    /// The associated address.
    pub address: Address,
    /// The new balance.
    pub balance: u64,
}

impl View for BalanceEvent {
    type V = BalanceEventView;

    open spec fn view(&self) -> BalanceEventView {
        BalanceEventView {
            account_id: self.account_id@,
            address: self.address@,
            balance: self.balance,
        }
    }
}

impl DeepView for BalanceEvent {
    type V = BalanceEventView;

    open spec fn deep_view(&self) -> BalanceEventView {
        self.view()
    }
}

/// The mathematical value of a transaction event.
#[verifier::ext_equal]
pub ghost struct TransactionEventView {
    /// The account record id.
    pub account_id: Seq<u8>,
    /// The message id.
    pub message_id: Seq<u8>,
}

/// A transaction-related event data.
pub struct TransactionEvent {
    /// The associated account record id.
    pub account_id: [u8; 32],
    /// The event transaction hash.
    pub message_id: [u8; 32],
}

impl View for TransactionEvent {
    type V = TransactionEventView;

    open spec fn view(&self) -> TransactionEventView {
        TransactionEventView { account_id: self.account_id@, message_id: self.message_id@ }
    }
}

impl DeepView for TransactionEvent {
    type V = TransactionEventView;

    open spec fn deep_view(&self) -> TransactionEventView {
        self.view()
    }
}

/// The mathematical value of a confirmation state change event.
#[verifier::ext_equal]
pub ghost struct ConfirmationChangeEventView {
    /// The account record id.
    pub account_id: Seq<u8>,
    /// The message id.
    pub message_id: Seq<u8>,
    /// The new confirmation state.
    pub confirmed: bool,
}

/// A transaction confirmation state change event data.
pub struct TransactionConfirmationChangeEvent {
    /// The associated account record id.
    pub account_id: [u8; 32],
    /// The event transaction hash.
    pub message_id: [u8; 32],
    /// The confirmed state of the transaction.
    pub confirmed: bool,
}

impl View for TransactionConfirmationChangeEvent {
    type V = ConfirmationChangeEventView;

    open spec fn view(&self) -> ConfirmationChangeEventView {
        ConfirmationChangeEventView {
            account_id: self.account_id@,
            message_id: self.message_id@,
            confirmed: self.confirmed,
        }
    }
}

impl DeepView for TransactionConfirmationChangeEvent {
    type V = ConfirmationChangeEventView;

    open spec fn deep_view(&self) -> ConfirmationChangeEventView {
        self.view()
    }
}

/// The kind of a transaction event; listeners register for one kind.
#[derive(Debug, Clone, Copy, PartialEq, Eq, Structural)]
pub enum TransactionEventType {
    /// A message newly entered the history.
    NewTransaction,
    /// A transfer was resubmitted under a new message id.
    Reattachment,
    /// A message was broadcast to the remote ledger.
    Broadcast,
}

/// The mathematical value of one transaction listener.
#[verifier::ext_equal]
pub ghost struct TransactionListenerView {
    /// The kind the listener registered for.
    pub event_type: TransactionEventType,
    /// The events it observed, oldest first.
    pub events: Seq<TransactionEventView>,
}

/// One registered transaction listener and the events it observed.
pub struct TransactionListener {
    /// The kind the listener registered for.
    pub event_type: TransactionEventType,
    /// The events it observed, oldest first.
    pub events: Vec<TransactionEvent>,
}

impl View for TransactionListener {
    type V = TransactionListenerView;

    open spec fn view(&self) -> TransactionListenerView {
        TransactionListenerView { event_type: self.event_type, events: self.events.deep_view() }
    }
}

impl DeepView for TransactionListener {
    type V = TransactionListenerView;

    open spec fn deep_view(&self) -> TransactionListenerView {
        self.view()
    }
}

/// The process-wide event bus, constructed explicitly and handed to whoever
/// emits or listens. Each listener owns a queue; emission appends to every
/// matching queue synchronously, in registration order.
pub struct EventBus {
    /// One queue per balance change listener.
    pub balance_listeners: Vec<Vec<BalanceEvent>>,
    /// One queue per transaction listener, each bound to one event kind.
    pub transaction_listeners: Vec<TransactionListener>,
    /// One queue per confirmation state change listener.
    pub confirmation_listeners: Vec<Vec<TransactionConfirmationChangeEvent>>,
    /// One queue per error listener; reconciliation failures land here.
    pub error_listeners: Vec<Vec<WalletError>>,
}

impl EventBus {
    /// A bus with no listeners.
    pub fn new() -> (r: EventBus)
        ensures
            r.balance_listeners.deep_view() == Seq::<Seq<BalanceEventView>>::empty(),
            r.transaction_listeners.deep_view() == Seq::<TransactionListenerView>::empty(),
            r.confirmation_listeners.deep_view() == Seq::<
                Seq<ConfirmationChangeEventView>,
            >::empty(),
            r.error_listeners.deep_view() == Seq::<Seq<WalletError>>::empty(),
    {
        let r = EventBus {
            balance_listeners: Vec::new(),
            transaction_listeners: Vec::new(),
            confirmation_listeners: Vec::new(),
            error_listeners: Vec::new(),
        };
        proof {
            assert(r.balance_listeners.deep_view() =~= Seq::<Seq<BalanceEventView>>::empty());
            assert(r.transaction_listeners.deep_view() =~= Seq::<TransactionListenerView>::empty());
            assert(r.confirmation_listeners.deep_view() =~= Seq::<
                Seq<ConfirmationChangeEventView>,
            >::empty());
            assert(r.error_listeners.deep_view() =~= Seq::<Seq<WalletError>>::empty());
        }
        r
    }

    /// Registers a balance change listener; never fails, returns its handle
    /// at once.
    pub fn on_balance_change(&mut self) -> (h: usize)
        ensures
            h == old(self).balance_listeners.deep_view().len(),
            final(self).balance_listeners.deep_view() == old(self).balance_listeners.deep_view().push(Seq::<BalanceEventView>::empty()),
            final(self).transaction_listeners == old(self).transaction_listeners,
            final(self).confirmation_listeners == old(self).confirmation_listeners,
            final(self).error_listeners == old(self).error_listeners,
    {
        let h = self.balance_listeners.len();
        let ghost prev = self.balance_listeners.deep_view();
        let ghost prevseq = self.balance_listeners@;
        self.balance_listeners.push(Vec::new());
        proof {
            assert(self.balance_listeners.deep_view() =~= prev.push(
                Seq::<BalanceEventView>::empty(),
            )) by {
                assert forall|j: int|
                    0 <= j < prev.len() implies self.balance_listeners.deep_view()[j] == prev[j] by {
                    assert(self.balance_listeners@[j] == prevseq[j]);
                }
                assert(self.balance_listeners.deep_view()[prev.len() as int]
                    == self.balance_listeners@[prev.len() as int].deep_view());
                assert(self.balance_listeners@[prev.len() as int].deep_view() =~= Seq::<
                    BalanceEventView,
                >::empty());
            }
        }
        h
    }

    /// Registers a listener for one transaction event kind.
    fn add_transaction_listener(&mut self, event_type: TransactionEventType) -> (h: usize)
        ensures
            h == old(self).transaction_listeners.deep_view().len(),
            final(self).transaction_listeners.deep_view() == old(self).transaction_listeners.deep_view().push(
                TransactionListenerView { event_type, events: Seq::empty() },
            ),
            final(self).balance_listeners == old(self).balance_listeners,
            final(self).confirmation_listeners == old(self).confirmation_listeners,
            final(self).error_listeners == old(self).error_listeners,
    {
        let h = self.transaction_listeners.len();
        let ghost prev = self.transaction_listeners.deep_view();
        let ghost prevseq = self.transaction_listeners@;
        self.transaction_listeners.push(TransactionListener { event_type, events: Vec::new() });
        proof {
            assert(self.transaction_listeners.deep_view() =~= prev.push(
                TransactionListenerView { event_type, events: Seq::empty() },
            )) by {
                assert forall|j: int|
                    0 <= j < prev.len() implies self.transaction_listeners.deep_view()[j]
                    == prev[j] by {
                    assert(self.transaction_listeners@[j] == prevseq[j]);
                }
                assert(self.transaction_listeners.deep_view()[prev.len() as int]
                    == self.transaction_listeners@[prev.len() as int].deep_view());
                assert(self.transaction_listeners@[prev.len() as int].events.deep_view() =~= Seq::<
                    TransactionEventView,
                >::empty());
            }
        }
        h
    }

    /// Listens to new messages entering the history.
    pub fn on_new_transaction(&mut self) -> (h: usize)
        ensures
            h == old(self).transaction_listeners.deep_view().len(),
            final(self).transaction_listeners.deep_view() == old(self).transaction_listeners.deep_view().push(
                TransactionListenerView {
                    event_type: TransactionEventType::NewTransaction,
                    events: Seq::empty(),
                },
            ),
            final(self).balance_listeners == old(self).balance_listeners,
            final(self).confirmation_listeners == old(self).confirmation_listeners,
            final(self).error_listeners == old(self).error_listeners,
    {
        self.add_transaction_listener(TransactionEventType::NewTransaction)
    }

    /// Listens to transaction reattachments.
    pub fn on_reattachment(&mut self) -> (h: usize)
        ensures
            h == old(self).transaction_listeners.deep_view().len(),
            final(self).transaction_listeners.deep_view() == old(self).transaction_listeners.deep_view().push(
                TransactionListenerView {
                    event_type: TransactionEventType::Reattachment,
                    events: Seq::empty(),
                },
            ),
            final(self).balance_listeners == old(self).balance_listeners,
            final(self).confirmation_listeners == old(self).confirmation_listeners,
            final(self).error_listeners == old(self).error_listeners,
    {
        self.add_transaction_listener(TransactionEventType::Reattachment)
    }

    /// Listens to transaction broadcasts.
    pub fn on_broadcast(&mut self) -> (h: usize)
        ensures
            h == old(self).transaction_listeners.deep_view().len(),
            final(self).transaction_listeners.deep_view() == old(self).transaction_listeners.deep_view().push(
                TransactionListenerView {
                    event_type: TransactionEventType::Broadcast,
                    events: Seq::empty(),
                },
            ),
            final(self).balance_listeners == old(self).balance_listeners,
            final(self).confirmation_listeners == old(self).confirmation_listeners,
            final(self).error_listeners == old(self).error_listeners,
    {
        self.add_transaction_listener(TransactionEventType::Broadcast)
    }

    /// Listens to transaction confirmation state changes.
    pub fn on_confirmation_state_change(&mut self) -> (h: usize)
        ensures
            h == old(self).confirmation_listeners.deep_view().len(),
            final(self).confirmation_listeners.deep_view() == old(self).confirmation_listeners.deep_view().push(Seq::<ConfirmationChangeEventView>::empty()),
            final(self).balance_listeners == old(self).balance_listeners,
            final(self).transaction_listeners == old(self).transaction_listeners,
            final(self).error_listeners == old(self).error_listeners,
    {
        let h = self.confirmation_listeners.len();
        let ghost prev = self.confirmation_listeners.deep_view();
        let ghost prevseq = self.confirmation_listeners@;
        self.confirmation_listeners.push(Vec::new());
        proof {
            assert(self.confirmation_listeners.deep_view() =~= prev.push(
                Seq::<ConfirmationChangeEventView>::empty(),
            )) by {
                assert forall|j: int|
                    0 <= j < prev.len() implies self.confirmation_listeners.deep_view()[j]
                    == prev[j] by {
                    assert(self.confirmation_listeners@[j] == prevseq[j]);
                }
                assert(self.confirmation_listeners.deep_view()[prev.len() as int]
                    == self.confirmation_listeners@[prev.len() as int].deep_view());
                assert(self.confirmation_listeners@[prev.len() as int].deep_view() =~= Seq::<
                    ConfirmationChangeEventView,
                >::empty());
            }
        }
        h
    }

    /// Listens to errors swallowed inside reconciliation tasks.
    pub fn on_error(&mut self) -> (h: usize)
        ensures
            h == old(self).error_listeners.deep_view().len(),
            final(self).error_listeners.deep_view() == old(self).error_listeners.deep_view().push(
                Seq::<WalletError>::empty(),
            ),
            final(self).balance_listeners == old(self).balance_listeners,
            final(self).transaction_listeners == old(self).transaction_listeners,
            final(self).confirmation_listeners == old(self).confirmation_listeners,
    {
        let h = self.error_listeners.len();
        let ghost prev = self.error_listeners.deep_view();
        let ghost prevseq = self.error_listeners@;
        self.error_listeners.push(Vec::new());
        proof {
            assert(self.error_listeners.deep_view() =~= prev.push(Seq::<WalletError>::empty())) by {
                assert forall|j: int|
                    0 <= j < prev.len() implies self.error_listeners.deep_view()[j] == prev[j] by {
                    assert(self.error_listeners@[j] == prevseq[j]);
                }
                assert(self.error_listeners.deep_view()[prev.len() as int]
                    == self.error_listeners@[prev.len() as int].deep_view());
                assert(self.error_listeners@[prev.len() as int].deep_view() =~= Seq::<
                    WalletError,
                >::empty());
            }
        }
        h
    }

    /// Emits a balance change event: every balance listener observes exactly
    /// this event, appended to its queue.
    pub fn emit_balance_change(&mut self, account_id: [u8; 32], address: Address, balance: u64)
        ensures
            final(self).balance_listeners.deep_view().len() == old(self).balance_listeners.deep_view().len(),
            forall|i: int|
                0 <= i < old(self).balance_listeners.deep_view().len() ==> final(self).balance_listeners.deep_view()[i] == old(self).balance_listeners.deep_view()[
                    i
                ].push(
                    BalanceEventView { account_id: account_id@, address: address@, balance },
                ),
            final(self).transaction_listeners == old(self).transaction_listeners,
            final(self).confirmation_listeners == old(self).confirmation_listeners,
            final(self).error_listeners == old(self).error_listeners,
    {
        let ghost orig = old(self).balance_listeners@;
        let ghost ev = BalanceEventView { account_id: account_id@, address: address@, balance };
        let mut i: usize = 0;
        let n = self.balance_listeners.len();
        while i < n
            invariant
                0 <= i <= n,
                n == orig.len(),
                orig == old(self).balance_listeners@,
                ev == (BalanceEventView { account_id: account_id@, address: address@, balance }),
                self.balance_listeners@.len() == n,
                forall|j: int|
                    0 <= j < i ==> (#[trigger] self.balance_listeners@[j]).deep_view() == orig[
                        j
                    ].deep_view().push(ev),
                forall|j: int| i <= j < n ==> #[trigger] self.balance_listeners@[j] == orig[j],
                self.transaction_listeners == old(self).transaction_listeners,
                self.confirmation_listeners == old(self).confirmation_listeners,
                self.error_listeners == old(self).error_listeners,
            decreases n - i,
        {
            let event = BalanceEvent { account_id, address: address.clone(), balance };
            let ghost prevvecs = self.balance_listeners@;
            let entry = &mut self.balance_listeners[i];
            let ghost preveq = entry@;
            entry.push(event);
            proof {
                assert(self.balance_listeners@ == prevvecs.update(
                    i as int,
                    self.balance_listeners@[i as int],
                ));
                let cur = self.balance_listeners@[i as int];
                assert(cur.deep_view() =~= orig[i as int].deep_view().push(ev)) by {
                    assert(preveq == orig[i as int]@);
                    assert forall|k: int| 0 <= k < preveq.len() implies cur.deep_view()[k] == orig[
                        i as int
                    ].deep_view()[k] by {
                        assert(cur@[k] == preveq[k]);
                        assert(cur.deep_view()[k] == cur@[k].deep_view());
                        assert(orig[i as int].deep_view()[k] == preveq[k].deep_view());
                    }
                    assert(cur.deep_view()[preveq.len() as int] == cur@[
                        preveq.len() as int
                    ].deep_view());
                }
            }
            i = i + 1;
        }
        proof {
            assert forall|j: int|
                0 <= j < n implies #[trigger] self.balance_listeners.deep_view()[j] == old(
                self,
            ).balance_listeners.deep_view()[j].push(ev) by {
                assert(self.balance_listeners.deep_view()[j] == self.balance_listeners@[
                    j
                ].deep_view());
                assert(old(self).balance_listeners.deep_view()[j] == orig[j].deep_view());
            }
        }
    }

    /// Emits a transaction event of one kind: every listener registered for
    /// that kind observes exactly this event; listeners of other kinds see
    /// nothing.
    pub fn emit_transaction_event(
        &mut self,
        event_type: TransactionEventType,
        account_id: [u8; 32],
        message_id: [u8; 32],
    )
        ensures
            final(self).transaction_listeners.deep_view().len() == old(self).transaction_listeners.deep_view().len(),
            forall|i: int|
                0 <= i < old(self).transaction_listeners.deep_view().len() ==> final(self).transaction_listeners.deep_view()[i] == (if old(self).transaction_listeners.deep_view()[i].event_type == event_type {
                    TransactionListenerView {
                        event_type,
                        events: old(self).transaction_listeners.deep_view()[i].events.push(
                            TransactionEventView {
                                account_id: account_id@,
                                message_id: message_id@,
                            },
                        ),
                    }
                } else {
                    old(self).transaction_listeners.deep_view()[i]
                }),
            final(self).balance_listeners == old(self).balance_listeners,
            final(self).confirmation_listeners == old(self).confirmation_listeners,
            final(self).error_listeners == old(self).error_listeners,
    {
        let ghost orig = old(self).transaction_listeners@;
        let ghost ev = TransactionEventView { account_id: account_id@, message_id: message_id@ };
        let mut i: usize = 0;
        let n = self.transaction_listeners.len();
        while i < n
            invariant
                0 <= i <= n,
                n == orig.len(),
                orig == old(self).transaction_listeners@,
                ev == (TransactionEventView { account_id: account_id@, message_id: message_id@ }),
                self.transaction_listeners@.len() == n,
                forall|j: int|
                    0 <= j < i ==> (#[trigger] self.transaction_listeners@[j]).deep_view() == (
                    if orig[j].deep_view().event_type == event_type {
                        TransactionListenerView {
                            event_type,
                            events: orig[j].deep_view().events.push(ev),
                        }
                    } else {
                        orig[j].deep_view()
                    }),
                forall|j: int| i <= j < n ==> #[trigger] self.transaction_listeners@[j] == orig[j],
                self.balance_listeners == old(self).balance_listeners,
                self.confirmation_listeners == old(self).confirmation_listeners,
                self.error_listeners == old(self).error_listeners,
            decreases n - i,
        {
            let ghost prevvecs = self.transaction_listeners@;
            let matching = self.transaction_listeners[i].event_type == event_type;
            if matching {
                let event = TransactionEvent { account_id, message_id };
                let entry = &mut self.transaction_listeners[i];
                let ghost preveq = entry.events@;
                entry.events.push(event);
                proof {
                    assert(self.transaction_listeners@ == prevvecs.update(
                        i as int,
                        self.transaction_listeners@[i as int],
                    ));
                    let cur = self.transaction_listeners@[i as int];
                    assert(cur.event_type == event_type);
                    assert(preveq == orig[i as int].events@);
                    assert(cur.events.deep_view() =~= orig[i as int].deep_view().events.push(
                        ev,
                    )) by {
                        assert forall|k: int|
                            0 <= k < preveq.len() implies cur.events.deep_view()[k] == orig[
                            i as int
                        ].deep_view().events[k] by {
                            assert(cur.events@[k] == preveq[k]);
                            assert(cur.events.deep_view()[k] == cur.events@[k].deep_view());
                            assert(orig[i as int].deep_view().events[k] == preveq[k].deep_view());
                        }
                        assert(cur.events.deep_view()[preveq.len() as int] == cur.events@[
                            preveq.len() as int
                        ].deep_view());
                    }
                    assert(cur.deep_view() =~= TransactionListenerView {
                        event_type,
                        events: orig[i as int].deep_view().events.push(ev),
                    });
                }
            }
            i = i + 1;
        }
        proof {
            assert forall|j: int|
                0 <= j < n implies #[trigger] self.transaction_listeners.deep_view()[j] == (if old(
                self,
            ).transaction_listeners.deep_view()[j].event_type == event_type {
                TransactionListenerView {
                    event_type,
                    events: old(self).transaction_listeners.deep_view()[j].events.push(ev),
                }
            } else {
                old(self).transaction_listeners.deep_view()[j]
            }) by {
                assert(self.transaction_listeners.deep_view()[j] == self.transaction_listeners@[
                    j
                ].deep_view());
                assert(old(self).transaction_listeners.deep_view()[j] == orig[j].deep_view());
            }
        }
    }

    /// Emits a confirmation state change event: every confirmation listener
    /// observes exactly this event.
    pub fn emit_confirmation_state_change(
        &mut self,
        account_id: &[u8; 32],
        message_id: [u8; 32],
        confirmed: bool,
    )
        ensures
            final(self).confirmation_listeners.deep_view().len() == old(self).confirmation_listeners.deep_view().len(),
            forall|i: int|
                0 <= i < old(self).confirmation_listeners.deep_view().len() ==> final(self).confirmation_listeners.deep_view()[i] == old(self).confirmation_listeners.deep_view()[i].push(
                    ConfirmationChangeEventView {
                        account_id: account_id@,
                        message_id: message_id@,
                        confirmed,
                    },
                ),
            final(self).balance_listeners == old(self).balance_listeners,
            final(self).transaction_listeners == old(self).transaction_listeners,
            final(self).error_listeners == old(self).error_listeners,
    {
        let ghost orig = old(self).confirmation_listeners@;
        let ghost ev = ConfirmationChangeEventView {
            account_id: account_id@,
            message_id: message_id@,
            confirmed,
        };
        let mut i: usize = 0;
        let n = self.confirmation_listeners.len();
        while i < n
            invariant
                0 <= i <= n,
                n == orig.len(),
                orig == old(self).confirmation_listeners@,
                ev == (ConfirmationChangeEventView {
                    account_id: account_id@,
                    message_id: message_id@,
                    confirmed,
                }),
                self.confirmation_listeners@.len() == n,
                forall|j: int|
                    0 <= j < i ==> (#[trigger] self.confirmation_listeners@[j]).deep_view() == orig[
                        j
                    ].deep_view().push(ev),
                forall|j: int| i <= j < n ==> #[trigger] self.confirmation_listeners@[j] == orig[j],
                self.balance_listeners == old(self).balance_listeners,
                self.transaction_listeners == old(self).transaction_listeners,
                self.error_listeners == old(self).error_listeners,
            decreases n - i,
        {
            let event = TransactionConfirmationChangeEvent {
                account_id: clone_record_id(account_id),
                message_id,
                confirmed,
            };
            let ghost prevvecs = self.confirmation_listeners@;
            let entry = &mut self.confirmation_listeners[i];
            let ghost preveq = entry@;
            entry.push(event);
            proof {
                assert(self.confirmation_listeners@ == prevvecs.update(
                    i as int,
                    self.confirmation_listeners@[i as int],
                ));
                let cur = self.confirmation_listeners@[i as int];
                assert(cur.deep_view() =~= orig[i as int].deep_view().push(ev)) by {
                    assert(preveq == orig[i as int]@);
                    assert forall|k: int| 0 <= k < preveq.len() implies cur.deep_view()[k] == orig[
                        i as int
                    ].deep_view()[k] by {
                        assert(cur@[k] == preveq[k]);
                        assert(cur.deep_view()[k] == cur@[k].deep_view());
                        assert(orig[i as int].deep_view()[k] == preveq[k].deep_view());
                    }
                    assert(cur.deep_view()[preveq.len() as int] == cur@[
                        preveq.len() as int
                    ].deep_view());
                }
            }
            i = i + 1;
        }
        proof {
            assert forall|j: int|
                0 <= j < n implies #[trigger] self.confirmation_listeners.deep_view()[j] == old(
                self,
            ).confirmation_listeners.deep_view()[j].push(ev) by {
                assert(self.confirmation_listeners.deep_view()[j] == self.confirmation_listeners@[
                    j
                ].deep_view());
                assert(old(self).confirmation_listeners.deep_view()[j] == orig[j].deep_view());
            }
        }
    }

    /// Emits a swallowed reconciliation failure: every error listener
    /// observes exactly this error.
    pub fn emit_error(&mut self, error: WalletError)
        ensures
            final(self).error_listeners.deep_view().len() == old(self).error_listeners.deep_view().len(),
            forall|i: int|
                0 <= i < old(self).error_listeners.deep_view().len() ==> final(self).error_listeners.deep_view()[i] == old(self).error_listeners.deep_view()[i].push(
                    error,
                ),
            final(self).balance_listeners == old(self).balance_listeners,
            final(self).transaction_listeners == old(self).transaction_listeners,
            final(self).confirmation_listeners == old(self).confirmation_listeners,
    {
        let ghost orig = old(self).error_listeners@;
        let mut i: usize = 0;
        let n = self.error_listeners.len();
        while i < n
            invariant
                0 <= i <= n,
                n == orig.len(),
                orig == old(self).error_listeners@,
                self.error_listeners@.len() == n,
                forall|j: int|
                    0 <= j < i ==> (#[trigger] self.error_listeners@[j]).deep_view() == orig[
                        j
                    ].deep_view().push(error),
                forall|j: int| i <= j < n ==> #[trigger] self.error_listeners@[j] == orig[j],
                self.balance_listeners == old(self).balance_listeners,
                self.transaction_listeners == old(self).transaction_listeners,
                self.confirmation_listeners == old(self).confirmation_listeners,
            decreases n - i,
        {
            let ghost prevvecs = self.error_listeners@;
            let entry = &mut self.error_listeners[i];
            let ghost preveq = entry@;
            entry.push(error);
            proof {
                assert(self.error_listeners@ == prevvecs.update(
                    i as int,
                    self.error_listeners@[i as int],
                ));
                let cur = self.error_listeners@[i as int];
                assert(cur.deep_view() =~= orig[i as int].deep_view().push(error)) by {
                    assert(preveq == orig[i as int]@);
                    assert forall|k: int| 0 <= k < preveq.len() implies cur.deep_view()[k] == orig[
                        i as int
                    ].deep_view()[k] by {
                        assert(cur@[k] == preveq[k]);
                        assert(cur.deep_view()[k] == cur@[k].deep_view());
                        assert(orig[i as int].deep_view()[k] == preveq[k].deep_view());
                    }
                    assert(cur.deep_view()[preveq.len() as int] == cur@[
                        preveq.len() as int
                    ].deep_view());
                }
            }
            i = i + 1;
        }
        proof {
            assert forall|j: int|
                0 <= j < n implies #[trigger] self.error_listeners.deep_view()[j] == old(
                self,
            ).error_listeners.deep_view()[j].push(error) by {
                assert(self.error_listeners.deep_view()[j] == self.error_listeners@[
                    j
                ].deep_view());
                assert(old(self).error_listeners.deep_view()[j] == orig[j].deep_view());
            }
        }
    }

    /// The events a balance listener observed so far, oldest first.
    pub fn balance_events(&self, h: usize) -> (r: &Vec<BalanceEvent>)
        requires
            h < self.balance_listeners.deep_view().len(),
        ensures
            r.deep_view() == self.balance_listeners.deep_view()[h as int],
    {
        &self.balance_listeners[h]
    }

    /// The events a transaction listener observed so far, oldest first.
    pub fn transaction_events(&self, h: usize) -> (r: &Vec<TransactionEvent>)
        requires
            h < self.transaction_listeners.deep_view().len(),
        ensures
            r.deep_view() == self.transaction_listeners.deep_view()[h as int].events,
    {
        &self.transaction_listeners[h].events
    }

    /// The events a confirmation listener observed so far, oldest first.
    pub fn confirmation_events(&self, h: usize) -> (r: &Vec<TransactionConfirmationChangeEvent>)
        requires
            h < self.confirmation_listeners.deep_view().len(),
        ensures
            r.deep_view() == self.confirmation_listeners.deep_view()[h as int],
    {
        &self.confirmation_listeners[h]
    }

    /// The errors an error listener observed so far, oldest first.
    pub fn errors(&self, h: usize) -> (r: &Vec<WalletError>)
        requires
            h < self.error_listeners.deep_view().len(),
        ensures
            r.deep_view() == self.error_listeners.deep_view()[h as int],
    {
        &self.error_listeners[h]
    }
}

/// Copies a 32-byte record id.
pub fn clone_record_id(id: &[u8; 32]) -> (r: [u8; 32])
    ensures
        r@ == id@,
{
    *id
}

} // verus!
