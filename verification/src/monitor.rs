//! The reconciliation logic behind the monitor: how a parsed output or
//! metadata notification from the remote ledger mutates the owning account
//! and what the event bus broadcasts. The surrounding plumbing — topic
//! subscriptions, task spawning, storage reloads — hands these functions
//! plain values and performs the mutations they decide under the account's
//! lock.

use vstd::prelude::*;

use crate::WalletError;
use crate::account::{AccountIdView, Account, AccountView, account_id_to_stronghold_record_id, decode_hex_record, hex_bytes_of, is_hex_digit, record_id_decodes};
use crate::address::{AddressValue, AddressView};
use crate::event::{BalanceEventView, ConfirmationChangeEventView, EventBus, TransactionEventType, TransactionEventView, TransactionListenerView};
use crate::message::{Message, MessageView, find_message, position_by_message_id};

verus! {

/// The topic delivering output notifications for an address: the address
/// bytes stand in it as lowercase hexadecimal digits.
pub fn address_topic(address: &AddressValue) -> (r: String)
    ensures
        r@ == "addresses/"@ + crate::account::hex_str_of(address@) + "/outputs"@,
{
    let mut topic = String::new();
    topic.append("addresses/");
    let encoded = crate::account::encode_hex(address.bytes.as_slice());
    topic.append(encoded.as_str());
    topic.append("/outputs");
    proof {
        assert(topic@ =~= "addresses/"@ + crate::account::hex_str_of(address@) + "/outputs"@);
    }
    topic
}

/// The topic delivering metadata notifications for a message: the message id
/// stands in it as lowercase hexadecimal digits.
pub fn message_topic(message_id: &[u8; 32]) -> (r: String)
    ensures
        r@ == "messages/"@ + crate::account::hex_str_of(message_id@) + "/metadata"@,
{
    let mut topic = String::new();
    topic.append("messages/");
    let encoded = crate::account::encode_hex(message_id.as_slice());
    topic.append(encoded.as_str());
    topic.append("/metadata");
    proof {
        assert(topic@ =~= "messages/"@ + crate::account::hex_str_of(message_id@) + "/metadata"@);
    }
    topic
}

/// An output notification as the remote topic delivers it, parsed from the
/// wire into plain values by the caller.
pub struct OutputPayload {
    /// The id of the message carrying the output, as 64 hexadecimal digits.
    pub message_id_hex: String,
    /// The id of the transaction, as 64 hexadecimal digits.
    pub transaction_id_hex: String,
    /// The position of the output in its transaction.
    pub output_index: u16,
    /// Whether the output was spent.
    pub is_spent: bool,
    /// The amount the output carries.
    pub amount: u64,
}

/// A normalized output record: the ids decoded to their 32 bytes.
#[derive(Debug)]
pub struct OutputRecord {
    /// The id of the message carrying the output.
    pub message_id: [u8; 32],
    /// The id of the transaction.
    pub transaction_id: [u8; 32],
    /// The position of the output in its transaction.
    pub output_index: u16,
    /// Whether the output was spent.
    pub is_spent: bool,
    /// The amount the output carries.
    pub amount: u64,
}

/// Normalizes an output notification: both ids must be 64 hexadecimal
/// digits; anything else is refused as invalid.
pub fn normalize_output(payload: &OutputPayload) -> (r: Result<OutputRecord, WalletError>)
    ensures
        match r {
            Ok(rec) => {
                &&& payload.message_id_hex@.len() == 64
                &&& forall|i: int|
                    0 <= i < payload.message_id_hex@.len() ==> is_hex_digit(
                        #[trigger] payload.message_id_hex@[i],
                    )
                &&& payload.transaction_id_hex@.len() == 64
                &&& forall|i: int|
                    0 <= i < payload.transaction_id_hex@.len() ==> is_hex_digit(
                        #[trigger] payload.transaction_id_hex@[i],
                    )
                &&& rec.message_id@ == hex_bytes_of(payload.message_id_hex@)
                &&& rec.transaction_id@ == hex_bytes_of(payload.transaction_id_hex@)
                &&& rec.output_index == payload.output_index
                &&& rec.is_spent == payload.is_spent
                &&& rec.amount == payload.amount
            },
            Err(e) => {
                &&& e == WalletError::InvalidIdentifier
                &&& !((payload.message_id_hex@.len() == 64 && forall|i: int|
                    0 <= i < payload.message_id_hex@.len() ==> is_hex_digit(
                        #[trigger] payload.message_id_hex@[i],
                    )) && (payload.transaction_id_hex@.len() == 64 && forall|i: int|
                    0 <= i < payload.transaction_id_hex@.len() ==> is_hex_digit(
                        #[trigger] payload.transaction_id_hex@[i],
                    )))
            },
        },
{
    let message_id = match decode_hex_record(&payload.message_id_hex) {
        Ok(m) => m,
        Err(e) => {
            return Err(e);
        },
    };
    let transaction_id = match decode_hex_record(&payload.transaction_id_hex) {
        Ok(t) => t,
        Err(e) => {
            return Err(e);
        },
    };
    Ok(
        OutputRecord {
            message_id,
            transaction_id,
            output_index: payload.output_index,
            is_spent: payload.is_spent,
            amount: payload.amount,
        },
    )
}

/// The balance of an address after one output is applied: a spent output
/// takes its amount out, an unspent one adds it, both clamped to the
/// representable range.
pub open spec fn apply_output_balance(balance: u64, is_spent: bool, amount: u64) -> u64 {
    if is_spent {
        if amount > balance {
            0u64
        } else {
            (balance - amount) as u64
        }
    } else {
        if amount > u64::MAX - balance {
            u64::MAX
        } else {
            (balance + amount) as u64
        }
    }
}

/// The first position of the address with the given value, or -1.
pub open spec fn find_address(s: Seq<AddressView>, address: Seq<u8>) -> int
    decreases s.len(),
{
    if s.len() == 0 {
        -1
    } else if s[0].address == address {
        0
    } else {
        let r = find_address(s.drop_first(), address);
        if r == -1 {
            -1
        } else {
            r + 1
        }
    }
}

/// `find_address` finds exactly the first position holding the value.
pub proof fn lemma_find_address(s: Seq<AddressView>, address: Seq<u8>)
    ensures
        find_address(s, address) == -1 ==> forall|i: int|
            0 <= i < s.len() ==> (#[trigger] s[i]).address != address,
        find_address(s, address) != -1 ==> {
            let r = find_address(s, address);
            &&& 0 <= r < s.len()
            &&& s[r].address == address
            &&& forall|i: int| 0 <= i < r ==> (#[trigger] s[i]).address != address
        },
    decreases s.len(),
{
    if s.len() > 0 && s[0].address != address {
        lemma_find_address(s.drop_first(), address);
        assert(forall|i: int| 1 <= i < s.len() ==> s.drop_first()[i - 1] == #[trigger] s[i]);
    }
}

/// Finds the first address of the set holding the given value, if any.
fn position_by_address(addresses: &Vec<crate::address::Address>, address: &AddressValue) -> (r:
    Option<usize>)
    ensures
        match r {
            Some(i) => 0 <= i < addresses.deep_view().len() && find_address(
                addresses.deep_view(),
                address@,
            ) == i as int,
            None => find_address(addresses.deep_view(), address@) == -1,
        },
{
    let ghost addrs = addresses.deep_view();
    let mut i: usize = 0;
    let n = addresses.len();
    while i < n
        invariant
            0 <= i <= n,
            n == addrs.len(),
            addrs == addresses.deep_view(),
            forall|j: int| 0 <= j < i ==> (#[trigger] addrs[j]).address != address@,
        decreases n - i,
    {
        if addresses[i].address == *address {
            proof {
                lemma_find_address(addrs, address@);
                let f = find_address(addrs, address@);
                assert(f != -1) by {
                    if f == -1 {
                        assert(addrs[i as int].address != address@);
                    }
                }
                assert(f == i as int) by {
                    if f < i as int {
                        assert(addrs[f].address != address@);
                    }
                    if f > i as int {
                        assert(addrs[i as int].address != address@);
                    }
                }
            }
            return Some(i);
        }
        i = i + 1;
    }
    proof {
        lemma_find_address(addrs, address@);
        let f = find_address(addrs, address@);
        if f != -1 {
            assert(addrs[f].address != address@);
        }
    }
    None
}

/// Applies one normalized output to the owning account: the address with the
/// notified value takes the output's effect on its balance, every balance
/// listener observes the change, and if the history already holds the
/// output's message it is marked confirmed. Returns whether the message was
/// known; on `Ok(false)` the caller must fetch the full message and record
/// it. Fails, mutating nothing, when the account identifier is not a
/// hex-decodable record id or the address is not part of the account.
pub fn apply_address_output(
    account: &mut Account,
    address: &AddressValue,
    output: &OutputRecord,
    bus: &mut EventBus,
) -> (r: Result<bool, WalletError>)
    requires
        old(account).wf(),
    ensures
        final(account).wf(),
        match r {
            Ok(known) => {
                let ai = find_address(old(account)@.addresses, address@);
                let mi = find_message(old(account)@.messages, output.message_id@);
                let new_balance = apply_output_balance(
                    old(account)@.addresses[ai].balance,
                    output.is_spent,
                    output.amount,
                );
                let new_address = AddressView {
                    balance: new_balance,
                    ..old(account)@.addresses[ai]
                };
                &&& record_id_decodes(old(account)@.id)
                &&& ai >= 0
                &&& known == (mi >= 0)
                &&& final(account)@ == (AccountView {
                    addresses: old(account)@.addresses.update(ai, new_address),
                    messages: if mi >= 0 {
                        old(account)@.messages.update(
                            mi,
                            MessageView { confirmed: Some(true), ..old(account)@.messages[mi] },
                        )
                    } else {
                        old(account)@.messages
                    },
                    ..old(account)@
                })
                &&& final(bus).balance_listeners.deep_view().len() == old(bus).balance_listeners.deep_view().len()
                &&& forall|i: int|
                    0 <= i < old(bus).balance_listeners.deep_view().len() ==> final(bus).balance_listeners.deep_view()[i] == old(bus).balance_listeners.deep_view()[
                        i
                    ].push(
                        BalanceEventView {
                            account_id: hex_bytes_of(old(account)@.id->Id_0),
                            address: new_address,
                            balance: new_balance,
                        },
                    )
                &&& final(bus).transaction_listeners == old(bus).transaction_listeners
                &&& final(bus).confirmation_listeners == old(bus).confirmation_listeners
                &&& final(bus).error_listeners == old(bus).error_listeners
            },
            Err(e) => {
                &&& final(account)@ == old(account)@
                &&& *final(bus) == *old(bus)
                &&& (e == WalletError::InvalidIdentifier || e == WalletError::NotFound)
                &&& (e == WalletError::InvalidIdentifier ==> !record_id_decodes(old(account)@.id))
                &&& (e == WalletError::NotFound ==> record_id_decodes(old(account)@.id)
                    && find_address(old(account)@.addresses, address@) == -1)
            },
        },
{
    let record_id = match account_id_to_stronghold_record_id(&account.id) {
        Ok(record) => record,
        Err(e) => {
            return Err(e);
        },
    };
    let ai = match position_by_address(&account.addresses, address) {
        Some(i) => i,
        None => {
            return Err(WalletError::NotFound);
        },
    };
    let ghost old_addrs = account.addresses.deep_view();
    let ghost old_msgs = account.messages.deep_view();
    let balance = account.addresses[ai].balance;
    let new_balance = if output.is_spent {
        if output.amount > balance {
            0
        } else {
            balance - output.amount
        }
    } else {
        if output.amount > u64::MAX - balance {
            u64::MAX
        } else {
            balance + output.amount
        }
    };
    let ghost prevseq = account.addresses@;
    let entry = &mut account.addresses[ai];
    entry.balance = new_balance;
    proof {
        assert(account.addresses@ == prevseq.update(ai as int, account.addresses@[ai as int]));
        assert(account.addresses.deep_view() =~= old_addrs.update(
            ai as int,
            AddressView { balance: new_balance, ..old_addrs[ai as int] },
        )) by {
            assert forall|j: int|
                0 <= j < old_addrs.len() implies account.addresses.deep_view()[j]
                == old_addrs.update(
                ai as int,
                AddressView { balance: new_balance, ..old_addrs[ai as int] },
            )[j] by {
                assert(account.addresses.deep_view()[j] == account.addresses@[j].deep_view());
                if j != ai as int {
                    assert(account.addresses@[j] == prevseq[j]);
                    assert(old_addrs[j] == prevseq[j].deep_view());
                } else {
                    assert(old_addrs[j] == prevseq[j].deep_view());
                }
            }
        }
        assert(account.wf()) by {
            let updated = account.addresses.deep_view();
            assert forall|p: int, q: int|
                0 <= p < q < updated.len() implies (#[trigger] updated[p]).key_index
                != (#[trigger] updated[q]).key_index by {
                assert(old_addrs[p].key_index != old_addrs[q].key_index);
                assert(updated[p].key_index == old_addrs[p].key_index);
                assert(updated[q].key_index == old_addrs[q].key_index);
            }
        }
    }
    let updated_address = account.addresses[ai].clone();
    bus.emit_balance_change(record_id, updated_address, new_balance);
    let known = match position_by_message_id(&account.messages, &output.message_id) {
        Some(mi) => {
            let ghost prevmsgs = account.messages@;
            let mentry = &mut account.messages[mi];
            mentry.set_confirmed(Some(true));
            proof {
                assert(account.messages@ == prevmsgs.update(
                    mi as int,
                    account.messages@[mi as int],
                ));
                assert(account.messages.deep_view() =~= old_msgs.update(
                    mi as int,
                    MessageView { confirmed: Some(true), ..old_msgs[mi as int] },
                )) by {
                    assert forall|j: int|
                        0 <= j < old_msgs.len() implies account.messages.deep_view()[j]
                        == old_msgs.update(
                        mi as int,
                        MessageView { confirmed: Some(true), ..old_msgs[mi as int] },
                    )[j] by {
                        assert(account.messages.deep_view()[j] == account.messages@[
                            j
                        ].deep_view());
                        if j != mi as int {
                            assert(account.messages@[j] == prevmsgs[j]);
                            assert(old_msgs[j] == prevmsgs[j].deep_view());
                        } else {
                            assert(old_msgs[j] == prevmsgs[j].deep_view());
                        }
                    }
                }
            }
            true
        },
        None => false,
    };
    proof {
        assert(account@ =~= AccountView {
            addresses: account@.addresses,
            messages: account@.messages,
            ..old(account)@
        });
    }
    Ok(known)
}

/// Records a message fetched from the remote ledger after an output
/// notification referenced it: every new-transaction listener observes it,
/// and it enters the history marked confirmed — the referencing output
/// proves its inclusion, whatever flag the fetch carried. Fails, mutating
/// nothing, exactly when the account identifier is not a hex-decodable
/// record id.
pub fn record_fetched_message(account: &mut Account, message: Message, bus: &mut EventBus) -> (r:
    Result<(), WalletError>)
    requires
        old(account).wf(),
    ensures
        final(account).wf(),
        match r {
            Ok(_) => {
                &&& record_id_decodes(old(account)@.id)
                &&& final(account)@ == (AccountView {
                    messages: old(account)@.messages.push(
                        MessageView { confirmed: Some(true), ..message@ },
                    ),
                    ..old(account)@
                })
                &&& final(bus).transaction_listeners.deep_view().len() == old(bus).transaction_listeners.deep_view().len()
                &&& forall|i: int|
                    0 <= i < old(bus).transaction_listeners.deep_view().len() ==> final(bus).transaction_listeners.deep_view()[i] == (if old(bus).transaction_listeners.deep_view()[i].event_type
                        == TransactionEventType::NewTransaction {
                        TransactionListenerView {
                            event_type: TransactionEventType::NewTransaction,
                            events: old(bus).transaction_listeners.deep_view()[i].events.push(
                                TransactionEventView {
                                    account_id: hex_bytes_of(old(account)@.id->Id_0),
                                    message_id: message@.id,
                                },
                            ),
                        }
                    } else {
                        old(bus).transaction_listeners.deep_view()[i]
                    })
                &&& final(bus).balance_listeners == old(bus).balance_listeners
                &&& final(bus).confirmation_listeners == old(bus).confirmation_listeners
                &&& final(bus).error_listeners == old(bus).error_listeners
            },
            Err(e) => {
                &&& e == WalletError::InvalidIdentifier
                &&& !record_id_decodes(old(account)@.id)
                &&& final(account)@ == old(account)@
                &&& *final(bus) == *old(bus)
            },
        },
{
    let record_id = match account_id_to_stronghold_record_id(&account.id) {
        Ok(record) => record,
        Err(e) => {
            return Err(e);
        },
    };
    let mut message = message;
    // a message learned from an output notification is confirmed by that fact
    message.set_confirmed(Some(true));
    let message_id = crate::event::clone_record_id(&message.id);
    bus.emit_transaction_event(TransactionEventType::NewTransaction, record_id, message_id);
    let ghost old_msgs = account.messages.deep_view();
    let ghost prevmsgs = account.messages@;
    let ghost mv = message@;
    account.messages.push(message);
    proof {
        assert(account.messages.deep_view() =~= old_msgs.push(mv)) by {
            assert forall|j: int| 0 <= j < old_msgs.len() implies account.messages.deep_view()[j]
                == old_msgs[j] by {
                assert(account.messages@[j] == prevmsgs[j]);
                assert(account.messages.deep_view()[j] == account.messages@[j].deep_view());
            }
            assert(account.messages.deep_view()[old_msgs.len() as int] == account.messages@[
                old_msgs.len() as int
            ].deep_view());
        }
        assert(account@ =~= AccountView { messages: old_msgs.push(mv), ..old(account)@ });
    }
    Ok(())
}

/// A ledger inclusion state reported in a metadata notification.
#[derive(Debug, Clone, Copy, PartialEq, Eq, Structural)]
pub enum InclusionState {
    /// The message was included in the ledger.
    Included,
    /// The message is not part of the ledger.
    NoTransaction,
    /// The message conflicts with the ledger.
    Conflicting,
}

/// Decides what a metadata notification does to a message's confirmation
/// flag: a reported inclusion state makes the message confirmed exactly when
/// it says included, and the flag is updated only when it was unknown or
/// actually flips. Returns the new flag, or `None` when nothing changes.
pub fn confirmation_update(known: Option<bool>, inclusion_state: Option<InclusionState>) -> (r:
    Option<bool>)
    ensures
        r == (match inclusion_state {
            Some(state) => {
                let confirmed = state == InclusionState::Included;
                if known != Some(confirmed) {
                    Some(confirmed)
                } else {
                    None::<bool>
                }
            },
            None => None::<bool>,
        }),
{
    match inclusion_state {
        Some(state) => {
            let confirmed = matches!(state, InclusionState::Included);
            let unchanged = match known {
                Some(k) => k == confirmed,
                None => false,
            };
            if unchanged {
                None
            } else {
                Some(confirmed)
            }
        },
        None => None,
    }
}

/// Applies a decided confirmation change to the account: the message with
/// the given id takes the new flag and every confirmation listener observes
/// the change. Fails, mutating nothing, when the account identifier is not a
/// hex-decodable record id or the history holds no such message.
pub fn apply_confirmation_change(
    account: &mut Account,
    message_id: &[u8; 32],
    confirmed: bool,
    bus: &mut EventBus,
) -> (r: Result<(), WalletError>)
    requires
        old(account).wf(),
    ensures
        final(account).wf(),
        match r {
            Ok(_) => {
                let mi = find_message(old(account)@.messages, message_id@);
                &&& record_id_decodes(old(account)@.id)
                &&& mi >= 0
                &&& final(account)@ == (AccountView {
                    messages: old(account)@.messages.update(
                        mi,
                        MessageView { confirmed: Some(confirmed), ..old(account)@.messages[mi] },
                    ),
                    ..old(account)@
                })
                &&& final(bus).confirmation_listeners.deep_view().len() == old(bus).confirmation_listeners.deep_view().len()
                &&& forall|i: int|
                    0 <= i < old(bus).confirmation_listeners.deep_view().len() ==> final(bus).confirmation_listeners.deep_view()[i] == old(bus).confirmation_listeners.deep_view()[i].push(
                        ConfirmationChangeEventView {
                            account_id: hex_bytes_of(old(account)@.id->Id_0),
                            message_id: message_id@,
                            confirmed,
                        },
                    )
                &&& final(bus).balance_listeners == old(bus).balance_listeners
                &&& final(bus).transaction_listeners == old(bus).transaction_listeners
                &&& final(bus).error_listeners == old(bus).error_listeners
            },
            Err(e) => {
                &&& final(account)@ == old(account)@
                &&& *final(bus) == *old(bus)
                &&& (e == WalletError::InvalidIdentifier || e == WalletError::NotFound)
                &&& (e == WalletError::InvalidIdentifier ==> !record_id_decodes(old(account)@.id))
                &&& (e == WalletError::NotFound ==> record_id_decodes(old(account)@.id)
                    && find_message(old(account)@.messages, message_id@) == -1)
            },
        },
{
    let record_id = match account_id_to_stronghold_record_id(&account.id) {
        Ok(record) => record,
        Err(e) => {
            return Err(e);
        },
    };
    let mi = match position_by_message_id(&account.messages, message_id) {
        Some(i) => i,
        None => {
            return Err(WalletError::NotFound);
        },
    };
    let ghost old_msgs = account.messages.deep_view();
    let ghost prevmsgs = account.messages@;
    let mentry = &mut account.messages[mi];
    mentry.set_confirmed(Some(confirmed));
    proof {
        assert(account.messages@ == prevmsgs.update(mi as int, account.messages@[mi as int]));
        assert(account.messages.deep_view() =~= old_msgs.update(
            mi as int,
            MessageView { confirmed: Some(confirmed), ..old_msgs[mi as int] },
        )) by {
            assert forall|j: int|
                0 <= j < old_msgs.len() implies account.messages.deep_view()[j] == old_msgs.update(
                mi as int,
                MessageView { confirmed: Some(confirmed), ..old_msgs[mi as int] },
            )[j] by {
                assert(account.messages.deep_view()[j] == account.messages@[j].deep_view());
                if j != mi as int {
                    assert(account.messages@[j] == prevmsgs[j]);
                    assert(old_msgs[j] == prevmsgs[j].deep_view());
                } else {
                    assert(old_msgs[j] == prevmsgs[j].deep_view());
                }
            }
        }
    }
    bus.emit_confirmation_state_change(&record_id, crate::event::clone_record_id(message_id), confirmed);
    proof {
        assert(account@ =~= AccountView { messages: account@.messages, ..old(account)@ });
    }
    Ok(())
}

} // verus!
