//! The transaction record consumed and mutated by this core: reattachments
//! share a payload, confirmation arrives later from the remote ledger.

use vstd::prelude::*;

use crate::address::AddressValue;

verus! {

/// A message type filter for listing the transaction history.
#[derive(Debug, Clone, Copy, PartialEq, Eq, Structural)]
pub enum MessageType {
    /// Messages that transfer value into the account.
    Received,
    /// Messages that transfer value out of the account.
    Sent,
    /// Messages that were never broadcast to the remote ledger.
    Failed,
    /// Messages not yet known to be confirmed.
    Unconfirmed,
    /// Messages carrying a positive value.
    Value,
}

/// The mathematical value of a transaction record.
#[verifier::ext_equal]
pub ghost struct MessageView {
    /// The record id bytes.
    pub id: Seq<u8>,
    /// The payload bytes.
    pub payload: Seq<u8>,
    /// The transferred value.
    pub value: i64,
    /// Whether the value flows into the account.
    pub incoming: bool,
    /// Whether the message was broadcast.
    pub broadcasted: bool,
    /// The confirmation state.
    pub confirmed: Option<bool>,
    /// The referenced address bytes.
    pub address: Seq<u8>,
}

/// One transaction record of an account's history.
#[derive(Debug)]
pub struct Message {
    /// The record id assigned by the remote ledger.
    pub id: [u8; 32],
    /// The transaction payload; reattachments of one transfer share it.
    pub payload: Vec<u8>,
    /// The transferred value; negative when the account spends.
    pub value: i64,
    /// Whether the value flows into the account.
    pub incoming: bool,
    /// Whether the message was broadcast to the remote ledger.
    pub broadcasted: bool,
    /// Confirmation state; `None` while it is still unknown.
    pub confirmed: Option<bool>,
    /// The address the transfer references.
    pub address: AddressValue,
}

impl View for Message {
    type V = MessageView;

    open spec fn view(&self) -> MessageView {
        MessageView {
            id: self.id@,
            payload: self.payload@,
            value: self.value,
            incoming: self.incoming,
            broadcasted: self.broadcasted,
            confirmed: self.confirmed,
            address: self.address@,
        }
    }
}

impl DeepView for Message {
    type V = MessageView;

    open spec fn deep_view(&self) -> MessageView {
        self.view()
    }
}

impl Clone for Message {
    fn clone(&self) -> (res: Self)
        ensures
            res@ == self@,
    {
        let payload = self.payload.clone();
        proof {
            assert(payload@ =~= self.payload@);
        }
        Message {
            id: self.id,
            payload,
            value: self.value,
            incoming: self.incoming,
            broadcasted: self.broadcasted,
            confirmed: self.confirmed,
            address: self.address.clone(),
        }
    }
}

impl Message {
    /// Replaces the confirmation state of the record.
    pub fn set_confirmed(&mut self, confirmed: Option<bool>)
        ensures
            final(self)@ == (MessageView { confirmed, ..old(self)@ }),
    {
        self.confirmed = confirmed;
    }
}

/// Compares two 32-byte record ids.
pub fn record_id_eq(a: &[u8; 32], b: &[u8; 32]) -> (r: bool)
    ensures
        r == (a@ == b@),
{
    let mut i: usize = 0;
    while i < 32
        invariant
            0 <= i <= 32,
            forall|j: int| 0 <= j < i ==> a@[j] == b@[j],
        decreases 32 - i,
    {
        if a[i] != b[i] {
            return false;
        }
        i = i + 1;
    }
    proof {
        assert(a@ =~= b@);
    }
    true
}


/// The first position of the message with the given id, or -1.
pub open spec fn find_message(s: Seq<MessageView>, id: Seq<u8>) -> int
    decreases s.len(),
{
    if s.len() == 0 {
        -1
    } else if s[0].id == id {
        0
    } else {
        let r = find_message(s.drop_first(), id);
        if r == -1 {
            -1
        } else {
            r + 1
        }
    }
}

/// `find_message` finds exactly the first position holding the id.
pub proof fn lemma_find_message(s: Seq<MessageView>, id: Seq<u8>)
    ensures
        find_message(s, id) == -1 ==> forall|i: int|
            0 <= i < s.len() ==> (#[trigger] s[i]).id != id,
        find_message(s, id) != -1 ==> {
            let r = find_message(s, id);
            &&& 0 <= r < s.len()
            &&& s[r].id == id
            &&& forall|i: int| 0 <= i < r ==> (#[trigger] s[i]).id != id
        },
    decreases s.len(),
{
    if s.len() > 0 && s[0].id != id {
        lemma_find_message(s.drop_first(), id);
        assert(forall|i: int| 1 <= i < s.len() ==> s.drop_first()[i - 1] == #[trigger] s[i]);
    }
}

/// Finds the first message of the history with the given id, if any.
pub fn position_by_message_id(messages: &Vec<Message>, id: &[u8; 32]) -> (r: Option<usize>)
    ensures
        match r {
            Some(i) => 0 <= i < messages.deep_view().len() && find_message(
                messages.deep_view(),
                id@,
            ) == i as int,
            None => find_message(messages.deep_view(), id@) == -1,
        },
{
    let ghost msgs = messages.deep_view();
    let mut i: usize = 0;
    let n = messages.len();
    while i < n
        invariant
            0 <= i <= n,
            n == msgs.len(),
            msgs == messages.deep_view(),
            forall|j: int| 0 <= j < i ==> (#[trigger] msgs[j]).id != id@,
        decreases n - i,
    {
        if record_id_eq(&messages[i].id, id) {
            proof {
                lemma_find_message(msgs, id@);
                let f = find_message(msgs, id@);
                assert(f != -1) by {
                    if f == -1 {
                        assert(msgs[i as int].id != id@);
                    }
                }
                assert(f == i as int) by {
                    if f < i as int {
                        assert(msgs[f].id != id@);
                    }
                    if f > i as int {
                        assert(msgs[i as int].id != id@);
                    }
                }
            }
            return Some(i);
        }
        i = i + 1;
    }
    proof {
        lemma_find_message(msgs, id@);
        let f = find_message(msgs, id@);
        if f != -1 {
            assert(msgs[f].id != id@);
        }
    }
    None
}

} // verus!
