//! One wallet account: identity, address set and transaction history, with
//! the invariant that the address set holds at most one entry per derivation
//! index.

use vstd::prelude::*;

use crate::WalletError;
use crate::address::{Address, AddressValue, AddressView, generate_checksum, is_unspent};
use crate::message::{
    Message, MessageType, MessageView, find_message, lemma_find_message, position_by_message_id,
};

verus! {

/// The mathematical value of an account identifier.
#[verifier::ext_equal]
pub ghost enum AccountIdView {
    /// A string identifier.
    Id(Seq<char>),
    /// An index identifier.
    Index(usize),
}

/// The account identifier: either a hex-encoded 32-byte record id or the
/// position of the account in the account list.
#[derive(Debug)]
pub enum AccountIdentifier {
    /// A string identifier.
    Id(String),
    /// An index identifier.
    Index(usize),
}

impl View for AccountIdentifier {
    type V = AccountIdView;

    open spec fn view(&self) -> AccountIdView {
        match self {
            AccountIdentifier::Id(s) => AccountIdView::Id(s@),
            AccountIdentifier::Index(i) => AccountIdView::Index(*i),
        }
    }
}

impl Clone for AccountIdentifier {
    fn clone(&self) -> (res: Self)
        ensures
            res@ == self@,
    {
        match self {
            AccountIdentifier::Id(s) => AccountIdentifier::Id(s.clone()),
            AccountIdentifier::Index(i) => AccountIdentifier::Index(*i),
        }
    }
}

impl PartialEq for AccountIdentifier {
    fn eq(&self, other: &Self) -> (r: bool) {
        match (self, other) {
            (AccountIdentifier::Id(a), AccountIdentifier::Id(b)) => *a == *b,
            (AccountIdentifier::Index(a), AccountIdentifier::Index(b)) => *a == *b,
            _ => false,
        }
    }
}

impl vstd::std_specs::cmp::PartialEqSpecImpl for AccountIdentifier {
    open spec fn obeys_eq_spec() -> bool {
        true
    }

    open spec fn eq_spec(&self, other: &Self) -> bool {
        self@ == other@
    }
}

impl From<String> for AccountIdentifier {
    /// A string value names an account by its record id.
    fn from(value: String) -> (r: Self) {
        AccountIdentifier::Id(value)
    }
}

impl vstd::std_specs::convert::FromSpecImpl<String> for AccountIdentifier {
    open spec fn obeys_from_spec() -> bool {
        true
    }

    open spec fn from_spec(value: String) -> Self {
        AccountIdentifier::Id(value)
    }
}

impl From<usize> for AccountIdentifier {
    /// A numeric value names an account by its position in the account list.
    fn from(value: usize) -> (r: Self) {
        AccountIdentifier::Index(value)
    }
}

impl vstd::std_specs::convert::FromSpecImpl<usize> for AccountIdentifier {
    open spec fn obeys_from_spec() -> bool {
        true
    }

    open spec fn from_spec(value: usize) -> Self {
        AccountIdentifier::Index(value)
    }
}

/// The signing backend that owns an account's keys.
#[derive(Debug, Clone, Copy, PartialEq, Eq, Structural)]
pub enum SignerType {
    /// Keys live in the stronghold vault.
    Stronghold,
    /// Keys are derived from a mnemonic taken from the environment.
    EnvMnemonic,
}

/// Connection parameters of the remote ledger service. This core only ever
/// compares them for equality when tracking unsaved changes.
#[derive(Debug)]
pub struct ClientOptions {
    /// The node the account talks to.
    pub node: String,
}

impl View for ClientOptions {
    type V = Seq<char>;

    open spec fn view(&self) -> Seq<char> {
        self.node@
    }
}

impl Clone for ClientOptions {
    fn clone(&self) -> (res: Self)
        ensures
            res@ == self@,
    {
        ClientOptions { node: self.node.clone() }
    }
}

impl PartialEq for ClientOptions {
    fn eq(&self, other: &Self) -> (r: bool) {
        self.node == other.node
    }
}

impl vstd::std_specs::cmp::PartialEqSpecImpl for ClientOptions {
    open spec fn obeys_eq_spec() -> bool {
        true
    }

    open spec fn eq_spec(&self, other: &Self) -> bool {
        self@ == other@
    }
}

/// The sum of the balances of a sequence of addresses.
pub open spec fn spec_total_balance(s: Seq<AddressView>) -> int
    decreases s.len(),
{
    if s.len() == 0 {
        0
    } else {
        spec_total_balance(s.drop_last()) + s.last().balance
    }
}

/// A sequence of addresses is well formed when no two entries share a
/// derivation index.
pub open spec fn addresses_wf(s: Seq<AddressView>) -> bool {
    forall|i: int, j: int|
        0 <= i < j < s.len() ==> #[trigger] s[i].key_index != #[trigger] s[j].key_index
}

/// The first position holding the given derivation index, or -1.
pub open spec fn find_key_index(s: Seq<AddressView>, key_index: usize) -> int
    decreases s.len(),
{
    if s.len() == 0 {
        -1
    } else if s[0].key_index == key_index {
        0
    } else {
        let r = find_key_index(s.drop_first(), key_index);
        if r == -1 {
            -1
        } else {
            r + 1
        }
    }
}

/// Upserting one address: the entry with the same derivation index is
/// replaced in place; a novel index is appended.
pub open spec fn spec_upsert_address(s: Seq<AddressView>, a: AddressView) -> Seq<AddressView> {
    let i = find_key_index(s, a.key_index);
    if i == -1 {
        s.push(a)
    } else {
        s.update(i, a)
    }
}

/// Upserting a batch, first element first.
pub open spec fn spec_upsert_addresses(
    s: Seq<AddressView>,
    items: Seq<AddressView>,
) -> Seq<AddressView>
    decreases items.len(),
{
    if items.len() == 0 {
        s
    } else {
        spec_upsert_address(spec_upsert_addresses(s, items.drop_last()), items.last())
    }
}

/// `find_key_index` finds exactly the first position that holds the index.
pub proof fn lemma_find_key_index(s: Seq<AddressView>, key_index: usize)
    ensures
        find_key_index(s, key_index) == -1 ==> forall|i: int|
            0 <= i < s.len() ==> #[trigger] s[i].key_index != key_index,
        find_key_index(s, key_index) != -1 ==> {
            let r = find_key_index(s, key_index);
            &&& 0 <= r < s.len()
            &&& s[r].key_index == key_index
            &&& forall|i: int| 0 <= i < r ==> #[trigger] s[i].key_index != key_index
        },
    decreases s.len(),
{
    if s.len() > 0 && s[0].key_index != key_index {
        lemma_find_key_index(s.drop_first(), key_index);
        let rr = find_key_index(s.drop_first(), key_index);
        assert(forall|i: int| 1 <= i < s.len() ==> s.drop_first()[i - 1] == #[trigger] s[i]);
        if rr == -1 {
            assert(forall|i: int|
                0 <= i < s.len() ==> #[trigger] s[i].key_index != key_index) by {
                assert(forall|i: int|
                    1 <= i < s.len() ==> #[trigger] s[i].key_index == s.drop_first()[i
                        - 1].key_index);
            }
        }
    }
}

/// Upserting an address whose derivation index is already present replaces
/// that entry in place without changing the collection's length, and leaves
/// every other entry where it was; upserting a novel index appends the
/// address, growing the collection by exactly one.
pub proof fn lemma_upsert_address_length(s: Seq<AddressView>, a: AddressView)
    ensures
        find_key_index(s, a.key_index) == -1 ==> spec_upsert_address(s, a) == s.push(a)
            && spec_upsert_address(s, a).len() == s.len() + 1,
        find_key_index(s, a.key_index) != -1 ==> {
            let r = find_key_index(s, a.key_index);
            &&& spec_upsert_address(s, a).len() == s.len()
            &&& spec_upsert_address(s, a)[r] == a
            &&& forall|j: int|
                0 <= j < s.len() && j != r ==> spec_upsert_address(s, a)[j] == #[trigger] s[j]
        },
{
    lemma_find_key_index(s, a.key_index);
}

/// Sums of addresses are never negative.
pub proof fn lemma_total_balance_nonneg(s: Seq<AddressView>)
    ensures
        spec_total_balance(s) >= 0,
    decreases s.len(),
{
    if s.len() > 0 {
        lemma_total_balance_nonneg(s.drop_last());
    }
}

/// The sum of a prefix never exceeds the sum of the whole sequence.
pub proof fn lemma_total_balance_prefix(s: Seq<AddressView>, i: int)
    requires
        0 <= i <= s.len(),
    ensures
        spec_total_balance(s.take(i)) <= spec_total_balance(s),
    decreases s.len() - i,
{
    if i == s.len() {
        assert(s.take(i) =~= s);
    } else {
        assert(s.take(i + 1).drop_last() =~= s.take(i));
        lemma_total_balance_prefix(s, i + 1);
    }
}

/// Whether a character is a hexadecimal digit as the decoder accepts them.
pub open spec fn is_hex_digit(c: char) -> bool {
    let n = c as int;
    (48 <= n <= 57) || (97 <= n <= 102) || (65 <= n <= 70)
}

/// The value of one hexadecimal digit.
pub open spec fn hex_digit_value(c: char) -> int {
    let n = c as int;
    if 48 <= n <= 57 {
        n - 48
    } else if 97 <= n <= 102 {
        n - 87
    } else {
        n - 55
    }
}

/// The bytes an even-length string of hexadecimal digits decodes to.
pub open spec fn hex_bytes_of(s: Seq<char>) -> Seq<u8> {
    Seq::new(
        (s.len() / 2) as nat,
        |i: int| (hex_digit_value(s[2 * i]) * 16 + hex_digit_value(s[2 * i + 1])) as u8,
    )
}

/// The lowercase hexadecimal digit of a value below sixteen.
pub open spec fn hex_char_of(n: u8) -> char {
    if n < 10 {
        ((48 + n) as u8) as char
    } else {
        ((87 + n) as u8) as char
    }
}

/// The lowercase hexadecimal rendering of bytes, two digits a byte.
pub open spec fn hex_str_of(b: Seq<u8>) -> Seq<char> {
    Seq::new(
        b.len() * 2,
        |i: int|
            if i % 2 == 0 {
                hex_char_of(b[i / 2] / 16)
            } else {
                hex_char_of(b[i / 2] % 16)
            },
    )
}

/// Relies on hex's FromHexError as the decoder's refusal value.
#[verifier::external_type_specification]
#[verifier::external_body]
pub struct ExFromHexError(hex::FromHexError);

/// Relies on hex::decode: an even-length string of hexadecimal digits (upper
/// or lower case) decodes to its bytes, two digits a byte, and any other
/// string is refused.
#[verifier::external_body]
fn decode_hex(s: &String) -> (r: Result<Vec<u8>, hex::FromHexError>)
    ensures
        match r {
            Ok(b) => {
                &&& s@.len() % 2 == 0
                &&& forall|i: int| 0 <= i < s@.len() ==> is_hex_digit(#[trigger] s@[i])
                &&& b@ == hex_bytes_of(s@)
            },
            Err(_) => !(s@.len() % 2 == 0 && forall|i: int|
                0 <= i < s@.len() ==> is_hex_digit(#[trigger] s@[i])),
        },
{
    hex::decode(s.as_str())
}

/// Relies on hex::encode: the lowercase rendering of the bytes, two digits a
/// byte.
#[verifier::external_body]
pub(crate) fn encode_hex(bytes: &[u8]) -> (r: String)
    ensures
        r@ == hex_str_of(bytes@),
{
    hex::encode(bytes)
}

/// Rendering bytes as hexadecimal digits and decoding them again gives the
/// bytes back.
pub proof fn lemma_hex_round_trip(b: Seq<u8>)
    ensures
        hex_str_of(b).len() == 2 * b.len(),
        hex_str_of(b).len() % 2 == 0,
        forall|i: int| 0 <= i < hex_str_of(b).len() ==> is_hex_digit(#[trigger] hex_str_of(b)[i]),
        hex_bytes_of(hex_str_of(b)) == b,
{
    let s = hex_str_of(b);
    assert forall|i: int| 0 <= i < s.len() implies is_hex_digit(#[trigger] s[i]) by {
        let v = if i % 2 == 0 {
            b[i / 2] / 16
        } else {
            b[i / 2] % 16
        };
        assert(0 <= v < 16);
        assert(s[i] == hex_char_of(v));
    }
    assert forall|i: int| 0 <= i < b.len() implies hex_bytes_of(s)[i] == b[i] by {
        let hi = b[i] / 16;
        let lo = b[i] % 16;
        assert(s[2 * i] == hex_char_of(hi));
        assert(s[2 * i + 1] == hex_char_of(lo));
        assert(hex_digit_value(hex_char_of(hi)) == hi);
        assert(hex_digit_value(hex_char_of(lo)) == lo);
        assert(hi * 16 + lo == b[i]) by (nonlinear_arith)
            requires
                hi == b[i] / 16,
                lo == b[i] % 16,
        ;
    }
    assert(hex_bytes_of(s) =~= b);
}

/// Decodes a string of 64 hexadecimal digits into the 32-byte record id it
/// encodes; any other string is refused as invalid.
pub fn decode_hex_record(s: &String) -> (r: Result<[u8; 32], WalletError>)
    ensures
        match r {
            Ok(record) => {
                &&& s@.len() == 64
                &&& forall|i: int| 0 <= i < s@.len() ==> is_hex_digit(#[trigger] s@[i])
                &&& record@ == hex_bytes_of(s@)
            },
            Err(e) => {
                &&& e == WalletError::InvalidIdentifier
                &&& !(s@.len() == 64 && forall|i: int|
                    0 <= i < s@.len() ==> is_hex_digit(#[trigger] s@[i]))
            },
        },
{
    broadcast use vstd::array::group_array_axioms;

    match decode_hex(s) {
        Ok(decoded) => {
            if decoded.len() == 32 {
                let mut record: [u8; 32] = [0; 32];
                let mut i: usize = 0;
                while i < 32
                    invariant
                        0 <= i <= 32,
                        decoded@.len() == 32,
                        forall|j: int| 0 <= j < i ==> record@[j] == decoded@[j],
                    decreases 32 - i,
                {
                    record[i] = decoded[i];
                    i = i + 1;
                }
                proof {
                    assert(record@ =~= decoded@);
                }
                Ok(record)
            } else {
                Err(WalletError::InvalidIdentifier)
            }
        },
        Err(_) => Err(WalletError::InvalidIdentifier),
    }
}

/// Whether an account identifier encodes a 32-byte record id: a string
/// identifier of exactly 64 hexadecimal digits. An index identifier encodes
/// none.
pub open spec fn record_id_decodes(id: AccountIdView) -> bool {
    match id {
        AccountIdView::Id(s) => s.len() == 64 && forall|i: int|
            0 <= i < s.len() ==> is_hex_digit(#[trigger] s[i]),
        AccountIdView::Index(_) => false,
    }
}

/// Turns a string account identifier into the 32-byte record id it encodes;
/// an index identifier, or a string that is not 64 hexadecimal digits, is
/// refused as invalid.
pub fn account_id_to_stronghold_record_id(account_id: &AccountIdentifier) -> (r: Result<
    [u8; 32],
    WalletError,
>)
    ensures
        match r {
            Ok(record) => match account_id@ {
                AccountIdView::Id(s) => {
                    &&& s.len() == 64
                    &&& forall|i: int| 0 <= i < s.len() ==> is_hex_digit(#[trigger] s[i])
                    &&& record@ == hex_bytes_of(s)
                },
                AccountIdView::Index(_) => false,
            },
            Err(e) => {
                &&& e == WalletError::InvalidIdentifier
                &&& match account_id@ {
                    AccountIdView::Id(s) => !(s.len() == 64 && forall|i: int|
                        0 <= i < s.len() ==> is_hex_digit(#[trigger] s[i])),
                    AccountIdView::Index(_) => true,
                }
            },
        },
{
    match account_id {
        AccountIdentifier::Id(id) => decode_hex_record(id),
        AccountIdentifier::Index(_) => Err(WalletError::InvalidIdentifier),
    }
}

/// Whether a message commits value of the given address to an unconfirmed
/// outgoing transfer.
pub open spec fn encumbers(m: MessageView, address: Seq<u8>) -> bool {
    m.address == address && m.value < 0 && m.confirmed != Some(true)
}

/// The value of an address already committed to unconfirmed outgoing
/// transfers.
pub open spec fn spec_encumbrance(msgs: Seq<MessageView>, address: Seq<u8>) -> int
    decreases msgs.len(),
{
    if msgs.len() == 0 {
        0
    } else {
        spec_encumbrance(msgs.drop_last(), address) + if encumbers(msgs.last(), address) {
            -(msgs.last().value as int)
        } else {
            0
        }
    }
}

/// What one address may still spend: its balance less its encumbrance, never
/// below zero.
pub open spec fn spec_available(a: AddressView, msgs: Seq<MessageView>) -> int {
    let enc = spec_encumbrance(msgs, a.address);
    if enc >= a.balance {
        0
    } else {
        a.balance - enc
    }
}

/// The sum of what every address may still spend.
pub open spec fn spec_available_balance(s: Seq<AddressView>, msgs: Seq<MessageView>) -> int
    decreases s.len(),
{
    if s.len() == 0 {
        0
    } else {
        spec_available_balance(s.drop_last(), msgs) + spec_available(s.last(), msgs)
    }
}

/// Encumbrances are never negative.
pub proof fn lemma_encumbrance_nonneg(msgs: Seq<MessageView>, address: Seq<u8>)
    ensures
        spec_encumbrance(msgs, address) >= 0,
    decreases msgs.len(),
{
    if msgs.len() > 0 {
        lemma_encumbrance_nonneg(msgs.drop_last(), address);
    }
}

/// The available balance never exceeds the total balance.
pub proof fn lemma_available_le_total(s: Seq<AddressView>, msgs: Seq<MessageView>)
    ensures
        0 <= spec_available_balance(s, msgs) <= spec_total_balance(s),
    decreases s.len(),
{
    if s.len() > 0 {
        lemma_available_le_total(s.drop_last(), msgs);
        lemma_encumbrance_nonneg(msgs, s.last().address);
    }
}

/// Whether a message passes the optional type filter.
pub open spec fn matches_filter(m: MessageView, message_type: Option<MessageType>) -> bool {
    match message_type {
        Option::None => true,
        Option::Some(MessageType::Received) => m.incoming,
        Option::Some(MessageType::Sent) => !m.incoming,
        Option::Some(MessageType::Failed) => !m.broadcasted,
        Option::Some(MessageType::Unconfirmed) => m.confirmed != Some(true),
        Option::Some(MessageType::Value) => m.value > 0,
    }
}

/// The first position in the accumulator holding the payload, or -1.
pub open spec fn find_payload(acc: Seq<MessageView>, payload: Seq<u8>) -> int
    decreases acc.len(),
{
    if acc.len() == 0 {
        -1
    } else if acc[0].payload == payload {
        0
    } else {
        let r = find_payload(acc.drop_first(), payload);
        if r == -1 {
            -1
        } else {
            r + 1
        }
    }
}

/// `find_payload` finds exactly the first position that holds the payload.
pub proof fn lemma_find_payload(acc: Seq<MessageView>, payload: Seq<u8>)
    ensures
        find_payload(acc, payload) == -1 ==> forall|i: int|
            0 <= i < acc.len() ==> #[trigger] acc[i].payload != payload,
        find_payload(acc, payload) != -1 ==> {
            let r = find_payload(acc, payload);
            &&& 0 <= r < acc.len()
            &&& acc[r].payload == payload
            &&& forall|i: int| 0 <= i < r ==> #[trigger] acc[i].payload != payload
        },
    decreases acc.len(),
{
    if acc.len() > 0 && acc[0].payload != payload {
        lemma_find_payload(acc.drop_first(), payload);
        let rr = find_payload(acc.drop_first(), payload);
        assert(forall|i: int| 1 <= i < acc.len() ==> acc.drop_first()[i - 1] == #[trigger] acc[i]);
        if rr == -1 {
            assert(forall|i: int| 0 <= i < acc.len() ==> #[trigger] acc[i].payload != payload) by {
                assert(forall|i: int|
                    1 <= i < acc.len() ==> #[trigger] acc[i].payload == acc.drop_first()[i
                        - 1].payload);
            }
        }
    }
}

/// One step of reattachment collapsing: a message whose payload is already
/// selected either vanishes (the earlier occurrence is confirmed) or evicts
/// the earlier occurrence; the message is then appended when it passes the
/// filter.
pub open spec fn collapse_step(
    acc: Seq<MessageView>,
    m: MessageView,
    message_type: Option<MessageType>,
) -> Seq<MessageView> {
    let i = find_payload(acc, m.payload);
    if i >= 0 {
        if acc[i].confirmed == Some(true) {
            acc
        } else {
            let removed = acc.remove(i);
            if matches_filter(m, message_type) {
                removed.push(m)
            } else {
                removed
            }
        }
    } else {
        if matches_filter(m, message_type) {
            acc.push(m)
        } else {
            acc
        }
    }
}

/// Reattachment collapsing and filtering of a whole history, in stored order.
pub open spec fn spec_collapse(
    msgs: Seq<MessageView>,
    message_type: Option<MessageType>,
) -> Seq<MessageView>
    decreases msgs.len(),
{
    if msgs.len() == 0 {
        Seq::empty()
    } else {
        collapse_step(spec_collapse(msgs.drop_last(), message_type), msgs.last(), message_type)
    }
}

/// Skipping `from` entries, then taking `count` of them (zero means all).
pub open spec fn spec_window(s: Seq<MessageView>, count: int, from: int) -> Seq<MessageView> {
    let sk = if from <= s.len() {
        s.skip(from)
    } else {
        Seq::empty()
    };
    if count == 0 {
        sk
    } else if count <= sk.len() {
        sk.take(count)
    } else {
        sk
    }
}

/// What a listing of the history returns: the collapsed and filtered
/// history, windowed by `from` and `count`.
pub open spec fn spec_list_messages(
    msgs: Seq<MessageView>,
    count: int,
    from: int,
    message_type: Option<MessageType>,
) -> Seq<MessageView> {
    spec_window(spec_collapse(msgs, message_type), count, from)
}

/// Reports whether a message passes the optional type filter.
pub fn message_matches_filter(m: &Message, message_type: Option<MessageType>) -> (r: bool)
    ensures
        r == matches_filter(m@, message_type),
{
    match message_type {
        Option::Some(MessageType::Received) => m.incoming,
        Option::Some(MessageType::Sent) => !m.incoming,
        Option::Some(MessageType::Failed) => !m.broadcasted,
        Option::Some(MessageType::Unconfirmed) => !(matches!(m.confirmed, Some(true))),
        Option::Some(MessageType::Value) => m.value > 0,
        Option::None => true,
    }
}

/// Finds the first selected message sharing the payload, if any.
fn position_by_payload(list: &Vec<Message>, payload: &Vec<u8>) -> (r: Option<usize>)
    ensures
        match r {
            Some(j) => 0 <= j < list.deep_view().len() && find_payload(list.deep_view(), payload@)
                == j as int,
            None => find_payload(list.deep_view(), payload@) == -1,
        },
{
    let ghost acc = list.deep_view();
    let mut j: usize = 0;
    let n = list.len();
    while j < n
        invariant
            0 <= j <= n,
            n == acc.len(),
            acc == list.deep_view(),
            forall|jj: int| 0 <= jj < j ==> #[trigger] acc[jj].payload != payload@,
        decreases n - j,
    {
        if list[j].payload == *payload {
            proof {
                assert(acc[j as int].payload == payload@);
                lemma_find_payload(acc, payload@);
                let f = find_payload(acc, payload@);
                assert(f != -1) by {
                    if f == -1 {
                        assert(acc[j as int].payload != payload@);
                    }
                }
                assert(f == j as int) by {
                    if f < j as int {
                        assert(acc[f].payload != payload@);
                    }
                    if f > j as int {
                        assert(acc[j as int].payload != payload@);
                    }
                }
            }
            return Some(j);
        }
        j = j + 1;
    }
    proof {
        lemma_find_payload(acc, payload@);
        let f = find_payload(acc, payload@);
        if f != -1 {
            assert(acc[f].payload != payload@);
        }
    }
    None
}

/// The mathematical value of one wallet account.
#[verifier::ext_equal]
pub ghost struct AccountView {
    /// The account identifier.
    pub id: AccountIdView,
    /// The signer type.
    pub signer_type: SignerType,
    /// The creation order of the account.
    pub index: usize,
    /// The account alias.
    pub alias: Seq<char>,
    /// Seconds since the epoch at creation.
    pub created_at: u64,
    /// The transaction history.
    pub messages: Seq<MessageView>,
    /// The address set.
    pub addresses: Seq<AddressView>,
    /// The client options.
    pub client_options: Seq<char>,
    /// Location of the persisted record.
    pub storage_path: Seq<char>,
    /// Whether a tracked mutation still awaits persistence.
    pub has_pending_changes: bool,
}

/// Account definition.
#[derive(Debug)]
pub struct Account {
    /// The account identifier, set once at creation.
    pub id: AccountIdentifier,
    /// The account's signer type.
    pub signer_type: SignerType,
    /// The account index, its creation order.
    pub index: usize,
    /// The account alias.
    pub alias: String,
    /// Time of account creation, as seconds since the epoch.
    pub created_at: u64,
    /// The transaction history; duplicates by payload are reattachments.
    pub messages: Vec<Message>,
    /// The address set, at most one entry per derivation index.
    pub addresses: Vec<Address>,
    /// The client options.
    pub client_options: ClientOptions,
    /// Location of the persisted record.
    pub storage_path: String,
    /// Whether a tracked mutation still awaits persistence.
    pub has_pending_changes: bool,
}

impl View for Account {
    type V = AccountView;

    open spec fn view(&self) -> AccountView {
        AccountView {
            id: self.id@,
            signer_type: self.signer_type,
            index: self.index,
            alias: self.alias@,
            created_at: self.created_at,
            messages: self.messages.deep_view(),
            addresses: self.addresses.deep_view(),
            client_options: self.client_options@,
            storage_path: self.storage_path@,
            has_pending_changes: self.has_pending_changes,
        }
    }
}

impl Clone for Account {
    fn clone(&self) -> (res: Self)
        ensures
            res@ == self@,
    {
        let messages = clone_messages(&self.messages);
        let addresses = clone_addresses(&self.addresses);
        let res = Account {
            id: self.id.clone(),
            signer_type: self.signer_type,
            index: self.index,
            alias: self.alias.clone(),
            created_at: self.created_at,
            messages,
            addresses,
            client_options: self.client_options.clone(),
            storage_path: self.storage_path.clone(),
            has_pending_changes: self.has_pending_changes,
        };
        proof {
            assert(res@ =~= self@);
        }
        res
    }
}

/// Clones every message of a history.
pub fn clone_messages(messages: &Vec<Message>) -> (r: Vec<Message>)
    ensures
        r.deep_view() == messages.deep_view(),
{
    let ghost msgs = messages.deep_view();
    let mut r: Vec<Message> = Vec::new();
    let mut i: usize = 0;
    proof {
        assert(r.deep_view() =~= msgs.take(0));
    }
    while i < messages.len()
        invariant
            0 <= i <= msgs.len(),
            msgs == messages.deep_view(),
            r.deep_view() == msgs.take(i as int),
        decreases msgs.len() - i,
    {
        let ghost prev = r.deep_view();
        let ghost prevseq = r@;
        r.push(messages[i].clone());
        proof {
            assert(prev.len() == i as int);
            assert(r@[i as int]@ == msgs[i as int]);
            assert(r.deep_view()[i as int] == r@[i as int].deep_view());
            assert forall|j: int| 0 <= j < prev.len() implies r.deep_view()[j] == prev[j] by {
                assert(r@[j] == prevseq[j]);
                assert(r.deep_view()[j] == r@[j].deep_view());
                assert(prev[j] == prevseq[j].deep_view());
            }
            assert(r.deep_view() =~= msgs.take(i + 1));
        }
        i = i + 1;
    }
    proof {
        assert(msgs.take(msgs.len() as int) =~= msgs);
    }
    r
}

/// Clones every address of an address set.
pub fn clone_addresses(addresses: &Vec<Address>) -> (r: Vec<Address>)
    ensures
        r.deep_view() == addresses.deep_view(),
{
    let ghost addrs = addresses.deep_view();
    let mut r: Vec<Address> = Vec::new();
    let mut i: usize = 0;
    proof {
        assert(r.deep_view() =~= addrs.take(0));
    }
    while i < addresses.len()
        invariant
            0 <= i <= addrs.len(),
            addrs == addresses.deep_view(),
            r.deep_view() == addrs.take(i as int),
        decreases addrs.len() - i,
    {
        let ghost prev = r.deep_view();
        let ghost prevseq = r@;
        r.push(addresses[i].clone());
        proof {
            assert(prev.len() == i as int);
            assert(prevseq.len() == i as int);
            assert(r@.len() == i + 1);
            assert(r@[i as int]@ == addrs[i as int]);
            assert(r.deep_view()[i as int] == r@[i as int].deep_view());
            assert(r@[i as int].deep_view() == r@[i as int]@);
            assert forall|j: int| 0 <= j < prev.len() implies r.deep_view()[j] == prev[j] by {
                assert(r@[j] == prevseq[j]);
                assert(r.deep_view()[j] == r@[j].deep_view());
                assert(prev[j] == prevseq[j].deep_view());
            }
            assert(r.deep_view() =~= addrs.take(i + 1));
        }
        i = i + 1;
    }
    proof {
        assert(addrs.take(addrs.len() as int) =~= addrs);
    }
    r
}

impl Account {
    /// The address set never holds two entries with one derivation index.
    pub open spec fn wf(self) -> bool {
        addresses_wf(self@.addresses)
    }

    /// Returns the most recent address of the account: the change-flag-free
    /// address with the greatest derivation index, or `None` if every address
    /// is a change address.
    pub fn latest_address(&self) -> (r: Option<&Address>)
        ensures
            match r {
                Some(a) => {
                    &&& exists|i: int|
                        0 <= i < self@.addresses.len() && #[trigger] self@.addresses[i] == a@
                    &&& !a.internal
                    &&& forall|j: int|
                        0 <= j < self@.addresses.len() && !(#[trigger] self@.addresses[j].internal)
                            ==> self@.addresses[j].key_index <= a.key_index
                },
                None => forall|i: int|
                    0 <= i < self@.addresses.len() ==> #[trigger] self@.addresses[i].internal,
            },
    {
        let ghost addrs = self@.addresses;
        let mut best: Option<usize> = None;
        let mut i: usize = 0;
        let n = self.addresses.len();
        while i < n
            invariant
                0 <= i <= n,
                n == addrs.len(),
                addrs == self@.addresses,
                match best {
                    Some(b) => {
                        &&& 0 <= b < i
                        &&& !addrs[b as int].internal
                        &&& forall|j: int|
                            0 <= j < i && !(#[trigger] addrs[j].internal) ==> addrs[j].key_index
                                <= addrs[b as int].key_index
                    },
                    None => forall|j: int| 0 <= j < i ==> #[trigger] addrs[j].internal,
                },
            decreases n - i,
        {
            if !self.addresses[i].internal {
                best = match best {
                    Some(b) => {
                        if self.addresses[i].key_index >= self.addresses[b].key_index {
                            Some(i)
                        } else {
                            Some(b)
                        }
                    },
                    None => Some(i),
                };
            }
            i = i + 1;
        }
        match best {
            Some(b) => Some(&self.addresses[b]),
            None => None,
        }
    }

    /// Gets the account's total balance: the sum of the balances of all its
    /// addresses.
    pub fn total_balance(&self) -> (r: u64)
        requires
            spec_total_balance(self@.addresses) <= u64::MAX,
        ensures
            r == spec_total_balance(self@.addresses),
    {
        let ghost addrs = self@.addresses;
        let mut acc: u64 = 0;
        let mut i: usize = 0;
        let n = self.addresses.len();
        while i < n
            invariant
                0 <= i <= n,
                n == addrs.len(),
                addrs == self@.addresses,
                spec_total_balance(addrs) <= u64::MAX,
                acc == spec_total_balance(addrs.take(i as int)),
            decreases n - i,
        {
            proof {
                assert(addrs.take(i + 1).drop_last() =~= addrs.take(i as int));
                lemma_total_balance_prefix(addrs, i + 1);
                lemma_total_balance_nonneg(addrs.take(i as int));
            }
            acc = acc + self.addresses[i].balance;
            i = i + 1;
        }
        proof {
            assert(addrs.take(n as int) =~= addrs);
        }
        acc
    }

    /// Gets the account's available balance: the total balance minus, per
    /// address, the value already committed to unconfirmed outgoing
    /// transfers referencing it (each address's spendable amount never going
    /// below zero).
    pub fn available_balance(&self) -> (r: u64)
        requires
            spec_total_balance(self@.addresses) <= u64::MAX,
        ensures
            r == spec_available_balance(self@.addresses, self@.messages),
    {
        let ghost addrs = self@.addresses;
        let ghost msgs = self@.messages;
        let mut acc: u64 = 0;
        let mut i: usize = 0;
        let n = self.addresses.len();
        while i < n
            invariant
                0 <= i <= n,
                n == addrs.len(),
                addrs == self@.addresses,
                msgs == self@.messages,
                spec_total_balance(addrs) <= u64::MAX,
                acc == spec_available_balance(addrs.take(i as int), msgs),
            decreases n - i,
        {
            let address = &self.addresses[i];
            let mut enc: u128 = 0;
            let mut j: usize = 0;
            let nm = self.messages.len();
            while j < nm
                invariant
                    0 <= j <= nm,
                    nm == msgs.len(),
                    msgs == self@.messages,
                    addrs == self@.addresses,
                    0 <= i < addrs.len(),
                    *address == self.addresses@[i as int],
                    enc == spec_encumbrance(msgs.take(j as int), addrs[i as int].address),
                    enc <= j * 0x8000_0000_0000_0000,
                decreases nm - j,
            {
                proof {
                    assert(msgs.take(j + 1).drop_last() =~= msgs.take(j as int));
                    assert(msgs.take(j + 1).last() == msgs[j as int]);
                    assert(j * 0x8000_0000_0000_0000 + 0x8000_0000_0000_0000 == (j + 1)
                        * 0x8000_0000_0000_0000) by (nonlinear_arith);
                    assert((j + 1) * 0x8000_0000_0000_0000 <= 0x1_0000_0000_0000_0000
                        * 0x8000_0000_0000_0000) by (nonlinear_arith)
                        requires
                            0 <= j + 1 <= 0x1_0000_0000_0000_0000,
                    ;
                }
                let m = &self.messages[j];
                if m.value < 0 && m.address == address.address && !(matches!(
                    m.confirmed,
                    Some(true),
                )) {
                    enc = enc + ((-(m.value as i128)) as u128);
                }
                j = j + 1;
            }
            proof {
                assert(msgs.take(nm as int) =~= msgs);
                assert(addrs.take(i + 1).drop_last() =~= addrs.take(i as int));
                assert(addrs.take(i + 1).last() == addrs[i as int]);
                lemma_available_le_total(addrs.take(i + 1), msgs);
                lemma_total_balance_prefix(addrs, i + 1);
            }
            let bal = address.balance;
            let avail: u64 = if enc >= bal as u128 {
                0
            } else {
                bal - (enc as u64)
            };
            proof {
                assert(avail == spec_available(addrs[i as int], msgs));
                lemma_available_le_total(addrs.take(i as int), msgs);
            }
            acc = acc + avail;
            i = i + 1;
        }
        proof {
            assert(addrs.take(n as int) =~= addrs);
        }
        acc
    }

    /// Whether every address of the account carries a zero balance; exactly
    /// then the total balance is zero.
    pub fn has_zero_balance(&self) -> (r: bool)
        ensures
            r == (spec_total_balance(self@.addresses) == 0),
    {
        let ghost addrs = self@.addresses;
        let mut i: usize = 0;
        let n = self.addresses.len();
        while i < n
            invariant
                0 <= i <= n,
                n == addrs.len(),
                addrs == self@.addresses,
                spec_total_balance(addrs.take(i as int)) == 0,
            decreases n - i,
        {
            proof {
                assert(addrs.take(i + 1).drop_last() =~= addrs.take(i as int));
            }
            if self.addresses[i].balance > 0 {
                proof {
                    lemma_total_balance_prefix(addrs, i + 1);
                }
                return false;
            }
            i = i + 1;
        }
        proof {
            assert(addrs.take(n as int) =~= addrs);
        }
        true
    }

    /// Updates the account alias; the account is marked dirty only when the
    /// alias actually changes.
    pub fn set_alias(&mut self, alias: String)
        ensures
            final(self)@ == (AccountView {
                alias: alias@,
                has_pending_changes: old(self)@.has_pending_changes || alias@ != old(self)@.alias,
                ..old(self)@
            }),
    {
        if !self.has_pending_changes {
            self.has_pending_changes = alias != self.alias;
        }
        self.alias = alias;
        proof {
            assert(self@ =~= AccountView {
                alias: self@.alias,
                has_pending_changes: self@.has_pending_changes,
                ..old(self)@
            });
        }
    }

    /// Updates the account's client options; the account is marked dirty only
    /// when they actually change.
    pub fn set_client_options(&mut self, options: ClientOptions)
        ensures
            final(self)@ == (AccountView {
                client_options: options@,
                has_pending_changes: old(self)@.has_pending_changes || options@ != old(self)@.client_options,
                ..old(self)@
            }),
    {
        if !self.has_pending_changes {
            self.has_pending_changes = options != self.client_options;
        }
        self.client_options = options;
        proof {
            assert(self@ =~= AccountView {
                client_options: self@.client_options,
                has_pending_changes: self@.has_pending_changes,
                ..old(self)@
            });
        }
    }

    /// Replaces the provisional identifier with the record id the signer
    /// assigned, rendered as a hexadecimal string identifier. The new
    /// identifier decodes back to exactly the assigned record id.
    pub fn set_id_from_record(&mut self, record: &[u8; 32])
        ensures
            final(self)@ == (AccountView {
                id: AccountIdView::Id(hex_str_of(record@)),
                ..old(self)@
            }),
            hex_str_of(record@).len() == 64,
            forall|i: int|
                0 <= i < hex_str_of(record@).len() ==> is_hex_digit(
                    #[trigger] hex_str_of(record@)[i],
                ),
            hex_bytes_of(hex_str_of(record@)) == record@,
    {
        self.id = AccountIdentifier::Id(encode_hex(record.as_slice()));
        proof {
            assert(self@ =~= AccountView { id: AccountIdView::Id(hex_str_of(record@)), ..old(self)@ });
            lemma_hex_round_trip(record@);
        }
    }

    /// Records that the pending changes of the account were persisted.
    pub fn mark_saved(&mut self)
        ensures
            final(self)@ == (AccountView { has_pending_changes: false, ..old(self)@ }),
    {
        self.has_pending_changes = false;
        proof {
            assert(self@ =~= AccountView { has_pending_changes: false, ..old(self)@ });
        }
    }

    /// Appends messages to the transaction history.
    pub fn append_messages(&mut self, messages: Vec<Message>)
        ensures
            final(self)@ == (AccountView {
                messages: old(self)@.messages + messages.deep_view(),
                ..old(self)@
            }),
    {
        let ghost incoming = messages.deep_view();
        let mut messages = messages;
        self.messages.append(&mut messages);
        proof {
            assert(self.messages.deep_view() =~= old(self)@.messages + incoming);
            assert(self@ =~= AccountView {
                messages: old(self)@.messages + incoming,
                ..old(self)@
            });
        }
    }

    /// Upserts a batch of addresses by derivation index: entries whose index
    /// is already present replace the old entry in place, novel entries are
    /// appended, and untouched entries keep their order.
    pub fn append_addresses(&mut self, addresses: Vec<Address>)
        requires
            old(self).wf(),
        ensures
            final(self)@ == (AccountView {
                addresses: spec_upsert_addresses(old(self)@.addresses, addresses.deep_view()),
                ..old(self)@
            }),
            final(self).wf(),
    {
        let ghost orig = self@.addresses;
        let ghost items = addresses.deep_view();
        let mut i: usize = 0;
        let n = addresses.len();
        while i < n
            invariant
                0 <= i <= n,
                n == items.len(),
                items == addresses.deep_view(),
                self.addresses.deep_view() == spec_upsert_addresses(orig, items.take(i as int)),
                addresses_wf(self.addresses.deep_view()),
                self@ == (AccountView { addresses: self.addresses.deep_view(), ..old(self)@ }),
                orig == old(self)@.addresses,
            decreases n - i,
        {
            upsert_address(&mut self.addresses, addresses[i].clone());
            proof {
                assert(items.take(i + 1).drop_last() =~= items.take(i as int));
                assert(items.take(i + 1).last() == items[i as int]);
                assert(self@ =~= AccountView {
                    addresses: self.addresses.deep_view(),
                    ..old(self)@
                });
            }
            i = i + 1;
        }
        proof {
            assert(items.take(n as int) =~= items);
        }
    }

    /// Replaces the address set wholesale, for reconstruction from storage.
    pub fn set_addresses(&mut self, addresses: Vec<Address>)
        requires
            addresses_wf(addresses.deep_view()),
        ensures
            final(self)@ == (AccountView { addresses: addresses.deep_view(), ..old(self)@ }),
            final(self).wf(),
    {
        self.addresses = addresses;
        proof {
            assert(self@ =~= AccountView {
                addresses: self.addresses.deep_view(),
                ..old(self)@
            });
        }
    }

    /// Replaces the transaction history wholesale, for reconstruction from
    /// storage.
    pub fn set_messages(&mut self, messages: Vec<Message>)
        ensures
            final(self)@ == (AccountView { messages: messages.deep_view(), ..old(self)@ }),
    {
        self.messages = messages;
        proof {
            assert(self@ =~= AccountView { messages: self.messages.deep_view(), ..old(self)@ });
        }
    }

    /// Gets the message with the given id, if the history holds one: the
    /// first occurrence in stored order.
    pub fn get_message(&self, message_id: &[u8; 32]) -> (r: Option<&Message>)
        ensures
            match r {
                Some(m) => {
                    let f = find_message(self@.messages, message_id@);
                    &&& f >= 0
                    &&& m@ == self@.messages[f]
                    &&& m@.id == message_id@
                },
                None => find_message(self@.messages, message_id@) == -1,
            },
    {
        match position_by_message_id(&self.messages, message_id) {
            Some(i) => {
                proof {
                    lemma_find_message(self@.messages, message_id@);
                }
                Some(&self.messages[i])
            },
            None => None,
        }
    }

    /// Gets the addresses whose spent flag, as reported by the ledger's
    /// messages, matches the requested flag.
    pub fn list_addresses(&self, unspent: bool) -> (r: Vec<Address>)
        ensures
            r.deep_view() == self@.addresses.filter(
                |a: AddressView|
                    crate::address::spec_is_spent(self@.messages, a.address) == unspent,
            ),
    {
        let ghost addrs = self@.addresses;
        let ghost pred = |a: AddressView|
            crate::address::spec_is_spent(self@.messages, a.address) == unspent;
        let mut r: Vec<Address> = Vec::new();
        let mut i: usize = 0;
        let n = self.addresses.len();
        proof {
            reveal(Seq::filter);
            assert(addrs.take(0).filter(pred) =~= Seq::<AddressView>::empty());
            assert(r.deep_view() =~= Seq::<AddressView>::empty());
        }
        while i < n
            invariant
                0 <= i <= n,
                n == addrs.len(),
                addrs == self@.addresses,
                r.deep_view() == addrs.take(i as int).filter(pred),
                pred == (|a: AddressView|
                    crate::address::spec_is_spent(self@.messages, a.address) == unspent),
            decreases n - i,
        {
            proof {
                reveal(Seq::filter);
                assert(addrs.take(i + 1).drop_last() =~= addrs.take(i as int));
            }
            if is_unspent(self, &self.addresses[i].address) == unspent {
                r.push(self.addresses[i].clone());
                proof {
                    assert(r.deep_view() =~= addrs.take(i as int).filter(pred).push(
                        addrs[i as int],
                    ));
                }
            }
            i = i + 1;
        }
        proof {
            assert(addrs.take(n as int) =~= addrs);
        }
        r
    }

    /// Gets a listing of the transaction history: reattachments (messages
    /// sharing a payload) are collapsed so that a confirmed earlier
    /// occurrence wins and an unconfirmed one is evicted by the later
    /// message; the optional type filter is applied; then `from` entries are
    /// skipped and `count` taken (zero meaning all).
    pub fn list_messages(
        &self,
        count: usize,
        from: usize,
        message_type: Option<MessageType>,
    ) -> (r: Vec<Message>)
        ensures
            r.deep_view() == spec_list_messages(
                self@.messages,
                count as int,
                from as int,
                message_type,
            ),
    {
        let ghost msgs = self@.messages;
        let mut collapsed: Vec<Message> = Vec::new();
        let mut i: usize = 0;
        let n = self.messages.len();
        proof {
            assert(collapsed.deep_view() =~= spec_collapse(msgs.take(0), message_type));
        }
        while i < n
            invariant
                0 <= i <= n,
                n == msgs.len(),
                msgs == self@.messages,
                collapsed.deep_view() == spec_collapse(msgs.take(i as int), message_type),
            decreases n - i,
        {
            let ghost prev = collapsed.deep_view();
            proof {
                assert(msgs.take(i + 1).drop_last() =~= msgs.take(i as int));
                assert(msgs.take(i + 1).last() == msgs[i as int]);
                assert(msgs[i as int] == self.messages@[i as int]@);
            }
            match position_by_payload(&collapsed, &self.messages[i].payload) {
                Some(j) => {
                    let keep_original = matches!(collapsed[j].confirmed, Some(true));
                    if !keep_original {
                        let ghost before_remove = collapsed@;
                        collapsed.remove(j);
                        proof {
                            assert(collapsed.deep_view() =~= prev.remove(j as int)) by {
                                assert forall|k: int|
                                    0 <= k < collapsed.deep_view().len() implies collapsed.deep_view()[k]
                                    == prev.remove(j as int)[k] by {
                                    assert(collapsed.deep_view()[k] == collapsed@[k].deep_view());
                                }
                            }
                        }
                        if message_matches_filter(&self.messages[i], message_type) {
                            let ghost before_push = collapsed@;
                            collapsed.push(self.messages[i].clone());
                            proof {
                                assert(collapsed.deep_view() =~= prev.remove(j as int).push(
                                    msgs[i as int],
                                )) by {
                                    assert forall|k: int|
                                        0 <= k < before_push.len() implies collapsed.deep_view()[k]
                                        == prev.remove(j as int)[k] by {
                                        assert(collapsed@[k] == before_push[k]);
                                        assert(collapsed.deep_view()[k] == collapsed@[
                                            k
                                        ].deep_view());
                                    }
                                    assert(collapsed.deep_view()[before_push.len() as int]
                                        == collapsed@[before_push.len() as int].deep_view());
                                }
                            }
                        }
                    }
                },
                None => {
                    if message_matches_filter(&self.messages[i], message_type) {
                        let ghost before_push = collapsed@;
                        collapsed.push(self.messages[i].clone());
                        proof {
                            assert(collapsed.deep_view() =~= prev.push(msgs[i as int])) by {
                                assert forall|k: int|
                                    0 <= k < before_push.len() implies collapsed.deep_view()[k]
                                    == prev[k] by {
                                    assert(collapsed@[k] == before_push[k]);
                                    assert(collapsed.deep_view()[k] == collapsed@[k].deep_view());
                                }
                                assert(collapsed.deep_view()[before_push.len() as int]
                                    == collapsed@[before_push.len() as int].deep_view());
                            }
                        }
                    }
                },
            }
            proof {
                assert(collapsed.deep_view() == collapse_step(prev, msgs[i as int], message_type));
            }
            i = i + 1;
        }
        proof {
            assert(msgs.take(n as int) =~= msgs);
        }
        let ghost col = collapsed.deep_view();
        let n2 = collapsed.len();
        let mut out: Vec<Message> = Vec::new();
        let mut k: usize = from;
        proof {
            assert(out.deep_view() =~= Seq::<MessageView>::empty());
        }
        if from >= n2 {
            proof {
                if from as int <= col.len() {
                    assert(col.skip(from as int) =~= Seq::<MessageView>::empty());
                }
            }
            return out;
        }
        while k < n2 && (count == 0 || out.len() < count)
            invariant
                from <= k <= n2,
                n2 == col.len(),
                col == collapsed.deep_view(),
                out.deep_view() == col.subrange(from as int, k as int),
                out.deep_view().len() == k - from,
                count != 0 ==> out.deep_view().len() <= count,
            decreases n2 - k,
        {
            let ghost prev = out.deep_view();
            let ghost prevseq = out@;
            out.push(collapsed[k].clone());
            proof {
                assert(out.deep_view() =~= col.subrange(from as int, k + 1)) by {
                    assert forall|j: int| 0 <= j < prev.len() implies out.deep_view()[j] == prev[j] by {
                        assert(out@[j] == prevseq[j]);
                        assert(out.deep_view()[j] == out@[j].deep_view());
                    }
                    assert(out.deep_view()[prev.len() as int] == out@[prev.len() as int].deep_view());
                }
            }
            k = k + 1;
        }
        proof {
            let sk = col.skip(from as int);
            assert(sk.len() == col.len() - from);
            if count == 0 || count > sk.len() {
                assert(k == n2);
                assert(out.deep_view() =~= sk);
            } else {
                assert(out.deep_view().len() == count);
                assert(out.deep_view() =~= sk.take(count as int));
            }
        }
        out
    }

    /// Builds a fresh address from signer-derived parts and links it to this
    /// account: the new address takes the next derivation index (the current
    /// address count), is not a change address, and is upserted under the
    /// uniqueness invariant.
    pub fn generate_address(&mut self, raw: AddressValue, balance: u64) -> (r: Address)
        requires
            old(self).wf(),
        ensures
            r@ == (AddressView {
                address: raw@,
                balance,
                key_index: old(self)@.addresses.len() as usize,
                checksum: Seq::<char>::empty(),
                internal: false,
            }),
            final(self)@ == (AccountView {
                addresses: spec_upsert_address(old(self)@.addresses, r@),
                ..old(self)@
            }),
            final(self).wf(),
    {
        let key_index = self.addresses.len();
        let checksum = generate_checksum(&raw);
        let address = Address { address: raw, balance, key_index, checksum, internal: false };
        let r = address.clone();
        upsert_address(&mut self.addresses, address);
        proof {
            assert(self@ =~= AccountView { addresses: self.addresses.deep_view(), ..old(self)@ });
            assert(r@ =~= AddressView {
                address: r@.address,
                balance,
                key_index: old(self)@.addresses.len() as usize,
                checksum: Seq::<char>::empty(),
                internal: false,
            });
        }
        r
    }
}

/// Data returned from the account initialisation.
pub struct InitialisedAccount {
    /// The account identifier.
    pub id: String,
    /// The account alias.
    pub alias: String,
    /// Seed address history.
    pub addresses: Vec<Address>,
    /// Seed transaction history.
    pub transactions: Vec<Message>,
    /// Account creation time.
    pub created_at: u64,
    /// Time when the account was last synced with the remote ledger.
    pub last_synced_at: u64,
}

/// The mathematical value of one lock registry entry.
#[verifier::ext_equal]
pub ghost struct LockEntryView {
    /// The account the lock guards.
    pub id: AccountIdView,
    /// Whether the lock is held.
    pub held: bool,
}

/// One entry of the lock registry: the exclusive address-list lock of one
/// account.
pub struct LockEntry {
    /// The account the lock guards.
    pub id: AccountIdentifier,
    /// Whether the lock is held.
    pub held: bool,
}

impl View for LockEntry {
    type V = LockEntryView;

    open spec fn view(&self) -> LockEntryView {
        LockEntryView { id: self.id@, held: self.held }
    }
}

impl DeepView for LockEntry {
    type V = LockEntryView;

    open spec fn deep_view(&self) -> LockEntryView {
        self.view()
    }
}

/// The first entry guarding the identifier, or -1.
pub open spec fn find_lock(s: Seq<LockEntryView>, id: AccountIdView) -> int
    decreases s.len(),
{
    if s.len() == 0 {
        -1
    } else if s[0].id == id {
        0
    } else {
        let r = find_lock(s.drop_first(), id);
        if r == -1 {
            -1
        } else {
            r + 1
        }
    }
}

/// `find_lock` finds exactly the first entry guarding the identifier.
pub proof fn lemma_find_lock(s: Seq<LockEntryView>, id: AccountIdView)
    ensures
        find_lock(s, id) == -1 ==> forall|i: int| 0 <= i < s.len() ==> (#[trigger] s[i]).id != id,
        find_lock(s, id) != -1 ==> {
            let r = find_lock(s, id);
            &&& 0 <= r < s.len()
            &&& s[r].id == id
            &&& forall|i: int| 0 <= i < r ==> (#[trigger] s[i]).id != id
        },
    decreases s.len(),
{
    if s.len() > 0 && s[0].id != id {
        lemma_find_lock(s.drop_first(), id);
        assert(forall|i: int| 1 <= i < s.len() ==> s.drop_first()[i - 1] == #[trigger] s[i]);
    }
}

/// No two registry entries guard one identifier, so at most one lock is ever
/// created per account.
pub open spec fn locks_wf(s: Seq<LockEntryView>) -> bool {
    forall|i: int, j: int| 0 <= i < j < s.len() ==> (#[trigger] s[i]).id != (#[trigger] s[j]).id
}

/// The process-wide registry of per-account address-list locks, constructed
/// explicitly and handed to whoever mutates accounts. All address-mutating
/// operations must acquire the account's lock before the read-modify-write
/// of its stored record.
pub struct LockRegistry {
    /// The registered locks.
    pub entries: Vec<LockEntry>,
}

impl LockRegistry {
    /// Every account has at most one lock.
    pub open spec fn wf(self) -> bool {
        locks_wf(self.entries.deep_view())
    }

    /// A registry with no locks.
    pub fn new() -> (r: LockRegistry)
        ensures
            r.entries.deep_view() == Seq::<LockEntryView>::empty(),
            r.wf(),
    {
        let r = LockRegistry { entries: Vec::new() };
        proof {
            assert(r.entries.deep_view() =~= Seq::<LockEntryView>::empty());
        }
        r
    }

    /// Gets the lock guarding the account, creating it released when it is
    /// not yet registered: idempotent, and only ever one lock per identifier.
    pub fn get_account_addresses_lock(&mut self, account_id: &AccountIdentifier) -> (h: usize)
        requires
            old(self).wf(),
        ensures
            final(self).wf(),
            ({
                let f = find_lock(old(self).entries.deep_view(), account_id@);
                if f == -1 {
                    &&& final(self).entries.deep_view() == old(self).entries.deep_view().push(
                        LockEntryView { id: account_id@, held: false },
                    )
                    &&& h == old(self).entries.deep_view().len()
                } else {
                    &&& final(self).entries.deep_view() == old(self).entries.deep_view()
                    &&& h == f
                }
            }),
            final(self).entries.deep_view()[h as int].id == account_id@,
            h < final(self).entries.deep_view().len(),
    {
        let ghost orig = self.entries.deep_view();
        proof {
            lemma_find_lock(orig, account_id@);
        }
        let n = self.entries.len();
        let mut i: usize = 0;
        while i < n
            invariant
                0 <= i <= n,
                n == orig.len(),
                orig == self.entries.deep_view(),
                orig == old(self).entries.deep_view(),
                locks_wf(orig),
                forall|j: int| 0 <= j < i ==> (#[trigger] orig[j]).id != account_id@,
            decreases n - i,
        {
            if self.entries[i].id == *account_id {
                proof {
                    lemma_find_lock(orig, account_id@);
                    let f = find_lock(orig, account_id@);
                    assert(f != -1) by {
                        if f == -1 {
                            assert(orig[i as int].id != account_id@);
                        }
                    }
                    assert(f == i as int) by {
                        if f < i as int {
                            assert(orig[f].id != account_id@);
                        }
                        if f > i as int {
                            assert(orig[i as int].id != account_id@);
                        }
                    }
                }
                return i;
            }
            i = i + 1;
        }
        let ghost prevseq = self.entries@;
        self.entries.push(LockEntry { id: account_id.clone(), held: false });
        proof {
            assert(self.entries.deep_view() =~= orig.push(
                LockEntryView { id: account_id@, held: false },
            )) by {
                assert forall|j: int| 0 <= j < orig.len() implies self.entries.deep_view()[j]
                    == orig[j] by {
                    assert(self.entries@[j] == prevseq[j]);
                    assert(self.entries.deep_view()[j] == self.entries@[j].deep_view());
                }
                assert(self.entries.deep_view()[orig.len() as int] == self.entries@[
                    orig.len() as int
                ].deep_view());
            }
            let extended = self.entries.deep_view();
            assert forall|p: int, q: int|
                0 <= p < q < extended.len() implies (#[trigger] extended[p]).id
                != (#[trigger] extended[q]).id by {
                if q < orig.len() {
                    assert(orig[p].id != orig[q].id);
                } else {
                    assert(orig[p].id != account_id@);
                }
            }
        }
        n
    }

    /// Tries to take the account's lock: succeeds exactly when no holder has
    /// it, registering a held lock if none existed; a lock already held is
    /// refused, which serializes mutations of one account.
    pub fn try_acquire(&mut self, account_id: &AccountIdentifier) -> (r: bool)
        requires
            old(self).wf(),
        ensures
            final(self).wf(),
            ({
                let f = find_lock(old(self).entries.deep_view(), account_id@);
                if f == -1 {
                    &&& r
                    &&& final(self).entries.deep_view() == old(self).entries.deep_view().push(
                        LockEntryView { id: account_id@, held: true },
                    )
                } else {
                    &&& r == !old(self).entries.deep_view()[f].held
                    &&& final(self).entries.deep_view() == old(self).entries.deep_view().update(
                        f,
                        LockEntryView { id: account_id@, held: true },
                    )
                }
            }),
    {
        let h = self.get_account_addresses_lock(account_id);
        let ghost mid = self.entries.deep_view();
        let already_held = self.entries[h].held;
        let ghost prevseq = self.entries@;
        let entry = &mut self.entries[h];
        entry.held = true;
        proof {
            assert(self.entries@ == prevseq.update(h as int, self.entries@[h as int]));
            assert(self.entries.deep_view() =~= mid.update(
                h as int,
                LockEntryView { id: account_id@, held: true },
            )) by {
                assert forall|j: int|
                    0 <= j < mid.len() implies self.entries.deep_view()[j] == mid.update(
                    h as int,
                    LockEntryView { id: account_id@, held: true },
                )[j] by {
                    assert(self.entries.deep_view()[j] == self.entries@[j].deep_view());
                    if j != h as int {
                        assert(self.entries@[j] == prevseq[j]);
                        assert(mid[j] == prevseq[j].deep_view());
                    }
                }
            }
            let f = find_lock(old(self).entries.deep_view(), account_id@);
            if f == -1 {
                assert(self.entries.deep_view() =~= old(self).entries.deep_view().push(
                    LockEntryView { id: account_id@, held: true },
                ));
            } else {
                assert(self.entries.deep_view() =~= old(self).entries.deep_view().update(
                    f,
                    LockEntryView { id: account_id@, held: true },
                ));
            }
            let updated = self.entries.deep_view();
            assert forall|p: int, q: int|
                0 <= p < q < updated.len() implies (#[trigger] updated[p]).id
                != (#[trigger] updated[q]).id by {
                assert(mid[p].id != mid[q].id);
                assert(updated[p].id == mid[p].id);
                assert(updated[q].id == mid[q].id);
            }
        }
        !already_held
    }

    /// Releases the account's lock; an identifier without a registered lock
    /// is left alone.
    pub fn release(&mut self, account_id: &AccountIdentifier)
        requires
            old(self).wf(),
        ensures
            final(self).wf(),
            ({
                let f = find_lock(old(self).entries.deep_view(), account_id@);
                if f == -1 {
                    final(self).entries.deep_view() == old(self).entries.deep_view()
                } else {
                    final(self).entries.deep_view() == old(self).entries.deep_view().update(
                        f,
                        LockEntryView { id: account_id@, held: false },
                    )
                }
            }),
    {
        let ghost orig = self.entries.deep_view();
        proof {
            lemma_find_lock(orig, account_id@);
        }
        let n = self.entries.len();
        let mut i: usize = 0;
        while i < n
            invariant
                0 <= i <= n,
                n == orig.len(),
                orig == self.entries.deep_view(),
                orig == old(self).entries.deep_view(),
                locks_wf(orig),
                forall|j: int| 0 <= j < i ==> (#[trigger] orig[j]).id != account_id@,
            decreases n - i,
        {
            if self.entries[i].id == *account_id {
                proof {
                    lemma_find_lock(orig, account_id@);
                    let f = find_lock(orig, account_id@);
                    assert(f != -1) by {
                        if f == -1 {
                            assert(orig[i as int].id != account_id@);
                        }
                    }
                    assert(f == i as int) by {
                        if f < i as int {
                            assert(orig[f].id != account_id@);
                        }
                        if f > i as int {
                            assert(orig[i as int].id != account_id@);
                        }
                    }
                }
                let ghost prevseq = self.entries@;
                let entry = &mut self.entries[i];
                entry.held = false;
                proof {
                    assert(self.entries@ == prevseq.update(i as int, self.entries@[i as int]));
                    assert(self.entries.deep_view() =~= orig.update(
                        i as int,
                        LockEntryView { id: account_id@, held: false },
                    )) by {
                        assert forall|j: int|
                            0 <= j < orig.len() implies self.entries.deep_view()[j] == orig.update(
                            i as int,
                            LockEntryView { id: account_id@, held: false },
                        )[j] by {
                            assert(self.entries.deep_view()[j] == self.entries@[j].deep_view());
                            if j != i as int {
                                assert(self.entries@[j] == prevseq[j]);
                                assert(orig[j] == prevseq[j].deep_view());
                            }
                        }
                    }
                    let updated = self.entries.deep_view();
                    assert forall|p: int, q: int|
                        0 <= p < q < updated.len() implies (#[trigger] updated[p]).id
                        != (#[trigger] updated[q]).id by {
                        assert(orig[p].id != orig[q].id);
                        assert(updated[p].id == orig[p].id);
                        assert(updated[q].id == orig[q].id);
                    }
                }
                return ;
            }
            i = i + 1;
        }
    }
}

/// The decimal digit characters of a number, most significant first.
pub open spec fn dec_str(n: nat) -> Seq<char>
    decreases n,
{
    if n < 10 {
        seq![((48 + n) as u8) as char]
    } else {
        dec_str(n / 10).push(((48 + n % 10) as u8) as char)
    }
}

/// The prefix of a generated account alias.
pub open spec fn default_alias_prefix() -> Seq<char> {
    seq!['A', 'c', 'c', 'o', 'u', 'n', 't', ' ']
}

/// Relies on format! with std's decimal rendering of usize for the default
/// alias of the account at the given position.
#[verifier::external_body]
fn default_alias(count: usize) -> (r: String)
    ensures
        r@ == default_alias_prefix() + dec_str(count as nat),
{
    format!("Account {}", count)
}

/// Relies on chrono::Utc::now and DateTime::timestamp for the wall clock;
/// nothing is promised of the result, the time being outside the program.
#[verifier::external_body]
fn current_timestamp() -> u64 {
    u64::try_from(chrono::Utc::now().timestamp()).unwrap_or(0)
}

/// Relies on bip39::Mnemonic::generate and its Display rendering for a fresh
/// random 24-word mnemonic; nothing is promised of the words, the entropy
/// being random.
#[verifier::external_body]
fn fresh_mnemonic() -> Option<String> {
    bip39::Mnemonic::generate(24).ok().map(|m| m.to_string())
}

/// Account initialiser.
pub struct AccountInitialiser {
    /// The mnemonic handed to the signer, if the caller brings one.
    pub mnemonic: Option<String>,
    /// The account alias; generated from the account count when unset.
    pub alias: Option<String>,
    /// The creation time; the wall clock when unset.
    pub created_at: Option<u64>,
    /// Locally stored messages to start from.
    pub messages: Vec<Message>,
    /// Locally stored address history to start from.
    pub addresses: Vec<Address>,
    /// The client options of the account.
    pub client_options: ClientOptions,
    /// Whether the initial persistence checks are skipped.
    pub skip_persistance: bool,
    /// Location of the persisted record.
    pub storage_path: String,
    /// The signing backend of the account.
    pub signer_type: Option<SignerType>,
}

impl AccountInitialiser {
    /// Initialises the account builder.
    pub fn new(client_options: ClientOptions, storage_path: String) -> (r: Self)
        ensures
            r.mnemonic is None,
            r.alias is None,
            r.created_at is None,
            r.messages.deep_view() == Seq::<MessageView>::empty(),
            r.addresses.deep_view() == Seq::<AddressView>::empty(),
            r.client_options == client_options,
            !r.skip_persistance,
            r.storage_path == storage_path,
            r.signer_type == Some(SignerType::Stronghold),
    {
        let r = AccountInitialiser {
            mnemonic: None,
            alias: None,
            created_at: None,
            messages: Vec::new(),
            addresses: Vec::new(),
            client_options,
            skip_persistance: false,
            storage_path,
            signer_type: Some(SignerType::Stronghold),
        };
        proof {
            assert(r.messages.deep_view() =~= Seq::<MessageView>::empty());
            assert(r.addresses.deep_view() =~= Seq::<AddressView>::empty());
        }
        r
    }

    /// Sets the account's signer type.
    pub fn signer_type(self, signer_type: SignerType) -> (r: Self)
        ensures
            r == (AccountInitialiser { signer_type: Some(signer_type), ..self }),
    {
        AccountInitialiser { signer_type: Some(signer_type), ..self }
    }

    /// Defines the account mnemonic. When importing an account from the
    /// vault, the mnemonic is not required.
    pub fn mnemonic(self, mnemonic: String) -> (r: Self)
        ensures
            r == (AccountInitialiser { mnemonic: Some(mnemonic), ..self }),
    {
        AccountInitialiser { mnemonic: Some(mnemonic), ..self }
    }

    /// Defines the account alias. If not defined, one is generated.
    pub fn alias(self, alias: String) -> (r: Self)
        ensures
            r == (AccountInitialiser { alias: Some(alias), ..self }),
    {
        AccountInitialiser { alias: Some(alias), ..self }
    }

    /// Time of account creation.
    pub fn created_at(self, created_at: u64) -> (r: Self)
        ensures
            r == (AccountInitialiser { created_at: Some(created_at), ..self }),
    {
        AccountInitialiser { created_at: Some(created_at), ..self }
    }

    /// Messages associated with the seed. The account can be initialised with
    /// locally stored messages.
    pub fn messages(self, messages: Vec<Message>) -> (r: Self)
        ensures
            r == (AccountInitialiser { messages: r.messages, ..self }),
            r.messages == messages,
    {
        AccountInitialiser { messages, ..self }
    }

    /// Address history associated with the seed. The account can be
    /// initialised with locally stored address history.
    pub fn addresses(self, addresses: Vec<Address>) -> (r: Self)
        ensures
            r == (AccountInitialiser { addresses: r.addresses, ..self }),
            r.addresses == addresses,
    {
        AccountInitialiser { addresses, ..self }
    }

    /// Skips the initial persistence checks, for account discovery.
    pub fn skip_persistance(self) -> (r: Self)
        ensures
            r == (AccountInitialiser { skip_persistance: true, ..self }),
    {
        AccountInitialiser { skip_persistance: true, ..self }
    }

    /// Initialises the account from the stored state the caller read: the
    /// number of stored accounts and the latest stored account, if any. The
    /// new account takes the next index as its provisional identifier; a
    /// mnemonic is generated for an environment-mnemonic signer on a first
    /// account when the environment defines none. Returns the account and
    /// the mnemonic the signer must be initialised with. Fails when the
    /// signer type is unset, or when the latest stored account is still
    /// unused (no messages and no balance).
    pub fn initialise(
        self,
        accounts_len: usize,
        latest_account: Option<&Account>,
        env_mnemonic_defined: bool,
    ) -> (r: Result<(Account, Option<String>), WalletError>)
        requires
            addresses_wf(self.addresses.deep_view()),
        ensures
            match r {
                Ok((account, mnemonic)) => {
                    &&& self.signer_type is Some
                    &&& account@.id == AccountIdView::Index(accounts_len)
                    &&& account@.signer_type == self.signer_type->0
                    &&& account@.index == accounts_len
                    &&& (self.alias is Some ==> account@.alias == self.alias->0@)
                    &&& (self.alias is None ==> account@.alias == default_alias_prefix()
                        + dec_str(accounts_len as nat))
                    &&& (self.created_at is Some ==> account@.created_at == self.created_at->0)
                    &&& account@.messages == self.messages.deep_view()
                    &&& account@.addresses == self.addresses.deep_view()
                    &&& account@.client_options == self.client_options@
                    &&& account@.storage_path == self.storage_path@
                    &&& !account@.has_pending_changes
                    &&& account.wf()
                    &&& !(self.signer_type->0 == SignerType::EnvMnemonic && accounts_len == 0
                        && !env_mnemonic_defined) ==> mnemonic == self.mnemonic
                    &&& !self.skip_persistance ==> match latest_account {
                        Some(latest) => !(latest@.messages.len() == 0 && spec_total_balance(
                            latest@.addresses,
                        ) == 0),
                        None => true,
                    }
                },
                Err(e) => {
                    &&& (e == WalletError::MissingSignerType <==> self.signer_type is None)
                    &&& (e == WalletError::LatestAccountIsEmpty ==> !self.skip_persistance
                        && match latest_account {
                        Some(latest) => latest@.messages.len() == 0 && spec_total_balance(
                            latest@.addresses,
                        ) == 0,
                        None => false,
                    })
                    &&& (e == WalletError::MissingSignerType || e
                        == WalletError::LatestAccountIsEmpty)
                },
            },
    {
        let signer_type = match self.signer_type {
            Some(s) => s,
            None => {
                return Err(WalletError::MissingSignerType);
            },
        };
        let alias = match self.alias {
            Some(a) => a,
            None => default_alias(accounts_len),
        };
        let created_at = match self.created_at {
            Some(t) => t,
            None => current_timestamp(),
        };
        let mut mnemonic = self.mnemonic;
        if signer_type == SignerType::EnvMnemonic && accounts_len == 0 && !env_mnemonic_defined {
            match fresh_mnemonic() {
                Some(m) => {
                    mnemonic = Some(m);
                },
                None => {},
            }
        }
        if !self.skip_persistance {
            match latest_account {
                Some(latest) => {
                    if latest.messages.is_empty() && latest.has_zero_balance() {
                        return Err(WalletError::LatestAccountIsEmpty);
                    }
                },
                None => {},
            }
        }
        let account = Account {
            id: AccountIdentifier::Index(accounts_len),
            signer_type,
            index: accounts_len,
            alias,
            created_at,
            messages: self.messages,
            addresses: self.addresses,
            client_options: self.client_options,
            storage_path: self.storage_path,
            has_pending_changes: false,
        };
        Ok((account, mnemonic))
    }
}

/// Upserts one address by derivation index: replace in place when the index
/// is present, append when it is novel. Untouched entries keep their places,
/// so a well-formed set stays well formed and the length grows exactly when
/// the index is novel.
pub fn upsert_address(addresses: &mut Vec<Address>, address: Address)
    requires
        addresses_wf(old(addresses).deep_view()),
    ensures
        final(addresses).deep_view() == spec_upsert_address(old(addresses).deep_view(), address@),
        addresses_wf(final(addresses).deep_view()),
        find_key_index(old(addresses).deep_view(), address@.key_index) == -1
            ==> final(addresses).deep_view() == old(addresses).deep_view().push(address@),
        find_key_index(old(addresses).deep_view(), address@.key_index) != -1
            ==> final(addresses).deep_view().len() == old(addresses).deep_view().len(),
{
    let ghost orig = addresses.deep_view();
    proof {
        lemma_find_key_index(orig, address@.key_index);
    }
    let n = addresses.len();
    let mut i: usize = 0;
    while i < n
        invariant
            0 <= i <= n,
            n == orig.len(),
            orig == addresses.deep_view(),
            orig == old(addresses).deep_view(),
            forall|j: int| 0 <= j < i ==> #[trigger] orig[j].key_index != address@.key_index,
            addresses_wf(orig),
        decreases n - i,
    {
        if addresses[i].key_index == address.key_index {
            proof {
                let k = address@.key_index;
                assert(orig[i as int].key_index == k);
                lemma_find_key_index(orig, k);
                let f = find_key_index(orig, k);
                assert(f != -1) by {
                    if f == -1 {
                        assert(orig[i as int].key_index != k);
                    }
                }
                assert(f == i as int) by {
                    if f < i as int {
                        assert(orig[f].key_index != k);
                    }
                    if f > i as int {
                        assert(orig[i as int].key_index != k);
                    }
                }
            }
            let ghost vs = addresses@;
            let ghost av = address@;
            addresses[i] = address;
            proof {
                assert(addresses@ == vs.update(i as int, addresses@[i as int]));
                assert(addresses@[i as int]@ == av);
                let updated = addresses.deep_view();
                assert(updated.len() == orig.len());
                assert forall|j: int| 0 <= j < orig.len() implies updated[j] == orig.update(
                    i as int,
                    av,
                )[j] by {
                    assert(updated[j] == addresses@[j].deep_view());
                    if j != i as int {
                        assert(addresses@[j] == vs[j]);
                        assert(orig[j] == vs[j].deep_view());
                    }
                }
                assert(updated =~= orig.update(i as int, av));
                assert forall|p: int, q: int|
                    0 <= p < q < updated.len() implies #[trigger] updated[p].key_index
                    != #[trigger] updated[q].key_index by {
                    assert(orig[p].key_index != orig[q].key_index);
                }
                assert(find_key_index(orig, av.key_index) == i as int);
                assert(spec_upsert_address(orig, av) == orig.update(i as int, av));
                assert(addresses.deep_view() == spec_upsert_address(orig, av));
            }
            return ;
        }
        i = i + 1;
    }
    proof {
        lemma_find_key_index(orig, address@.key_index);
    }
    addresses.push(address);
    proof {
        let extended = addresses.deep_view();
        assert forall|j: int| 0 <= j < extended.len() implies extended[j] == orig.push(
            address@,
        )[j] by {
        }
        assert(extended =~= orig.push(address@));
        assert forall|p: int, q: int|
            0 <= p < q < extended.len() implies #[trigger] extended[p].key_index
            != #[trigger] extended[q].key_index by {
            if q < orig.len() {
                assert(orig[p].key_index != orig[q].key_index);
            } else {
                assert(orig[p].key_index != address@.key_index);
            }
        }
    }
}

} // verus!
