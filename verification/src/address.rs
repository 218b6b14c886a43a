//! Addresses of an account: the chain address value, its balance and its
//! derivation index, which is the sole identity key of an address.

use vstd::prelude::*;
use vstd::std_specs::cmp::PartialEqSpec;

use crate::WalletError;
use crate::account::Account;

verus! {

/// A chain address value, held as raw bytes.
#[derive(Debug)]
pub struct AddressValue {
    /// The raw bytes of the address.
    pub bytes: Vec<u8>,
}

impl View for AddressValue {
    type V = Seq<u8>;

    open spec fn view(&self) -> Seq<u8> {
        self.bytes@
    }
}

impl DeepView for AddressValue {
    type V = Seq<u8>;

    open spec fn deep_view(&self) -> Seq<u8> {
        self.bytes@
    }
}

impl AddressValue {
    /// Wraps raw address bytes.
    pub fn new(bytes: Vec<u8>) -> (r: Self)
        ensures
            r@ == bytes@,
    {
        AddressValue { bytes }
    }
}

impl Clone for AddressValue {
    fn clone(&self) -> (res: Self)
        ensures
            res@ == self@,
    {
        let bytes = self.bytes.clone();
        proof {
            assert(bytes@ =~= self.bytes@);
        }
        AddressValue { bytes }
    }
}

impl PartialEq for AddressValue {
    fn eq(&self, other: &Self) -> (r: bool) {
        let r = self.bytes == other.bytes;
        proof {
            if self.bytes@ == other.bytes@ {
                assert(self.bytes.eq_spec(&other.bytes));
            }
            if r {
                assert(self.bytes@ =~= other.bytes@);
            }
        }
        r
    }
}

impl vstd::std_specs::cmp::PartialEqSpecImpl for AddressValue {
    open spec fn obeys_eq_spec() -> bool {
        true
    }

    open spec fn eq_spec(&self, other: &Self) -> bool {
        self@ == other@
    }
}

/// The mathematical value of one derived address.
#[verifier::ext_equal]
pub ghost struct AddressView {
    /// The chain address bytes.
    pub address: Seq<u8>,
    /// The balance in base units.
    pub balance: u64,
    /// The derivation index.
    pub key_index: usize,
    /// The display checksum.
    pub checksum: Seq<char>,
    /// Whether this is a change address.
    pub internal: bool,
}

/// One derived address belonging to an account.
#[derive(Debug)]
pub struct Address {
    /// The chain address value, immutable once built.
    pub address: AddressValue,
    /// The balance last reported for this address, in base units.
    pub balance: u64,
    /// The derivation index; the sole identity key of an address.
    pub key_index: usize,
    /// The display checksum derived from the address value.
    pub checksum: String,
    /// Whether this is a change address, excluded from latest-address lookup.
    pub internal: bool,
}

impl View for Address {
    type V = AddressView;

    open spec fn view(&self) -> AddressView {
        AddressView {
            address: self.address@,
            balance: self.balance,
            key_index: self.key_index,
            checksum: self.checksum@,
            internal: self.internal,
        }
    }
}

impl DeepView for Address {
    type V = AddressView;

    open spec fn deep_view(&self) -> AddressView {
        self.view()
    }
}

impl Clone for Address {
    fn clone(&self) -> (res: Self)
        ensures
            res@ == self@,
    {
        Address {
            address: self.address.clone(),
            balance: self.balance,
            key_index: self.key_index,
            checksum: self.checksum.clone(),
            internal: self.internal,
        }
    }
}

impl PartialEq for Address {
    /// Two addresses are the same address exactly when their derivation
    /// indexes agree; value and balance play no part in identity.
    fn eq(&self, other: &Self) -> (r: bool) {
        self.key_index == other.key_index
    }
}

impl vstd::std_specs::cmp::PartialEqSpecImpl for Address {
    open spec fn obeys_eq_spec() -> bool {
        true
    }

    open spec fn eq_spec(&self, other: &Self) -> bool {
        self.key_index == other.key_index
    }
}

/// Derives the display checksum of an address value. The checksum scheme is
/// not settled yet, so every address carries the empty checksum.
pub fn generate_checksum(address: &AddressValue) -> (r: String)
    ensures
        r@ =~= Seq::<char>::empty(),
{
    String::new()
}

/// The address builder.
pub struct AddressBuilder {
    /// The chain address value to build with.
    pub address: Option<AddressValue>,
    /// The balance to build with.
    pub balance: Option<u64>,
    /// The derivation index to build with.
    pub key_index: Option<usize>,
    /// Whether the built address is a change address.
    pub internal: bool,
}

impl Default for AddressBuilder {
    fn default() -> (r: Self)
        ensures
            r.address is None,
            r.balance is None,
            r.key_index is None,
            !r.internal,
    {
        AddressBuilder { address: None, balance: None, key_index: None, internal: false }
    }
}

impl AddressBuilder {
    /// Initialises a new instance of the address builder.
    pub fn new() -> (r: AddressBuilder)
        ensures
            r.address is None,
            r.balance is None,
            r.key_index is None,
            !r.internal,
    {
        Default::default()
    }

    /// Defines the address.
    pub fn address(self, address: AddressValue) -> (r: Self)
        ensures
            r.address is Some && r.address->0@ == address@,
            r.balance == self.balance,
            r.key_index == self.key_index,
            r.internal == self.internal,
    {
        AddressBuilder { address: Some(address), ..self }
    }

    /// Sets the address balance.
    pub fn balance(self, balance: u64) -> (r: Self)
        ensures
            r == (AddressBuilder { balance: Some(balance), ..self }),
    {
        AddressBuilder { balance: Some(balance), ..self }
    }

    /// Sets the address key index.
    pub fn key_index(self, key_index: usize) -> (r: Self)
        ensures
            r == (AddressBuilder { key_index: Some(key_index), ..self }),
    {
        AddressBuilder { key_index: Some(key_index), ..self }
    }

    /// Marks the built address as a change address.
    pub fn internal(self, internal: bool) -> (r: Self)
        ensures
            r == (AddressBuilder { internal, ..self }),
    {
        AddressBuilder { internal, ..self }
    }

    /// Builds the address; every field but the change flag is required.
    pub fn build(self) -> (r: Result<Address, WalletError>)
        ensures
            match r {
                Ok(a) => {
                    &&& self.address is Some
                    &&& self.balance is Some
                    &&& self.key_index is Some
                    &&& a@ == (AddressView {
                        address: self.address->0@,
                        balance: self.balance->0,
                        key_index: self.key_index->0,
                        checksum: Seq::<char>::empty(),
                        internal: self.internal,
                    })
                },
                Err(e) => {
                    &&& e == WalletError::MissingField
                    &&& (self.address is None || self.balance is None || self.key_index is None)
                },
            },
    {
        let iota_address = match self.address {
            Some(a) => a,
            None => {
                return Err(WalletError::MissingField);
            },
        };
        let balance = match self.balance {
            Some(b) => b,
            None => {
                return Err(WalletError::MissingField);
            },
        };
        let key_index = match self.key_index {
            Some(k) => k,
            None => {
                return Err(WalletError::MissingField);
            },
        };
        let checksum = generate_checksum(&iota_address);
        let a = Address {
            address: iota_address,
            balance,
            key_index,
            checksum,
            internal: self.internal,
        };
        proof {
            assert(a@ =~= AddressView {
                address: self.address->0@,
                balance: self.balance->0,
                key_index: self.key_index->0,
                checksum: Seq::<char>::empty(),
                internal: self.internal,
            });
        }
        Ok(a)
    }
}

/// Whether the address is spent: the ledger holds a negative-valued transfer
/// referencing it. The listing of addresses filters on this flag.
pub open spec fn spec_is_spent(
    messages: Seq<crate::message::MessageView>,
    address: Seq<u8>,
) -> bool {
    exists|i: int|
        0 <= i < messages.len() && #[trigger] messages[i].value < 0 && messages[i].address
            == address
}

/// Reports the spent flag of the address: whether a negative-valued message
/// of the account references it. The accessor keeps its historical name; its
/// contract is the authority on what it returns.
pub fn is_unspent(account: &Account, address: &AddressValue) -> (r: bool)
    ensures
        r == spec_is_spent(account.messages.deep_view(), address@),
{
    let ghost msgs = account.messages.deep_view();
    let mut i: usize = 0;
    let n = account.messages.len();
    while i < n
        invariant
            0 <= i <= n,
            n == msgs.len(),
            msgs == account.messages.deep_view(),
            forall|j: int|
                0 <= j < i ==> !(#[trigger] msgs[j].value < 0 && msgs[j].address == address@),
        decreases n - i,
    {
        let m = &account.messages[i];
        if m.value < 0 && m.address == *address {
            assert(msgs[i as int].value < 0 && msgs[i as int].address == address@);
            return true;
        }
        i = i + 1;
    }
    false
}

} // verus!
