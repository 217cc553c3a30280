//! Ethereum primitives: hashes, addresses and amounts.

pub use crate::uint::U256;
use crate::uint::{lemma_u256_bound, lemma_u256_of, pow2_256, u256_of};
use vstd::prelude::*;
use vstd::std_specs::cmp::PartialEqSpecImpl;
use vstd::std_specs::convert::FromSpecImpl;
use vstd::std_specs::ops::AddSpecImpl;

verus! {

/// Whether two byte arrays of one length hold the same bytes.
pub fn bytes_equal<const N: usize>(a: &[u8; N], b: &[u8; N]) -> (r: bool)
    ensures
        r == (*a == *b),
{
    let mut i: usize = 0;
    while i < N
        invariant
            0 <= i <= N,
            forall|j: int| 0 <= j < i ==> a@[j] == b@[j],
        decreases N - i,
    {
        if a[i] != b[i] {
            return false;
        }
        i += 1;
    }
    assert(a@ =~= b@);
    assert(*a =~= *b);
    true
}

/// A 160-bit hash, as 20 bytes.
#[derive(Clone, Copy, Debug, Eq, Hash)]
pub struct H160(pub [u8; 20]);

impl PartialEq for H160 {
    fn eq(&self, other: &H160) -> (r: bool) {
        bytes_equal(&self.0, &other.0)
    }
}

impl PartialEqSpecImpl for H160 {
    open spec fn obeys_eq_spec() -> bool {
        true
    }

    open spec fn eq_spec(&self, other: &H160) -> bool {
        *self == *other
    }
}

impl Default for H160 {
    fn default() -> (r: H160)
        ensures
            r.0@ == Seq::new(20, |i: int| 0u8),
    {
        let r = H160([0u8; 20]);
        assert(r.0@ =~= Seq::new(20, |i: int| 0u8));
        r
    }
}

/// A 256-bit hash, as 32 bytes.
#[derive(Clone, Copy, Debug, Eq, Hash)]
pub struct H256(pub [u8; 32]);

impl PartialEq for H256 {
    fn eq(&self, other: &H256) -> (r: bool) {
        bytes_equal(&self.0, &other.0)
    }
}

impl PartialEqSpecImpl for H256 {
    open spec fn obeys_eq_spec() -> bool {
        true
    }

    open spec fn eq_spec(&self, other: &H256) -> bool {
        *self == *other
    }
}

/// A contract address.
#[derive(Clone, Copy, Debug, Eq, Hash)]
pub struct ContractAddress(pub H160);

impl PartialEq for ContractAddress {
    fn eq(&self, other: &ContractAddress) -> (r: bool) {
        self.0 == other.0
    }
}

impl PartialEqSpecImpl for ContractAddress {
    open spec fn obeys_eq_spec() -> bool {
        true
    }

    open spec fn eq_spec(&self, other: &ContractAddress) -> bool {
        *self == *other
    }
}

/// An ERC20 token address.
#[derive(Clone, Copy, Debug, Eq, Hash)]
pub struct TokenAddress(pub H160);

impl PartialEq for TokenAddress {
    fn eq(&self, other: &TokenAddress) -> (r: bool) {
        self.0 == other.0
    }
}

impl PartialEqSpecImpl for TokenAddress {
    open spec fn obeys_eq_spec() -> bool {
        true
    }

    open spec fn eq_spec(&self, other: &TokenAddress) -> bool {
        *self == *other
    }
}

impl From<H160> for TokenAddress {
    fn from(inner: H160) -> (r: TokenAddress) {
        TokenAddress(inner)
    }
}

impl FromSpecImpl<H160> for TokenAddress {
    open spec fn obeys_from_spec() -> bool {
        true
    }

    open spec fn from_spec(inner: H160) -> TokenAddress {
        TokenAddress(inner)
    }
}

/// The wrapped native token (WETH or equivalent) of the network.
#[derive(Clone, Copy, Debug, Eq, Hash)]
pub struct WethAddress(pub H160);

impl PartialEq for WethAddress {
    fn eq(&self, other: &WethAddress) -> (r: bool) {
        self.0 == other.0
    }
}

impl PartialEqSpecImpl for WethAddress {
    open spec fn obeys_eq_spec() -> bool {
        true
    }

    open spec fn eq_spec(&self, other: &WethAddress) -> bool {
        *self == *other
    }
}

impl TokenAddress {
    /// Whether this is the marker address that stands for the chain's native
    /// token where an ERC20 address is expected: twenty bytes `0xee`.
    pub open spec fn is_native_marker(self) -> bool {
        self.0.0@ == Seq::new(20, |i: int| 0xeeu8)
    }

    /// The marker address of the native token.
    pub fn native() -> (r: TokenAddress)
        ensures
            r.is_native_marker(),
    {
        let r = TokenAddress(H160([0xeeu8; 20]));
        assert(r.0.0@ =~= Seq::new(20, |i: int| 0xeeu8));
        r
    }

    /// The token as an ERC20: the native marker becomes the wrapped native
    /// token, every other token is itself.
    pub open spec fn spec_as_erc20(self, wrapped: WethAddress) -> TokenAddress {
        if self.is_native_marker() {
            TokenAddress(wrapped.0)
        } else {
            self
        }
    }

    /// The token as an ERC20: the native marker becomes the wrapped native
    /// token, every other token is itself.
    pub fn as_erc20(self, wrapped: WethAddress) -> (r: TokenAddress)
        ensures
            r == self.spec_as_erc20(wrapped),
    {
        let marker = TokenAddress::native();
        proof {
            if self.is_native_marker() {
                assert(self.0.0 =~= marker.0.0);
            }
        }
        if self == marker {
            TokenAddress(wrapped.0)
        } else {
            self
        }
    }
}

/// An asset on the Ethereum blockchain: an amount of a token.
#[derive(Debug, Clone, Copy)]
pub struct Asset {
    pub amount: U256,
    pub token: TokenAddress,
}

/// An Ether amount in wei.
#[derive(Clone, Copy, Debug, Eq, Hash)]
pub struct Ether(pub U256);

impl PartialEq for Ether {
    fn eq(&self, other: &Ether) -> (r: bool) {
        self.0 == other.0
    }
}

impl PartialEqSpecImpl for Ether {
    open spec fn obeys_eq_spec() -> bool {
        true
    }

    open spec fn eq_spec(&self, other: &Ether) -> bool {
        *self == *other
    }
}

impl Default for Ether {
    fn default() -> (r: Ether)
        ensures
            r.0@ == 0,
    {
        Ether(U256::zero())
    }
}

/// A token amount in wei, always of the sell token of an order.
#[derive(Clone, Copy, Debug, Eq, Hash)]
pub struct SellTokenAmount(pub U256);

impl PartialEq for SellTokenAmount {
    fn eq(&self, other: &SellTokenAmount) -> (r: bool) {
        self.0 == other.0
    }
}

impl PartialEqSpecImpl for SellTokenAmount {
    open spec fn obeys_eq_spec() -> bool {
        true
    }

    open spec fn eq_spec(&self, other: &SellTokenAmount) -> bool {
        *self == *other
    }
}

impl Default for SellTokenAmount {
    fn default() -> (r: SellTokenAmount)
        ensures
            r.0@ == 0,
    {
        SellTokenAmount(U256::zero())
    }
}

impl From<U256> for SellTokenAmount {
    fn from(amount: U256) -> (r: SellTokenAmount) {
        SellTokenAmount(amount)
    }
}

impl FromSpecImpl<U256> for SellTokenAmount {
    open spec fn obeys_from_spec() -> bool {
        true
    }

    open spec fn from_spec(amount: U256) -> SellTokenAmount {
        SellTokenAmount(amount)
    }
}

/// Like [`Gas`] but can be negative to encode a gas discount.
#[derive(Copy, Clone, Debug, PartialEq, Eq, Structural)]
pub struct SignedGas(pub i64);

impl SignedGas {
    /// The signed amount.
    pub open spec fn value(self) -> int {
        self.0 as int
    }

    /// The signed amount.
    pub fn get(self) -> (r: i64)
        ensures
            r == self.value(),
    {
        self.0
    }
}

impl Default for SignedGas {
    fn default() -> (r: SignedGas)
        ensures
            r.value() == 0,
    {
        SignedGas(0)
    }
}

impl From<i64> for SignedGas {
    fn from(value: i64) -> (r: SignedGas) {
        SignedGas(value)
    }
}

impl FromSpecImpl<i64> for SignedGas {
    open spec fn obeys_from_spec() -> bool {
        true
    }

    open spec fn from_spec(value: i64) -> SignedGas {
        SignedGas(value)
    }
}

/// Gas amount.
#[derive(Clone, Copy, Debug)]
pub struct Gas(pub U256);

impl Default for Gas {
    fn default() -> (r: Gas)
        ensures
            r.0@ == 0,
    {
        Gas(U256::zero())
    }
}

/// The gas amount `gas` changed by `delta`, kept within 256 bits: a sum above
/// the largest 256-bit integer becomes that integer, a difference below zero
/// becomes zero.
pub open spec fn gas_plus(gas: nat, delta: int) -> nat {
    if gas + delta < 0 {
        0
    } else if gas + delta >= pow2_256() {
        (pow2_256() - 1) as nat
    } else {
        (gas + delta) as nat
    }
}

impl core::ops::Add<SignedGas> for Gas {
    type Output = Gas;

    /// Adds a signed amount of gas, saturating at both ends of the range.
    /// The most negative `i64` has no absolute value and is not accepted.
    fn add(self, rhs: SignedGas) -> (r: Gas) {
        let r = if rhs.0 > 0 {
            let delta: u64 = rhs.0 as u64;
            Gas(self.0.saturating_add(U256::from_u64(delta)))
        } else {
            let delta: u64 = (-rhs.0) as u64;
            Gas(self.0.saturating_sub(U256::from_u64(delta)))
        };
        proof {
            lemma_u256_bound(r.0);
            lemma_u256_of(r.0@);
        }
        r
    }
}

impl AddSpecImpl<SignedGas> for Gas {
    open spec fn obeys_add_spec() -> bool {
        true
    }

    open spec fn add_req(self, rhs: SignedGas) -> bool {
        rhs.value() != i64::MIN
    }

    open spec fn add_spec(self, rhs: SignedGas) -> Gas {
        Gas(u256_of(gas_plus(self.0@, rhs.value())))
    }
}

/// An address. Can be an externally owned account or a smart contract.
#[derive(Clone, Copy, Debug, Eq, Hash)]
pub struct Address(pub H160);

impl PartialEq for Address {
    fn eq(&self, other: &Address) -> (r: bool) {
        self.0 == other.0
    }
}

impl PartialEqSpecImpl for Address {
    open spec fn obeys_eq_spec() -> bool {
        true
    }

    open spec fn eq_spec(&self, other: &Address) -> bool {
        *self == *other
    }
}

impl Default for Address {
    fn default() -> (r: Address)
        ensures
            r.0.0@ == Seq::new(20, |i: int| 0u8),
    {
        Address(H160::default())
    }
}

/// The hash that identifies an on-chain transaction.
#[derive(Clone, Copy, Debug, Eq, Hash)]
pub struct TxId(pub H256);

impl PartialEq for TxId {
    fn eq(&self, other: &TxId) -> (r: bool) {
        self.0 == other.0
    }
}

impl PartialEqSpecImpl for TxId {
    open spec fn obeys_eq_spec() -> bool {
        true
    }

    open spec fn eq_spec(&self, other: &TxId) -> bool {
        *self == *other
    }
}

/// One entry of an access list: an address and the storage slots that a
/// transaction declares it will touch there.
#[derive(Debug, Clone)]
pub struct AccessListItem {
    pub address: H160,
    pub storage_keys: Vec<H256>,
}

/// An on-chain transaction.
#[derive(Debug, Clone)]
pub struct Tx {
    pub from: Address,
    pub to: Address,
    pub value: Ether,
    pub input: Vec<u8>,
    pub access_list: Vec<AccessListItem>,
}

/// An arbitrary Ethereum interaction that a settlement needs.
#[derive(Debug)]
pub struct Interaction {
    pub target: Address,
    pub value: Ether,
    pub calldata: Vec<u8>,
}

} // verus!
