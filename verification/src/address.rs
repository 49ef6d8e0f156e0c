use vstd::prelude::*;

use crate::keyed_map::MapKey;
use vstd::std_specs::cmp::PartialEqSpecImpl;

verus! {

broadcast use vstd::array::group_array_axioms;

/// An account or contract address, held as its canonical 56-character strkey text.
#[derive(Clone, Copy, Debug)]
pub struct Address {
    strkey: [u8; 56],
}

impl View for Address {
    type V = Address;

    open spec fn view(&self) -> Address {
        *self
    }
}

impl Address {
    /// The strkey text of the address.
    pub closed spec fn text(&self) -> Seq<u8> {
        self.strkey@
    }

    /// Builds an address from its strkey text.
    pub fn new(strkey: [u8; 56]) -> (r: Address)
        ensures
            r.text() == strkey@,
    {
        Address { strkey }
    }

    /// The strkey text of the address.
    pub fn strkey(&self) -> (r: [u8; 56])
        ensures
            r@ == self.text(),
    {
        self.strkey
    }

    /// Two addresses are equal exactly when their texts are.
    pub proof fn lemma_text_determines(a: Address, b: Address)
        ensures
            (a == b) <==> (a.text() == b.text()),
    {
        if a.text() == b.text() {
            assert(a.strkey =~= b.strkey);
        }
    }

    /// Whether two addresses denote the same account.
    pub fn same(&self, other: &Address) -> (r: bool)
        ensures
            r == (*self == *other),
    {
        proof {
            Address::lemma_text_determines(*self, *other);
        }
        let mut i: usize = 0;
        while i < 56
            invariant
                i <= 56,
                forall|j: int| 0 <= j < i ==> self.strkey@[j] == other.strkey@[j],
            decreases 56 - i,
        {
            if self.strkey[i] != other.strkey[i] {
                return false;
            }
            i = i + 1;
        }
        assert(self.strkey@ =~= other.strkey@);
        true
    }
}

impl PartialEq for Address {
    fn eq(&self, other: &Self) -> (r: bool) {
        self.same(other)
    }
}

impl Eq for Address {
}

impl PartialEqSpecImpl for Address {
    open spec fn obeys_eq_spec() -> bool {
        true
    }

    open spec fn eq_spec(&self, other: &Address) -> bool {
        *self == *other
    }
}

impl MapKey for Address {
    fn same_key(&self, other: &Self) -> (r: bool) {
        self.same(other)
    }
}

/// Identifier of a bridge operation: 32 bytes.
#[derive(Clone, Copy, Debug)]
pub struct BridgeId {
    bytes: [u8; 32],
}

impl View for BridgeId {
    type V = Seq<u8>;

    closed spec fn view(&self) -> Seq<u8> {
        self.bytes@
    }
}

impl BridgeId {
    /// Builds an identifier from its bytes.
    pub fn new(bytes: [u8; 32]) -> (r: BridgeId)
        ensures
            r@ == bytes@,
    {
        BridgeId { bytes }
    }

    /// The bytes of the identifier.
    pub fn bytes(&self) -> (r: [u8; 32])
        ensures
            r@ == self@,
    {
        self.bytes
    }
}

impl MapKey for BridgeId {
    fn same_key(&self, other: &Self) -> (r: bool) {
        let mut i: usize = 0;
        while i < 32
            invariant
                i <= 32,
                forall|j: int| 0 <= j < i ==> self.bytes@[j] == other.bytes@[j],
            decreases 32 - i,
        {
            if self.bytes[i] != other.bytes[i] {
                return false;
            }
            i = i + 1;
        }
        assert(self.bytes@ =~= other.bytes@);
        true
    }
}

/// A holder of a given asset: the pair of an asset id and an address.
#[derive(Clone, Copy, Debug)]
pub struct AssetAccount {
    pub asset_id: u64,
    pub account: Address,
}

impl View for AssetAccount {
    type V = AssetAccount;

    open spec fn view(&self) -> AssetAccount {
        *self
    }
}

impl MapKey for AssetAccount {
    fn same_key(&self, other: &Self) -> (r: bool) {
        self.asset_id == other.asset_id && self.account.same(&other.account)
    }
}

impl MapKey for u64 {
    fn same_key(&self, other: &Self) -> (r: bool) {
        *self == *other
    }
}

/// `n` with its `i` lowest base-256 digits dropped.
pub open spec fn shifted(n: nat, i: nat) -> nat
    decreases i,
{
    if i == 0 {
        n
    } else {
        shifted(n, (i - 1) as nat) / 256
    }
}

/// The bytes of the identifier derived from a nonce: its eight little-endian bytes,
/// followed by zeros.
pub open spec fn nonce_id_bytes(nonce: u64) -> Seq<u8> {
    Seq::new(32, |i: int| if i < 8 { (shifted(nonce as nat, i as nat) % 256) as u8 } else { 0u8 })
}

/// Two numbers whose digits below position `k` agree and whose higher parts agree are equal.
proof fn lemma_digits_determine(a: nat, b: nat, k: nat)
    requires
        shifted(a, k) == shifted(b, k),
        forall|i: nat| i < k ==> #[trigger] shifted(a, i) % 256 == shifted(b, i) % 256,
    ensures
        a == b,
    decreases k,
{
    if k > 0 {
        let p = (k - 1) as nat;
        assert(shifted(a, p) % 256 == shifted(b, p) % 256);
        assert(shifted(a, p) == 256 * shifted(a, k) + shifted(a, p) % 256);
        assert(shifted(b, p) == 256 * shifted(b, k) + shifted(b, p) % 256);
        lemma_digits_determine(a, b, p);
    }
}

/// Eight base-256 digits hold all of a `u64`.
proof fn lemma_shifted_u64(n: u64)
    ensures
        shifted(n as nat, 8) == 0,
{
    reveal_with_fuel(shifted, 9);
}

/// Distinct nonces give distinct identifiers.
pub proof fn lemma_nonce_id_injective(a: u64, b: u64)
    requires
        nonce_id_bytes(a) == nonce_id_bytes(b),
    ensures
        a == b,
{
    lemma_shifted_u64(a);
    lemma_shifted_u64(b);
    assert forall|i: nat| i < 8 implies #[trigger] shifted(a as nat, i) % 256 == shifted(b as nat, i) % 256 by {
        assert(nonce_id_bytes(a)[i as int] == nonce_id_bytes(b)[i as int]);
        assert(nonce_id_bytes(a)[i as int] == (shifted(a as nat, i) % 256) as u8);
        assert(nonce_id_bytes(b)[i as int] == (shifted(b as nat, i) % 256) as u8);
    }
    lemma_digits_determine(a as nat, b as nat, 8);
}

impl BridgeId {
    /// The identifier derived from a nonce.
    pub fn from_nonce(nonce: u64) -> (r: BridgeId)
        ensures
            r@ == nonce_id_bytes(nonce),
    {
        let mut bytes: [u8; 32] = [0u8; 32];
        let mut rest: u64 = nonce;
        let mut i: usize = 0;
        while i < 8
            invariant
                i <= 8,
                rest == shifted(nonce as nat, i as nat),
                forall|j: int| 0 <= j < i ==> bytes@[j] == nonce_id_bytes(nonce)[j],
                forall|j: int| 8 <= j < 32 ==> bytes@[j] == 0u8,
            decreases 8 - i,
        {
            bytes[i] = (rest % 256) as u8;
            rest = rest / 256;
            i = i + 1;
        }
        assert(bytes@ =~= nonce_id_bytes(nonce));
        BridgeId { bytes }
    }
}

impl BridgeId {
    /// The nonce whose identifier this is, if it is one.
    pub fn nonce(&self) -> (r: Option<u64>)
        ensures
            r matches Some(n) ==> self@ == nonce_id_bytes(n),
            (exists|n: u64| self@ == #[trigger] nonce_id_bytes(n)) ==> r is Some,
    {
        let ghost w = choose|n: u64| self@ == nonce_id_bytes(n);
        proof {
            lemma_shifted_u64(w);
        }
        let mut acc: u64 = 0;
        let mut i: usize = 8;
        while i > 0
            invariant
                i <= 8,
                w == choose|n: u64| self@ == nonce_id_bytes(n),
                self@ == nonce_id_bytes(w) ==> acc == shifted(w as nat, i as nat),
            decreases i,
        {
            i = i - 1;
            let b = self.bytes[i] as u64;
            proof {
                if self@ == nonce_id_bytes(w) {
                    assert(self.bytes@[i as int] == nonce_id_bytes(w)[i as int]);
                    let p = shifted(w as nat, i as nat);
                    assert(shifted(w as nat, (i + 1) as nat) == p / 256);
                    assert(p == 256 * (p / 256) + p % 256);
                    assert(p <= u64::MAX) by {
                        lemma_shifted_le(w as nat, i as nat);
                    }
                    assert(b == p % 256);
                    assert(acc <= (u64::MAX - b) / 256);
                }
            }
            if acc > (u64::MAX - b) / 256 {
                proof {
                    if exists|n: u64| self@ == #[trigger] nonce_id_bytes(n) {
                        assert(self@ == nonce_id_bytes(w));
                    }
                }
                return None;
            }
            acc = acc * 256 + b;
        }
        let candidate = BridgeId::from_nonce(acc);
        proof {
            if exists|n: u64| self@ == #[trigger] nonce_id_bytes(n) {
                assert(self@ == nonce_id_bytes(w));
                assert(acc == w);
            }
        }
        if candidate.same_key(self) {
            Some(acc)
        } else {
            None
        }
    }
}

/// Dropping digits never increases a number.
proof fn lemma_shifted_le(n: nat, i: nat)
    ensures
        shifted(n, i) <= n,
    decreases i,
{
    if i > 0 {
        lemma_shifted_le(n, (i - 1) as nat);
    }
}

} // verus!
