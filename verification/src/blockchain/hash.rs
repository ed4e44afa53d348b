//! 256-bit hashes: SHA-256 digests, their hex text and their value as a
//! 256-bit big-endian number.
use vstd::prelude::*;
use sha2::Digest;
use crate::text::{hex_decode_spec, hex_encode_spec};

verus! {

/// The SHA-256 digest of some bytes.
pub uninterp spec fn sha256_spec(data: Seq<u8>) -> Seq<u8>;

/// `sha2::Sha256::digest`: the SHA-256 digest of the bytes.
#[verifier::external_body]
pub(crate) fn sha256(data: &[u8]) -> (r: [u8; 32])
    ensures
        r@ == sha256_spec(data@),
{
    sha2::Sha256::digest(data).into()
}

/// `hex::encode`: two lower-case hex digits per byte.
#[verifier::external_body]
pub(crate) fn hex_encode(bytes: &[u8]) -> (r: String)
    ensures
        r@ == hex_encode_spec(bytes@),
{
    hex::encode(bytes)
}

/// `hex::decode`: the bytes of pairs of hex digits of either case; nothing on an
/// odd length or any other character.
#[verifier::external_body]
pub(crate) fn hex_decode(text: &str) -> (r: Option<Vec<u8>>)
    ensures
        match r {
            Some(v) => hex_decode_spec(text@) == Some(v@),
            None => hex_decode_spec(text@) is None,
        },
{
    hex::decode(text).ok()
}

/// Value of bytes read as a big-endian number.
pub open spec fn be_value(b: Seq<u8>) -> nat
    decreases b.len(),
{
    if b.len() == 0 { 0 } else { (be_value(b.drop_last()) * 256 + b.last()) as nat }
}

/// Value of four 64-bit limbs, least significant first.
pub open spec fn limbs_value(l: [u64; 4]) -> nat {
    (l@[0] + l@[1] * 0x1_0000_0000_0000_0000nat + l@[2] * 0x1_0000_0000_0000_0000_0000_0000_0000_0000nat
        + l@[3] * 0x1_0000_0000_0000_0000_0000_0000_0000_0000_0000_0000_0000_0000nat) as nat
}

/// `2^k`.
pub open spec fn two_to(k: nat) -> nat
    decreases k,
{
    if k == 0 { 1 } else { 2 * two_to((k - 1) as nat) }
}

/// `U256::MAX >> bits` as a number.
pub open spec fn target_value(bits: u32) -> nat {
    if bits < 256 { (two_to((256 - bits) as nat) - 1) as nat } else { 0 }
}

/// `primitive_types::U256::from_big_endian` on 32 bytes, as its limbs.
#[verifier::external_body]
pub(crate) fn u256_from_be(bytes: &[u8; 32]) -> (r: [u64; 4])
    ensures
        limbs_value(r) == be_value(bytes@),
{
    primitive_types::U256::from_big_endian(bytes).0
}

/// `primitive_types::U256::MAX >> bits`, as its limbs.
#[verifier::external_body]
pub(crate) fn u256_max_shr(bits: u32) -> (r: [u64; 4])
    ensures
        limbs_value(r) == target_value(bits),
{
    (primitive_types::U256::MAX >> bits).0
}

/// `<=` on two `primitive_types::U256` given by their limbs.
#[verifier::external_body]
pub(crate) fn u256_le(a: [u64; 4], b: [u64; 4]) -> (r: bool)
    ensures
        r == (limbs_value(a) <= limbs_value(b)),
{
    primitive_types::U256(a) <= primitive_types::U256(b)
}

/// A 256-bit hash; ordered by its bytes.
#[derive(Clone, Copy, PartialEq, Eq, Hash, Debug, PartialOrd, Ord)]
pub struct Hash256 {
    bytes: [u8; 32],
}

impl View for Hash256 {
    type V = Seq<u8>;

    closed spec fn view(&self) -> Seq<u8> {
        self.bytes@
    }
}

pub open spec fn zero_bytes() -> Seq<u8> {
    Seq::new(32, |i: int| 0u8)
}

impl Hash256 {
    /// A hash is 32 bytes.
    pub proof fn lemma_len(self)
        ensures
            self@.len() == 32,
    {
    }

    pub fn new(bytes: [u8; 32]) -> (r: Self)
        ensures
            r@ == bytes@,
    {
        Hash256 { bytes }
    }

    pub fn zero() -> (r: Self)
        ensures
            r@ == zero_bytes(),
    {
        let r = Hash256 { bytes: [0u8; 32] };
        assert(r@ =~= zero_bytes());
        r
    }

    pub fn bytes(&self) -> (r: &[u8; 32])
        ensures
            r@ == self@,
    {
        &self.bytes
    }

    pub fn as_bytes(&self) -> (r: &[u8])
        ensures
            r@ == self@,
    {
        self.bytes.as_slice()
    }

    pub fn to_vec(&self) -> (r: Vec<u8>)
        ensures
            r@ == self@,
    {
        let mut out: Vec<u8> = Vec::new();
        let mut i: usize = 0;
        while i < 32
            invariant
                i <= 32,
                self@.len() == 32,
                out@ == self@.take(i as int),
            decreases 32 - i,
        {
            out.push(self.bytes[i]);
            assert(self@.take(i + 1) =~= self@.take(i as int).push(self@[i as int]));
            i += 1;
        }
        assert(self@.take(32) =~= self@);
        out
    }

    pub fn is_zero(&self) -> (r: bool)
        ensures
            r == (self@ == zero_bytes()),
    {
        let mut i: usize = 0;
        while i < 32
            invariant
                i <= 32,
                self@.len() == 32,
                forall|k: int| 0 <= k < i ==> self@[k] == 0,
            decreases 32 - i,
        {
            if self.bytes[i] != 0 {
                assert(self@[i as int] != zero_bytes()[i as int]);
                return false;
            }
            i += 1;
        }
        assert(self@ =~= zero_bytes());
        true
    }

    /// Lower-case hex text of the bytes.
    pub fn to_hex(&self) -> (r: String)
        ensures
            r@ == hex_encode_spec(self@),
    {
        hex_encode(self.bytes.as_slice())
    }

    /// The hash read as a 256-bit big-endian number, as four limbs, least
    /// significant first.
    pub fn to_u256(&self) -> (r: [u64; 4])
        ensures
            limbs_value(r) == be_value(self@),
    {
        u256_from_be(&self.bytes)
    }

    /// The hash whose hex text this is: 64 hex digits of either case.
    pub fn from_hex(hex_str: &str) -> (r: Result<Self, String>)
        ensures
            r is Ok <==> (hex_decode_spec(hex_str@) is Some && hex_decode_spec(hex_str@)->0.len() == 32),
            r matches Ok(h) ==> Some(h@) == hex_decode_spec(hex_str@),
    {
        let bytes = match hex_decode(hex_str) {
            Some(b) => b,
            None => return Err("Invalid hash".to_string()),
        };
        if bytes.len() != 32 {
            return Err("Invalid hash length".to_string());
        }
        let mut array = [0u8; 32];
        let mut i: usize = 0;
        while i < 32
            invariant
                i <= 32,
                bytes@.len() == 32,
                forall|k: int| 0 <= k < i ==> array@[k] == bytes@[k],
            decreases 32 - i,
        {
            array[i] = bytes[i];
            i += 1;
        }
        assert(array@ =~= bytes@);
        Ok(Hash256::new(array))
    }

    /// Whether two hashes are the same bytes.
    pub fn same_as(&self, other: &Hash256) -> (r: bool)
        ensures
            r == (self@ == other@),
    {
        let mut i: usize = 0;
        while i < 32
            invariant
                i <= 32,
                self@.len() == 32,
                other@.len() == 32,
                forall|k: int| 0 <= k < i ==> self@[k] == other@[k],
            decreases 32 - i,
        {
            if self.bytes[i] != other.bytes[i] {
                return false;
            }
            i += 1;
        }
        assert(self@ =~= other@);
        true
    }
}

impl Default for Hash256 {
    fn default() -> (r: Self)
        ensures
            r@ == zero_bytes(),
    {
        Hash256::zero()
    }
}

} // verus!
