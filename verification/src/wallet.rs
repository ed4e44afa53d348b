//! Wallet identities carried by transactions: addresses, compressed public
//! keys and signatures.
use vstd::prelude::*;
use crate::blockchain::hash::{hex_decode, hex_encode};
use crate::text::{hex_decode_spec, hex_encode_spec};

verus! {

/// An account address, as text.
#[derive(Debug, PartialEq, Eq, Hash)]
pub struct Address(pub String);

impl View for Address {
    type V = Seq<char>;

    open spec fn view(&self) -> Seq<char> {
        self.0@
    }
}

impl Clone for Address {
    fn clone(&self) -> (r: Self)
        ensures
            r@ == self@,
    {
        Address(self.0.clone())
    }
}

impl Address {
    pub fn new(text: String) -> (r: Self)
        ensures
            r@ == text@,
    {
        Address(text)
    }

    pub fn as_str(&self) -> (r: &str)
        ensures
            r@ == self@,
    {
        self.0.as_str()
    }

    /// Whether two addresses are the same text.
    pub fn same_as(&self, other: &Address) -> (r: bool)
        ensures
            r == (self@ == other@),
    {
        self.0.eq(&other.0)
    }
}

/// A compressed public key (33 bytes).
#[derive(Debug, Clone, Copy, PartialEq, Eq)]
pub struct PublicKey(pub [u8; 33]);

impl View for PublicKey {
    type V = Seq<u8>;

    open spec fn view(&self) -> Seq<u8> {
        self.0@
    }
}

impl PublicKey {
    pub fn new(bytes: [u8; 33]) -> (r: Self)
        ensures
            r@ == bytes@,
    {
        PublicKey(bytes)
    }

    /// Lower-case hex text of the key.
    pub fn to_hex(&self) -> (r: String)
        ensures
            r@ == hex_encode_spec(self@),
    {
        hex_encode(self.0.as_slice())
    }

    /// The key whose hex text this is: 66 hex digits of either case.
    pub fn from_hex(text: &str) -> (r: Option<Self>)
        ensures
            r is Some <==> (hex_decode_spec(text@) is Some && hex_decode_spec(text@)->0.len() == 33),
            r matches Some(k) ==> Some(k@) == hex_decode_spec(text@),
    {
        let bytes = hex_decode(text)?;
        if bytes.len() != 33 {
            return None;
        }
        let mut array = [0u8; 33];
        let mut i: usize = 0;
        while i < 33
            invariant
                i <= 33,
                bytes@.len() == 33,
                forall|k: int| 0 <= k < i ==> array@[k] == bytes@[k],
            decreases 33 - i,
        {
            array[i] = bytes[i];
            i += 1;
        }
        assert(array@ =~= bytes@);
        Some(PublicKey(array))
    }
}

/// A signature, as its bytes.
#[derive(Debug, PartialEq, Eq)]
pub struct Signature(pub Vec<u8>);

impl View for Signature {
    type V = Seq<u8>;

    open spec fn view(&self) -> Seq<u8> {
        self.0@
    }
}

impl Clone for Signature {
    fn clone(&self) -> (r: Self)
        ensures
            r@ == self@,
    {
        Signature(self.0.clone())
    }
}

impl Signature {
    pub fn new(bytes: Vec<u8>) -> (r: Self)
        ensures
            r@ == bytes@,
    {
        Signature(bytes)
    }

    /// Lower-case hex text of the signature.
    pub fn to_hex(&self) -> (r: String)
        ensures
            r@ == hex_encode_spec(self@),
    {
        hex_encode(self.0.as_slice())
    }

    /// The signature whose hex text this is.
    pub fn from_hex(text: &str) -> (r: Option<Self>)
        ensures
            match r {
                Some(s) => hex_decode_spec(text@) == Some(s@),
                None => hex_decode_spec(text@) is None,
            },
    {
        match hex_decode(text) {
            Some(b) => Some(Signature(b)),
            None => None,
        }
    }
}

} // verus!
