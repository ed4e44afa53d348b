//! Block headers: their text form, and their hash.
use vstd::prelude::*;
use vstd::utf8::encode_utf8;
use crate::blockchain::hash::{sha256, sha256_spec, Hash256};
use crate::pepdex::order_journal::{join_strings, string_views};
use crate::text::{
    decimal, hex_decode_spec, hex_encode_spec, join_spec, lemma_hex_round_trip, lemma_parse_decimal, lemma_split_join,
    parse_u32, parse_u64, parse_unsigned, split, split_spec, u64_text,
};

verus! {

#[derive(Debug)]
pub struct BlockHeader {
    pub version: u32,
    pub previous_hash: Hash256,
    pub merkle_root: Hash256,
    pub timestamp: u64,
    pub bits: u32,
    pub nonce: u64,
}

/// A header as plain values.
pub type HeaderView = (u32, Seq<u8>, Seq<u8>, u64, u32, u64);

impl View for BlockHeader {
    type V = HeaderView;

    open spec fn view(&self) -> HeaderView {
        (self.version, self.previous_hash@, self.merkle_root@, self.timestamp, self.bits, self.nonce)
    }
}

impl Clone for BlockHeader {
    fn clone(&self) -> (r: Self)
        ensures
            r@ == self@,
    {
        BlockHeader {
            version: self.version,
            previous_hash: self.previous_hash,
            merkle_root: self.merkle_root,
            timestamp: self.timestamp,
            bits: self.bits,
            nonce: self.nonce,
        }
    }
}

pub open spec fn header_fields(h: HeaderView) -> Seq<Seq<char>> {
    seq![decimal(h.0 as nat), hex_encode_spec(h.1), hex_encode_spec(h.2), decimal(h.3 as nat), decimal(h.4 as nat), decimal(h.5 as nat)]
}

/// The text of a header: its fields separated by `#`, hashes in hex.
pub open spec fn header_text(h: HeaderView) -> Seq<char> {
    join_spec(header_fields(h), '#')
}

/// The hash of a header: the SHA-256 of its text.
pub open spec fn header_hash(h: HeaderView) -> Seq<u8> {
    sha256_spec(encode_utf8(header_text(h)))
}

pub open spec fn hash_field(s: Seq<char>) -> Option<Seq<u8>> {
    match hex_decode_spec(s) {
        Some(b) => if b.len() == 32 { Some(b) } else { None },
        None => None,
    }
}

/// What a header text reads as.
pub open spec fn parsed_header(data: Seq<char>) -> Option<HeaderView> {
    let p = split_spec(data, '#');
    if p.len() != 6 || parse_unsigned(p[0], u32::MAX as nat) is None || hash_field(p[1]) is None
        || hash_field(p[2]) is None || parse_unsigned(p[3], u64::MAX as nat) is None
        || parse_unsigned(p[4], u32::MAX as nat) is None || parse_unsigned(p[5], u64::MAX as nat) is None {
        None
    } else {
        Some((parse_unsigned(p[0], u32::MAX as nat)->0 as u32, hash_field(p[1])->0, hash_field(p[2])->0,
            parse_unsigned(p[3], u64::MAX as nat)->0 as u64, parse_unsigned(p[4], u32::MAX as nat)->0 as u32,
            parse_unsigned(p[5], u64::MAX as nat)->0 as u64))
    }
}

impl BlockHeader {
    /// A version-one header with nonce zero.
    pub fn new(previous_hash: Hash256, merkle_root: Hash256, timestamp: u64, bits: u32) -> (r: Self)
        ensures
            r@ == (1u32, previous_hash@, merkle_root@, timestamp, bits, 0u64),
    {
        BlockHeader { version: 1, previous_hash, merkle_root, timestamp, bits, nonce: 0 }
    }

    pub fn serialize(&self) -> (r: String)
        ensures
            r@ == header_text(self@),
    {
        let mut fields: Vec<String> = Vec::new();
        fields.push(u64_text(self.version as u64));
        fields.push(self.previous_hash.to_hex());
        fields.push(self.merkle_root.to_hex());
        fields.push(u64_text(self.timestamp));
        fields.push(u64_text(self.bits as u64));
        fields.push(u64_text(self.nonce));
        assert(string_views(fields@) =~= header_fields(self@));
        join_strings(&fields, '#')
    }

    pub fn deserialize(data: &str) -> (r: Result<Self, String>)
        ensures
            match r {
                Ok(h) => parsed_header(data@) == Some(h@),
                Err(_) => parsed_header(data@) is None,
            },
    {
        let parts = split(data, '#');
        if parts.len() != 6 {
            return Err("Invalid BlockHeader".to_string());
        }
        let version = match parse_u32(parts[0].as_str()) {
            Some(v) => v,
            None => return Err("Invalid version".to_string()),
        };
        let previous_hash = Hash256::from_hex(parts[1].as_str())?;
        let merkle_root = Hash256::from_hex(parts[2].as_str())?;
        let timestamp = match parse_u64(parts[3].as_str()) {
            Some(v) => v,
            None => return Err("Invalid timestamp".to_string()),
        };
        let bits = match parse_u32(parts[4].as_str()) {
            Some(v) => v,
            None => return Err("Invalid bits".to_string()),
        };
        let nonce = match parse_u64(parts[5].as_str()) {
            Some(v) => v,
            None => return Err("Invalid nonce".to_string()),
        };
        Ok(BlockHeader { version, previous_hash, merkle_root, timestamp, bits, nonce })
    }

    pub fn calculate_hash(&self) -> (r: Hash256)
        ensures
            r@ == header_hash(self@),
    {
        let text = self.serialize();
        Hash256::new(sha256(text.as_str().as_bytes()))
    }

    pub fn hash(&self) -> (r: Hash256)
        ensures
            r@ == header_hash(self@),
    {
        self.calculate_hash()
    }

    pub fn nonce(&self) -> (r: u64)
        ensures
            r == self.nonce,
    {
        self.nonce
    }

    pub fn bits(&self) -> (r: u32)
        ensures
            r == self.bits,
    {
        self.bits
    }

    pub fn set_nonce(&mut self, nonce: u64)
        ensures
            final(self)@ == (old(self)@.0, old(self)@.1, old(self)@.2, old(self)@.3, old(self)@.4, nonce),
    {
        self.nonce = nonce;
    }

    pub fn set_bits(&mut self, bits: u32)
        ensures
            final(self)@ == (old(self)@.0, old(self)@.1, old(self)@.2, old(self)@.3, bits, old(self)@.5),
    {
        self.bits = bits;
    }

    pub fn set_timestamp(&mut self, timestamp: u64)
        ensures
            final(self)@ == (old(self)@.0, old(self)@.1, old(self)@.2, timestamp, old(self)@.4, old(self)@.5),
    {
        self.timestamp = timestamp;
    }
}

/// Reading a header's text back gives the header.
pub proof fn lemma_header_round_trip(h: HeaderView)
    requires
        h.1.len() == 32,
        h.2.len() == 32,
    ensures
        parsed_header(header_text(h)) == Some(h),
{
    let f = header_fields(h);
    crate::text::lemma_decimal_digits(h.0 as nat);
    crate::text::lemma_decimal_digits(h.3 as nat);
    crate::text::lemma_decimal_digits(h.4 as nat);
    crate::text::lemma_decimal_digits(h.5 as nat);
    lemma_hex_round_trip(h.1);
    lemma_hex_round_trip(h.2);
    assert forall|i: int, j: int| 0 <= i < f.len() && 0 <= j < f[i].len() implies f[i][j] != '#' by {
        if i == 1 || i == 2 {
            assert(crate::text::is_hex_char(f[i][j]));
        } else {
            assert(crate::text::is_digit(f[i][j]));
        }
    }
    lemma_split_join(f, '#');
    lemma_parse_decimal(h.0 as nat, u32::MAX as nat);
    lemma_parse_decimal(h.3 as nat, u64::MAX as nat);
    lemma_parse_decimal(h.4 as nat, u32::MAX as nat);
    lemma_parse_decimal(h.5 as nat, u64::MAX as nat);
    assert(parsed_header(header_text(h)) =~= Some(h));
}

} // verus!
