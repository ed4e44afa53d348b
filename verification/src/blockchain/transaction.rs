//! Transactions: what they move, the text they are signed, stored and hashed as,
//! and reading that text back.
use vstd::prelude::*;
use vstd::utf8::encode_utf8;
use crate::blockchain::asset::{AssetId, PEP};
use crate::blockchain::hash::{sha256, sha256_spec, Hash256};
use crate::pepdex::order_journal::{free_of, join_strings, string_views};
use crate::text::{
    decimal, hex_decode_spec, hex_encode_spec, join_spec, lemma_hex_round_trip, lemma_parse_decimal, lemma_split_join,
    parse_u64, parse_u8, parse_unsigned, split, split_spec, u64_text, unicode_upper,
};
use crate::wallet::{Address, PublicKey, Signature};

verus! {

#[derive(Debug, Clone, Copy, PartialEq, Eq, Structural)]
pub enum TransactionType {
    Transfer,
    Mint,
    Burn,
    Stake,
    Vote,
}

/// The number a transaction type is written as.
pub open spec fn type_code(t: TransactionType) -> u8 {
    match t {
        TransactionType::Transfer => 0,
        TransactionType::Mint => 1,
        TransactionType::Burn => 2,
        TransactionType::Stake => 3,
        TransactionType::Vote => 4,
    }
}

pub open spec fn type_of_code(c: nat) -> Option<TransactionType> {
    if c == 0 {
        Some(TransactionType::Transfer)
    } else if c == 1 {
        Some(TransactionType::Mint)
    } else if c == 2 {
        Some(TransactionType::Burn)
    } else if c == 3 {
        Some(TransactionType::Stake)
    } else if c == 4 {
        Some(TransactionType::Vote)
    } else {
        None
    }
}

impl TransactionType {
    pub fn code(&self) -> (r: u8)
        ensures
            r == type_code(*self),
    {
        match self {
            TransactionType::Transfer => 0,
            TransactionType::Mint => 1,
            TransactionType::Burn => 2,
            TransactionType::Stake => 3,
            TransactionType::Vote => 4,
        }
    }
}

#[derive(Debug)]
pub struct Transaction {
    pub transaction_type: TransactionType,
    pub from: Address,
    pub to: Address,
    /// The asset moved, minted or burnt.
    pub asset: AssetId,
    /// Amount in whole units of the asset.
    pub amount: u64,
    /// The sender's account nonce.
    pub nonce: u64,
    /// The sender's public key.
    pub public_key: PublicKey,
    pub signature: Option<Signature>,
}

pub open spec fn sig_view(s: Option<Signature>) -> Option<Seq<u8>> {
    match s {
        Some(x) => Some(x@),
        None => None,
    }
}

/// A transaction as plain values.
pub type TxView = (TransactionType, Seq<char>, Seq<char>, Seq<char>, u64, u64, Seq<u8>, Option<Seq<u8>>);

impl View for Transaction {
    type V = TxView;

    open spec fn view(&self) -> TxView {
        (self.transaction_type, self.from@, self.to@, self.asset@, self.amount, self.nonce, self.public_key@,
            sig_view(self.signature))
    }
}

/// The views of a sequence of transactions.
pub open spec fn tx_views(t: Seq<Transaction>) -> Seq<TxView> {
    t.map_values(|x: Transaction| x@)
}

impl Clone for Transaction {
    fn clone(&self) -> (r: Self)
        ensures
            r@ == self@,
    {
        Transaction {
            transaction_type: self.transaction_type,
            from: self.from.clone(),
            to: self.to.clone(),
            asset: self.asset.clone(),
            amount: self.amount,
            nonce: self.nonce,
            public_key: self.public_key,
            signature: match &self.signature {
                Some(s) => Some(s.clone()),
                None => None,
            },
        }
    }
}

/// The fields every transaction text starts with.
pub open spec fn core_fields(t: TxView) -> Seq<Seq<char>> {
    seq![decimal(type_code(t.0) as nat), t.1, t.2, t.3, decimal(t.4 as nat), decimal(t.5 as nat), hex_encode_spec(t.6)]
}

/// The text a transaction is signed as: its fields without the signature,
/// separated by `|`.
pub open spec fn signing_text(t: TxView) -> Seq<char> {
    join_spec(core_fields(t), '|')
}

pub open spec fn sig_text(s: Option<Seq<u8>>) -> Seq<char> {
    match s {
        Some(b) => hex_encode_spec(b),
        None => Seq::empty(),
    }
}

/// The text a transaction is stored and hashed as: its fields and the signature
/// (empty when unsigned), separated by `|`.
pub open spec fn serialized_text(t: TxView) -> Seq<char> {
    join_spec(core_fields(t).push(sig_text(t.7)), '|')
}

/// The signature a field holds: none when it is empty.
pub open spec fn sig_of(s: Seq<char>) -> Option<Option<Seq<u8>>> {
    if s.len() == 0 {
        Some(None)
    } else {
        match hex_decode_spec(s) {
            Some(b) => Some(Some(b)),
            None => None,
        }
    }
}

pub open spec fn key_of(s: Seq<char>) -> Option<Seq<u8>> {
    match hex_decode_spec(s) {
        Some(b) => if b.len() == 33 { Some(b) } else { None },
        None => None,
    }
}

pub open spec fn type_field(s: Seq<char>) -> Option<TransactionType> {
    match parse_unsigned(s, u8::MAX as nat) {
        Some(c) => type_of_code(c),
        None => None,
    }
}

/// What a transaction text reads as: eight fields (`type|from|to|asset|amount|
/// nonce|pubkey|signature`), or the seven fields of the older format without the
/// asset, read as PEP.
pub open spec fn parsed_transaction(data: Seq<char>) -> Option<TxView> {
    let p = split_spec(data, '|');
    if p.len() == 8 {
        if type_field(p[0]) is None || parse_unsigned(p[4], u64::MAX as nat) is None
            || parse_unsigned(p[5], u64::MAX as nat) is None || key_of(p[6]) is None || sig_of(p[7]) is None {
            None
        } else {
            Some((type_field(p[0])->0, p[1], p[2], unicode_upper(p[3]),
                parse_unsigned(p[4], u64::MAX as nat)->0 as u64, parse_unsigned(p[5], u64::MAX as nat)->0 as u64,
                key_of(p[6])->0, sig_of(p[7])->0))
        }
    } else if p.len() == 7 {
        if type_field(p[0]) is None || parse_unsigned(p[3], u64::MAX as nat) is None
            || parse_unsigned(p[4], u64::MAX as nat) is None || key_of(p[5]) is None || sig_of(p[6]) is None {
            None
        } else {
            Some((type_field(p[0])->0, p[1], p[2], unicode_upper("PEP"@),
                parse_unsigned(p[3], u64::MAX as nat)->0 as u64, parse_unsigned(p[4], u64::MAX as nat)->0 as u64,
                key_of(p[5])->0, sig_of(p[6])->0))
        }
    } else {
        None
    }
}

impl Transaction {
    /// A PEP transaction.
    pub fn new(from: Address, to: Address, amount: u64, nonce: u64, public_key: PublicKey, transaction_type: TransactionType) -> (r: Self)
        ensures
            r@ == (transaction_type, from@, to@, unicode_upper("PEP"@), amount, nonce, public_key@, None::<Seq<u8>>),
    {
        Transaction::new_asset(from, to, AssetId::new(PEP), amount, nonce, public_key, transaction_type)
    }

    /// A transaction of the given asset.
    pub fn new_asset(
        from: Address,
        to: Address,
        asset: AssetId,
        amount: u64,
        nonce: u64,
        public_key: PublicKey,
        transaction_type: TransactionType,
    ) -> (r: Self)
        ensures
            r@ == (transaction_type, from@, to@, asset@, amount, nonce, public_key@, None::<Seq<u8>>),
    {
        Transaction { transaction_type, from, to, asset, amount, nonce, public_key, signature: None }
    }

    fn core_strings(&self) -> (r: Vec<String>)
        ensures
            string_views(r@) == core_fields(self@),
    {
        let mut fields: Vec<String> = Vec::new();
        fields.push(u64_text(self.transaction_type.code() as u64));
        fields.push(self.from.0.clone());
        fields.push(self.to.0.clone());
        fields.push(self.asset.text());
        fields.push(u64_text(self.amount));
        fields.push(u64_text(self.nonce));
        fields.push(self.public_key.to_hex());
        assert(string_views(fields@) =~= core_fields(self@));
        fields
    }

    /// The bytes the sender signs: the signing text in UTF-8.
    pub fn signing_message(&self) -> (r: Vec<u8>)
        ensures
            r@ == encode_utf8(signing_text(self@)),
    {
        let fields = self.core_strings();
        let text = join_strings(&fields, '|');
        text.as_str().as_bytes_vec()
    }

    /// The stored form of the transaction.
    pub fn serialize(&self) -> (r: String)
        ensures
            r@ == serialized_text(self@),
    {
        let mut fields = self.core_strings();
        let signature = match &self.signature {
            Some(s) => s.to_hex(),
            None => String::new(),
        };
        let ghost before = fields@;
        fields.push(signature);
        assert(string_views(fields@) =~= core_fields(self@).push(sig_text(self@.7)));
        join_strings(&fields, '|')
    }

    /// The transaction id: the SHA-256 of the stored form.
    pub fn hash(&self) -> (r: Hash256)
        ensures
            r@ == sha256_spec(encode_utf8(serialized_text(self@))),
    {
        let text = self.serialize();
        Hash256::new(sha256(text.as_str().as_bytes()))
    }

    /// The transaction id as hex text.
    pub fn id(&self) -> (r: String)
        ensures
            r@ == hex_encode_spec(sha256_spec(encode_utf8(serialized_text(self@)))),
    {
        self.hash().to_hex()
    }

    pub fn set_signature(&mut self, signature: Signature)
        ensures
            final(self)@ == (old(self)@.0, old(self)@.1, old(self)@.2, old(self)@.3, old(self)@.4, old(self)@.5,
                old(self)@.6, Some(signature@)),
    {
        self.signature = Some(signature);
    }

    pub fn signature(&self) -> (r: Option<&Signature>)
        ensures
            match r {
                Some(s) => sig_view(self.signature) == Some(s@),
                None => self.signature is None,
            },
    {
        match &self.signature {
            Some(s) => Some(s),
            None => None,
        }
    }

    pub fn is_signed(&self) -> (r: bool)
        ensures
            r == self.signature is Some,
    {
        self.signature.is_some()
    }

    fn parse_transaction_type(value: &str) -> (r: Option<TransactionType>)
        ensures
            r == type_field(value@),
    {
        match parse_u8(value) {
            Some(0) => Some(TransactionType::Transfer),
            Some(1) => Some(TransactionType::Mint),
            Some(2) => Some(TransactionType::Burn),
            Some(3) => Some(TransactionType::Stake),
            Some(4) => Some(TransactionType::Vote),
            _ => None,
        }
    }

    fn parse_signature(value: &str) -> (r: Option<Option<Signature>>)
        ensures
            match r {
                Some(s) => sig_of(value@) == Some(sig_view(s)),
                None => sig_of(value@) is None,
            },
    {
        if value.unicode_len() == 0 {
            return Some(None);
        }
        match Signature::from_hex(value) {
            Some(s) => Some(Some(s)),
            None => None,
        }
    }

    /// Reads a stored transaction back.
    pub fn deserialize(data: &str) -> (r: Option<Self>)
        ensures
            match r {
                Some(t) => parsed_transaction(data@) == Some(t@),
                None => parsed_transaction(data@) is None,
            },
    {
        let parts = split(data, '|');
        let ghost p = split_spec(data@, '|');
        if parts.len() == 8 {
            let transaction_type = Transaction::parse_transaction_type(parts[0].as_str())?;
            let amount = parse_u64(parts[4].as_str())?;
            let nonce = parse_u64(parts[5].as_str())?;
            let public_key = PublicKey::from_hex(parts[6].as_str())?;
            let signature = Transaction::parse_signature(parts[7].as_str())?;
            let t = Transaction {
                transaction_type,
                from: Address::new(parts[1].clone()),
                to: Address::new(parts[2].clone()),
                asset: AssetId::new(parts[3].as_str()),
                amount,
                nonce,
                public_key,
                signature,
            };
            return Some(t);
        }
        if parts.len() == 7 {
            let transaction_type = Transaction::parse_transaction_type(parts[0].as_str())?;
            let amount = parse_u64(parts[3].as_str())?;
            let nonce = parse_u64(parts[4].as_str())?;
            let public_key = PublicKey::from_hex(parts[5].as_str())?;
            let signature = Transaction::parse_signature(parts[6].as_str())?;
            let t = Transaction {
                transaction_type,
                from: Address::new(parts[1].clone()),
                to: Address::new(parts[2].clone()),
                asset: AssetId::new(PEP),
                amount,
                nonce,
                public_key,
                signature,
            };
            return Some(t);
        }
        None
    }
}

/// Reading back the stored form of a transaction gives the transaction, when its
/// addresses and asset hold no `|`, its asset is already in upper case, and its
/// signature, if any, is not empty.
pub proof fn lemma_transaction_round_trip(t: TxView)
    requires
        free_of(t.1, '|'),
        free_of(t.2, '|'),
        free_of(t.3, '|'),
        unicode_upper(t.3) == t.3,
        t.6.len() == 33,
        t.7 != Some(Seq::<u8>::empty()),
    ensures
        parsed_transaction(serialized_text(t)) == Some(t),
{
    let f = core_fields(t).push(sig_text(t.7));
    crate::text::lemma_decimal_digits(type_code(t.0) as nat);
    crate::text::lemma_decimal_digits(t.4 as nat);
    crate::text::lemma_decimal_digits(t.5 as nat);
    lemma_hex_free(t.6);
    match t.7 {
        Some(b) => {
            lemma_hex_free(b);
            lemma_hex_round_trip(b);
            assert(b.len() > 0) by {
                if b.len() == 0 {
                    assert(b =~= Seq::<u8>::empty());
                }
            }
            crate::text::lemma_hex_len(b);
        },
        None => {},
    }
    assert forall|i: int, j: int| 0 <= i < f.len() && 0 <= j < f[i].len() implies f[i][j] != '|' by {
        if i == 0 || i == 4 || i == 5 {
            assert(crate::text::is_digit(f[i][j]));
        }
    }
    lemma_split_join(f, '|');
    lemma_parse_decimal(type_code(t.0) as nat, u8::MAX as nat);
    lemma_parse_decimal(t.4 as nat, u64::MAX as nat);
    lemma_parse_decimal(t.5 as nat, u64::MAX as nat);
    lemma_hex_round_trip(t.6);
    let p = split_spec(serialized_text(t), '|');
    assert(p == f);
    assert(parsed_transaction(serialized_text(t)) =~= Some(t));
}

/// Hex text holds only hex digits.
proof fn lemma_hex_free(b: Seq<u8>)
    ensures
        free_of(hex_encode_spec(b), '|'),
{
    lemma_hex_round_trip(b);
    let e = hex_encode_spec(b);
    assert forall|i: int| 0 <= i < e.len() implies e[i] != '|' by {
        assert(crate::text::is_hex_char(e[i]));
    }
}

} // verus!
