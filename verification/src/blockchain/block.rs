//! Blocks: a header and its transactions, their text form, and the check that
//! the header commits to the transactions.
use vstd::prelude::*;
use crate::blockchain::block_header::{header_fields, header_hash, header_text, lemma_header_round_trip, parsed_header, BlockHeader, HeaderView};
use crate::blockchain::hash::Hash256;
use crate::blockchain::merkle::{merkle_root, MerkleTree};
use crate::blockchain::transaction::{
    core_fields, lemma_transaction_round_trip, parsed_transaction, serialized_text, sig_text, tx_views, type_code, Transaction, TxView,
};
use crate::pepdex::order_journal::{free_of, join_strings, string_views};
use crate::text::{
    decimal, hex_encode_spec, is_digit, is_first_index, is_hex_char, join_spec, lemma_decimal_digits, lemma_first_index_unique,
    lemma_hex_round_trip, lemma_join_free, lemma_join_len, lemma_split_join, push_char, push_str, split, split_once, split_spec,
    unicode_upper,
};

verus! {

#[derive(Debug)]
pub struct Block {
    pub header: BlockHeader,
    pub transactions: Vec<Transaction>,
}

/// A block as plain values.
pub type BlockView = (HeaderView, Seq<TxView>);

impl View for Block {
    type V = BlockView;

    open spec fn view(&self) -> BlockView {
        (self.header@, tx_views(self.transactions@))
    }
}

impl Clone for Block {
    fn clone(&self) -> (r: Self)
        ensures
            r@ == self@,
    {
        let mut transactions: Vec<Transaction> = Vec::new();
        let mut i: usize = 0;
        while i < self.transactions.len()
            invariant
                i <= self.transactions@.len(),
                tx_views(transactions@) == tx_views(self.transactions@).take(i as int),
            decreases self.transactions@.len() - i,
        {
            let t = self.transactions[i].clone();
            let ghost before = transactions@;
            transactions.push(t);
            assert(tx_views(transactions@) =~= tx_views(before).push(t@));
            assert(tx_views(self.transactions@).take(i + 1) =~= tx_views(self.transactions@).take(i as int).push(
                tx_views(self.transactions@)[i as int]));
            i += 1;
        }
        assert(tx_views(self.transactions@).take(self.transactions@.len() as int) =~= tx_views(self.transactions@));
        Block { header: self.header.clone(), transactions }
    }
}

/// The text of a block: its header's text, `@`, then its transactions' texts
/// separated by `;`.
pub open spec fn block_text(b: BlockView) -> Seq<char> {
    header_text(b.0) + seq!['@'] + join_spec(b.1.map_values(|t: TxView| serialized_text(t)), ';')
}

/// What a list of transaction texts reads as: `None` when one of them does
/// not read as a transaction.
pub open spec fn parsed_transactions(pieces: Seq<Seq<char>>) -> Option<Seq<TxView>> {
    if forall|i: int| 0 <= i < pieces.len() ==> (#[trigger] parsed_transaction(pieces[i])) is Some {
        Some(Seq::new(pieces.len(), |i: int| parsed_transaction(pieces[i])->0))
    } else {
        None
    }
}

/// What the part of a block text after the `@` reads as: no transaction when
/// it is empty.
pub open spec fn parsed_body(body: Seq<char>) -> Option<Seq<TxView>> {
    if body.len() == 0 {
        Some(Seq::empty())
    } else {
        parsed_transactions(split_spec(body, ';'))
    }
}

/// A block whose header commits to its transactions.
pub open spec fn consistent(b: BlockView) -> bool {
    b.0.2 == merkle_root(b.1)
}

/// What a block text reads as: the header before the first `@`, the
/// transactions after it, and only when the header commits to them.
pub open spec fn parsed_block(data: Seq<char>) -> Option<BlockView> {
    if exists|k: int| is_first_index(data, '@', k) {
        let k = choose|k: int| is_first_index(data, '@', k);
        match parsed_header(data.take(k)) {
            Some(h) => match parsed_body(data.skip(k + 1)) {
                Some(ts) => if consistent((h, ts)) { Some((h, ts)) } else { None },
                None => None,
            },
            None => None,
        }
    } else {
        None
    }
}

impl Block {
    /// A block over the given transactions, its header committing to them.
    pub fn new(previous_hash: Hash256, timestamp: u64, bits: u32, transactions: Vec<Transaction>) -> (r: Self)
        ensures
            r@.0 == (1u32, previous_hash@, merkle_root(tx_views(transactions@)), timestamp, bits, 0u64),
            r@.1 == tx_views(transactions@),
            consistent(r@),
    {
        let merkle_root = MerkleTree::root(transactions.as_slice());
        let header = BlockHeader::new(previous_hash, merkle_root, timestamp, bits);
        Block { header, transactions }
    }

    /// Appends a transaction and recomputes the header's Merkle root.
    pub fn add_transaction(&mut self, tx: Transaction)
        ensures
            final(self)@.1 == old(self)@.1.push(tx@),
            final(self)@.0 == (old(self)@.0.0, old(self)@.0.1, merkle_root(final(self)@.1), old(self)@.0.3, old(self)@.0.4,
                old(self)@.0.5),
            consistent(final(self)@),
    {
        let ghost t = tx@;
        self.transactions.push(tx);
        assert(tx_views(self.transactions@) =~= tx_views(old(self).transactions@).push(t));
        self.header.merkle_root = MerkleTree::root(self.transactions.as_slice());
    }

    pub fn hash(&self) -> (r: Hash256)
        ensures
            r@ == header_hash(self@.0),
    {
        self.header.hash()
    }

    pub fn calculate_hash(&self) -> (r: Hash256)
        ensures
            r@ == header_hash(self@.0),
    {
        self.header.calculate_hash()
    }

    pub fn nonce(&self) -> (r: u64)
        ensures
            r == self@.0.5,
    {
        self.header.nonce()
    }

    pub fn set_nonce(&mut self, nonce: u64)
        ensures
            final(self)@.1 == old(self)@.1,
            final(self)@.0 == (old(self)@.0.0, old(self)@.0.1, old(self)@.0.2, old(self)@.0.3, old(self)@.0.4, nonce),
    {
        self.header.set_nonce(nonce);
    }

    /// Checks what the block alone determines: the header's Merkle root is
    /// the root of the transactions, and its hash is the hash of its text.
    pub fn verify_integrity(&self) -> (r: Result<(), String>)
        ensures
            r is Ok <==> consistent(self@),
    {
        let calculated_merkle_root = MerkleTree::root(self.transactions.as_slice());
        if !self.header.merkle_root.same_as(&calculated_merkle_root) {
            return Err("Invalid Merkle root.".to_string());
        }
        let calculated_hash = self.calculate_hash();
        let actual_hash = self.hash();
        if !actual_hash.same_as(&calculated_hash) {
            return Err("Invalid block hash.".to_string());
        }
        Ok(())
    }

    /// The text form of the block.
    pub fn serialize(&self) -> (r: String)
        ensures
            r@ == block_text(self@),
    {
        let mut texts: Vec<String> = Vec::new();
        let mut i: usize = 0;
        while i < self.transactions.len()
            invariant
                i <= self.transactions@.len(),
                string_views(texts@) == tx_views(self.transactions@).map_values(|t: TxView| serialized_text(t)).take(i as int),
            decreases self.transactions@.len() - i,
        {
            let text = self.transactions[i].serialize();
            let ghost before = texts@;
            texts.push(text);
            assert(string_views(texts@) =~= string_views(before).push(text@));
            assert(tx_views(self.transactions@).map_values(|t: TxView| serialized_text(t)).take(i + 1)
                =~= tx_views(self.transactions@).map_values(|t: TxView| serialized_text(t)).take(i as int).push(
                serialized_text(self.transactions@[i as int]@)));
            i += 1;
        }
        assert(tx_views(self.transactions@).map_values(|t: TxView| serialized_text(t)).take(self.transactions@.len() as int)
            =~= tx_views(self.transactions@).map_values(|t: TxView| serialized_text(t)));
        let body = join_strings(&texts, ';');
        let mut out = self.header.serialize();
        push_char(&mut out, '@');
        push_str(&mut out, body.as_str());
        assert(out@ =~= block_text(self@));
        out
    }

    fn parse_body(body: &str) -> (r: Option<Vec<Transaction>>)
        ensures
            match r {
                Some(ts) => parsed_body(body@) == Some(tx_views(ts@)),
                None => parsed_body(body@) is None,
            },
    {
        let mut txs: Vec<Transaction> = Vec::new();
        if body.unicode_len() == 0 {
            assert(tx_views(txs@) =~= Seq::<TxView>::empty());
            return Some(txs);
        }
        let pieces = split(body, ';');
        let ghost p = split_spec(body@, ';');
        let mut i: usize = 0;
        while i < pieces.len()
            invariant
                i <= pieces@.len(),
                body@.len() > 0,
                p == split_spec(body@, ';'),
                pieces@.len() == p.len(),
                forall|j: int| 0 <= j < pieces@.len() ==> #[trigger] pieces@[j]@ == p[j],
                txs@.len() == i,
                forall|j: int| 0 <= j < i ==> parsed_transaction(p[j]) == Some(#[trigger] txs@[j]@),
            decreases pieces@.len() - i,
        {
            match Transaction::deserialize(pieces[i].as_str()) {
                Some(t) => {
                    txs.push(t);
                },
                None => {
                    assert(parsed_transaction(p[i as int]) is None);
                    return None;
                },
            }
            i += 1;
        }
        assert forall|j: int| 0 <= j < p.len() implies (#[trigger] parsed_transaction(p[j])) is Some by {
            assert(parsed_transaction(p[j]) == Some(txs@[j]@));
        }
        assert(tx_views(txs@) =~= Seq::new(p.len(), |j: int| parsed_transaction(p[j])->0));
        Some(txs)
    }

    /// Reads a block text back, and refuses a block whose header does not
    /// commit to its transactions.
    pub fn deserialize(data: &str) -> (r: Result<Self, String>)
        ensures
            match r {
                Ok(b) => parsed_block(data@) == Some(b@),
                Err(_) => parsed_block(data@) is None,
            },
    {
        let (head, body) = match split_once(data, '@') {
            Some(parts) => parts,
            None => return Err("Invalid Block".to_string()),
        };
        let ghost k = choose|k: int| is_first_index(data@, '@', k) && head@ == data@.take(k) && body@ == data@.skip(k + 1);
        proof {
            let c = choose|k: int| is_first_index(data@, '@', k);
            crate::text::lemma_first_index_unique(data@, '@', k, c);
        }
        let header = BlockHeader::deserialize(head.as_str())?;
        let transactions = match Block::parse_body(body.as_str()) {
            Some(ts) => ts,
            None => return Err("Invalid transaction".to_string()),
        };
        let block = Block { header, transactions };
        block.verify_integrity()?;
        Ok(block)
    }
}

/// A text field that can stand in a transaction text within a block, a
/// line of the chain file: no `|`, `;`, line feed or carriage return.
pub open spec fn plain_field(s: Seq<char>) -> bool {
    free_of(s, '|') && free_of(s, ';') && free_of(s, '\n') && free_of(s, '\r')
}

/// A transaction whose stored text reads back as itself and can stand in a
/// block text: its addresses and asset are plain fields, its asset is in
/// upper case, its key has 33 bytes and its signature, if any, is not empty.
pub open spec fn storable(t: TxView) -> bool {
    &&& plain_field(t.1) && plain_field(t.2) && plain_field(t.3)
    &&& unicode_upper(t.3) == t.3
    &&& t.6.len() == 33
    &&& t.7 != Some(Seq::<u8>::empty())
}

proof fn lemma_hex_free_of(b: Seq<u8>, c: char)
    requires
        !is_hex_char(c),
    ensures
        free_of(hex_encode_spec(b), c),
{
    lemma_hex_round_trip(b);
    let e = hex_encode_spec(b);
    assert forall|i: int| 0 <= i < e.len() implies e[i] != c by {
        assert(is_hex_char(e[i]));
    }
}

proof fn lemma_decimal_free_of(n: nat, c: char)
    requires
        !is_digit(c),
    ensures
        free_of(decimal(n), c),
{
    lemma_decimal_digits(n);
    assert forall|i: int| 0 <= i < decimal(n).len() implies decimal(n)[i] != c by {
        assert(is_digit(decimal(n)[i]));
    }
}

/// A stored transaction text holds a character that is no digit, hex digit
/// or `|` only where its addresses or asset do.
pub proof fn lemma_serialized_free(t: TxView, c: char)
    requires
        !is_digit(c),
        !is_hex_char(c),
        c != '|',
        free_of(t.1, c),
        free_of(t.2, c),
        free_of(t.3, c),
    ensures
        free_of(serialized_text(t), c),
        serialized_text(t).len() > 0,
{
    let f = core_fields(t).push(sig_text(t.7));
    lemma_decimal_free_of(type_code(t.0) as nat, c);
    lemma_decimal_free_of(t.4 as nat, c);
    lemma_decimal_free_of(t.5 as nat, c);
    lemma_hex_free_of(t.6, c);
    match t.7 {
        Some(b) => lemma_hex_free_of(b, c),
        None => {},
    }
    assert forall|i: int, j: int| 0 <= i < f.len() && 0 <= j < f[i].len() implies f[i][j] != c by {}
    lemma_join_free(f, '|', c);
    lemma_join_len(f, '|');
}

/// A header text holds no character other than digits, hex digits and `#`.
pub proof fn lemma_header_free(h: HeaderView, c: char)
    requires
        !is_digit(c),
        !is_hex_char(c),
        c != '#',
    ensures
        free_of(header_text(h), c),
        header_text(h).len() > 0,
{
    let f = header_fields(h);
    lemma_decimal_free_of(h.0 as nat, c);
    lemma_hex_free_of(h.1, c);
    lemma_hex_free_of(h.2, c);
    lemma_decimal_free_of(h.3 as nat, c);
    lemma_decimal_free_of(h.4 as nat, c);
    lemma_decimal_free_of(h.5 as nat, c);
    assert forall|i: int, j: int| 0 <= i < f.len() && 0 <= j < f[i].len() implies f[i][j] != c by {}
    lemma_join_free(f, '#', c);
    lemma_join_len(f, '#');
}

/// The text of a block of storable transactions holds no line feed or
/// carriage return.
pub proof fn lemma_block_one_line(b: BlockView)
    requires
        forall|i: int| 0 <= i < b.1.len() ==> storable(#[trigger] b.1[i]),
    ensures
        free_of(block_text(b), '\n'),
        free_of(block_text(b), '\r'),
        block_text(b).len() > 0,
{
    let p = b.1.map_values(|t: TxView| serialized_text(t));
    lemma_header_free(b.0, '\n');
    lemma_header_free(b.0, '\r');
    assert forall|i: int, j: int| 0 <= i < p.len() && 0 <= j < p[i].len() implies p[i][j] != '\n' && p[i][j] != '\r' by {
        lemma_serialized_free(b.1[i], '\n');
        lemma_serialized_free(b.1[i], '\r');
    }
    if p.len() > 0 {
        lemma_join_free(p, ';', '\n');
        lemma_join_free(p, ';', '\r');
    }
    let h = header_text(b.0);
    let body = join_spec(p, ';');
    assert(block_text(b) == h + seq!['@'] + body);
    assert forall|j: int| 0 <= j < block_text(b).len() implies block_text(b)[j] != '\n' && block_text(b)[j] != '\r' by {
        if j < h.len() {
            assert(block_text(b)[j] == h[j]);
        } else if j == h.len() {
        } else {
            assert(block_text(b)[j] == body[j - h.len() - 1]);
        }
    }
}

/// Reading a block's text back gives the block, when its header commits to
/// its transactions, its hashes have 32 bytes and each transaction is
/// storable.
pub proof fn lemma_block_round_trip(b: BlockView)
    requires
        b.0.1.len() == 32,
        b.0.2.len() == 32,
        consistent(b),
        forall|i: int| 0 <= i < b.1.len() ==> storable(#[trigger] b.1[i]),
    ensures
        parsed_block(block_text(b)) == Some(b),
{
    let h = header_text(b.0);
    let p = b.1.map_values(|t: TxView| serialized_text(t));
    let body = join_spec(p, ';');
    let data = block_text(b);
    lemma_header_free(b.0, '@');
    let k = h.len() as int;
    assert(data[k] == '@');
    assert forall|j: int| 0 <= j < k implies data[j] != '@' by {
        assert(data[j] == h[j]);
    }
    assert(is_first_index(data, '@', k));
    let c = choose|m: int| is_first_index(data, '@', m);
    lemma_first_index_unique(data, '@', k, c);
    assert(data.take(k) =~= h);
    assert(data.skip(k + 1) =~= body);
    lemma_header_round_trip(b.0);
    if b.1.len() == 0 {
        assert(body =~= Seq::<char>::empty());
        assert(parsed_body(body) == Some(Seq::<TxView>::empty()));
        assert(b.1 =~= Seq::<TxView>::empty());
    } else {
        assert forall|i: int| 0 <= i < p.len() implies free_of(#[trigger] p[i], ';') && p[i].len() > 0 by {
            lemma_serialized_free(b.1[i], ';');
        }
        assert forall|i: int, j: int| 0 <= i < p.len() && 0 <= j < p[i].len() implies p[i][j] != ';' by {
            assert(free_of(p[i], ';'));
        }
        lemma_split_join(p, ';');
        lemma_join_len(p, ';');
        assert(p.last().len() > 0) by {
            assert(p[p.len() - 1].len() > 0);
        }
        assert forall|i: int| 0 <= i < p.len() implies (#[trigger] parsed_transaction(p[i])) == Some(b.1[i]) by {
            lemma_transaction_round_trip(b.1[i]);
        }
        assert(parsed_transactions(p) =~= Some(b.1));
    }
}

} // verus!
