//! The metadata file: chain id, version, best height, best hash, genesis
//! hash and difficulty, one per line.
use vstd::prelude::*;
use crate::blockchain::block::Block;
use crate::blockchain::block_header::header_hash;
use crate::blockchain::hash::Hash256;
use crate::blockchain::storage::chain_store::text_lines;
use crate::text::{
    decimal, hex_decode_spec, hex_encode_spec, is_digit, is_hex_char, join_spec, lemma_decimal_digits, lemma_hex_round_trip,
    lemma_parse_decimal, lemma_split_join, parse_u32, parse_u64, parse_unsigned, split, split_spec, u64_text,
};

verus! {

pub struct Metadata {
    pub chain_id: u32,
    pub version: u32,
    pub best_height: u64,
    pub best_hash: Hash256,
    pub genesis_hash: Hash256,
    pub difficulty: u32,
}

/// Metadata as plain values.
pub type MetadataView = (u32, u32, u64, Seq<u8>, Seq<u8>, u32);

impl View for Metadata {
    type V = MetadataView;

    open spec fn view(&self) -> MetadataView {
        (self.chain_id, self.version, self.best_height, self.best_hash@, self.genesis_hash@, self.difficulty)
    }
}

pub open spec fn metadata_fields(m: MetadataView) -> Seq<Seq<char>> {
    seq![decimal(m.0 as nat), decimal(m.1 as nat), decimal(m.2 as nat), hex_encode_spec(m.3), hex_encode_spec(m.4), decimal(m.5 as nat)]
}

/// The file text: each field on a line of its own.
pub open spec fn metadata_text(m: MetadataView) -> Seq<char> {
    join_spec(metadata_fields(m).push(Seq::empty()), '\n')
}

pub open spec fn hash_line(s: Seq<char>) -> Option<Seq<u8>> {
    match hex_decode_spec(s) {
        Some(b) => if b.len() == 32 { Some(b) } else { None },
        None => None,
    }
}

/// What a metadata file reads as: its first six lines, each a field.
pub open spec fn parsed_metadata(text: Seq<char>) -> Option<MetadataView> {
    let l = text_lines(text);
    if l.len() < 6 || parse_unsigned(l[0], u32::MAX as nat) is None || parse_unsigned(l[1], u32::MAX as nat) is None
        || parse_unsigned(l[2], u64::MAX as nat) is None || hash_line(l[3]) is None || hash_line(l[4]) is None
        || parse_unsigned(l[5], u32::MAX as nat) is None {
        None
    } else {
        Some((parse_unsigned(l[0], u32::MAX as nat)->0 as u32, parse_unsigned(l[1], u32::MAX as nat)->0 as u32,
            parse_unsigned(l[2], u64::MAX as nat)->0 as u64, hash_line(l[3])->0, hash_line(l[4])->0,
            parse_unsigned(l[5], u32::MAX as nat)->0 as u32))
    }
}

impl Metadata {
    /// The metadata of a chain: chain one, version one, the tip's height,
    /// hash and bits, and the first block's hash; `None` without a block.
    pub fn of_chain(blocks: &[Block]) -> (r: Option<Metadata>)
        ensures
            blocks@.len() == 0 ==> r is None,
            blocks@.len() > 0 ==> (r matches Some(m) && m@ == (1u32, 1u32, (blocks@.len() - 1) as u64,
                header_hash(blocks@.last()@.0), header_hash(blocks@[0]@.0), blocks@.last()@.0.4)),
    {
        let n = blocks.len();
        if n == 0 {
            return None;
        }
        let tip = &blocks[n - 1];
        Some(Metadata {
            chain_id: 1,
            version: 1,
            best_height: (n - 1) as u64,
            best_hash: tip.hash(),
            genesis_hash: blocks[0].hash(),
            difficulty: tip.header.bits,
        })
    }
}

pub struct MetadataStore;

impl MetadataStore {
    /// The file text of the metadata (what `save` writes).
    pub fn text(metadata: &Metadata) -> (r: String)
        ensures
            r@ == metadata_text(metadata@),
    {
        let mut fields: Vec<String> = Vec::new();
        fields.push(u64_text(metadata.chain_id as u64));
        fields.push(u64_text(metadata.version as u64));
        fields.push(u64_text(metadata.best_height));
        fields.push(metadata.best_hash.to_hex());
        fields.push(metadata.genesis_hash.to_hex());
        fields.push(u64_text(metadata.difficulty as u64));
        fields.push(String::new());
        assert(crate::pepdex::order_journal::string_views(fields@) =~= metadata_fields(metadata@).push(Seq::empty()));
        crate::pepdex::order_journal::join_strings(&fields, '\n')
    }

    /// The metadata a file text holds (what `load` computes from the file).
    pub fn parse(text: &str) -> (r: Option<Metadata>)
        ensures
            match r {
                Some(m) => parsed_metadata(text@) == Some(m@),
                None => parsed_metadata(text@) is None,
            },
    {
        let pieces = split(text, '\n');
        let ghost p = split_spec(text@, '\n');
        let ghost l = text_lines(text@);
        if pieces.len() < 6 {
            return None;
        }
        let mut lines: Vec<String> = Vec::new();
        let mut i: usize = 0;
        while i < 6
            invariant
                i <= 6 <= pieces@.len(),
                pieces@.len() == p.len(),
                p == split_spec(text@, '\n'),
                l == text_lines(text@),
                forall|j: int| 0 <= j < pieces@.len() ==> #[trigger] pieces@[j]@ == p[j],
                lines@.len() == i,
                forall|j: int| 0 <= j < i ==> #[trigger] lines@[j]@ == l[j],
            decreases 6 - i,
        {
            let piece = pieces[i].as_str();
            let n = piece.unicode_len();
            let line: String = if i + 1 < pieces.len() && n > 0 && piece.get_char(n - 1) == '\r' {
                piece.substring_char(0, n - 1).to_string()
            } else {
                piece.to_string()
            };
            assert(line@ == l[i as int]) by {
                if i + 1 < pieces.len() && n > 0 && p[i as int].last() == '\r' {
                    assert(line@ =~= p[i as int].drop_last());
                }
            }
            lines.push(line);
            i += 1;
        }
        let chain_id = parse_u32(lines[0].as_str())?;
        let version = parse_u32(lines[1].as_str())?;
        let best_height = parse_u64(lines[2].as_str())?;
        let best_hash = match Hash256::from_hex(lines[3].as_str()) {
            Ok(h) => h,
            Err(_) => return None,
        };
        let genesis_hash = match Hash256::from_hex(lines[4].as_str()) {
            Ok(h) => h,
            Err(_) => return None,
        };
        let difficulty = parse_u32(lines[5].as_str())?;
        Some(Metadata { chain_id, version, best_height, best_hash, genesis_hash, difficulty })
    }
}

/// Reading the metadata's file text back gives the metadata.
pub proof fn lemma_metadata_round_trip(m: MetadataView)
    requires
        m.3.len() == 32,
        m.4.len() == 32,
    ensures
        parsed_metadata(metadata_text(m)) == Some(m),
{
    let f = metadata_fields(m).push(Seq::<char>::empty());
    lemma_decimal_digits(m.0 as nat);
    lemma_decimal_digits(m.1 as nat);
    lemma_decimal_digits(m.2 as nat);
    lemma_decimal_digits(m.5 as nat);
    lemma_hex_round_trip(m.3);
    lemma_hex_round_trip(m.4);
    assert forall|i: int, j: int| 0 <= i < f.len() && 0 <= j < f[i].len() implies f[i][j] != '\n' && f[i][j] != '\r' by {
        if i == 3 || i == 4 {
            assert(is_hex_char(f[i][j]));
        } else {
            assert(is_digit(f[i][j]));
        }
    }
    lemma_split_join(f, '\n');
    let l = text_lines(metadata_text(m));
    assert forall|i: int| 0 <= i < 6 implies l[i] == f[i] by {
        if f[i].len() > 0 {
            assert(f[i][f[i].len() - 1] != '\r');
        }
    }
    lemma_parse_decimal(m.0 as nat, u32::MAX as nat);
    lemma_parse_decimal(m.1 as nat, u32::MAX as nat);
    lemma_parse_decimal(m.2 as nat, u64::MAX as nat);
    lemma_parse_decimal(m.5 as nat, u32::MAX as nat);
    assert(parsed_metadata(metadata_text(m)) =~= Some(m));
}

} // verus!
