//! The texts peers exchange: handshake, status, block batches, balances and
//! asset registrations.
use vstd::prelude::*;
use crate::blockchain::asset::{AssetDefinition, AssetId, AssetType, DefinitionView};
use crate::blockchain::block::{block_text, parsed_block, Block, BlockView};
use crate::blockchain::consensus::difficulty::block_views;
use crate::blockchain::network::peer::PeerAddress;
use crate::pepdex::order_journal::join_strings;
use crate::text::{
    chars_of, starts_with, starts_with_spec,
    ascii_lower, ascii_upper, decimal, is_first_index, join_spec, parse_u64, parse_u8, parse_unsigned, parse_usize, push_char,
    push_str, split, split_once, split_spec, to_ascii_lower, to_ascii_upper, trim, trim_spec, u64_text, unicode_upper,
};

verus! {

pub const PEP_PROTOCOL_VERSION: u32 = 1;

pub const PEP_CHAIN_ID: u64 = 1;

pub const PEP_NETWORK: &'static str = "mainnet";

/// The most blocks one GetBlocks answer carries.
pub const MAX_BLOCK_BATCH: usize = 128;

// ------------------------------------------------------------
// Handshake
// ------------------------------------------------------------

/// Why a HELLO is refused.
#[derive(Debug, Clone, PartialEq, Eq)]
pub enum HelloError {
    /// Not five `|`-separated fields.
    Malformed,
    InvalidProtocol,
    InvalidChainId,
    InvalidHeight,
    /// Another network, named.
    NetworkMismatch(String),
    ProtocolMismatch(u32),
    ChainIdMismatch(u64),
    EmptyTip,
}

/// What a HELLO check answers, as plain values: `None` when it passes,
/// else a code (in the order of `HelloError`'s variants) with the network
/// named or the number found where the error carries one.
pub open spec fn hello_verdict(text: Seq<char>) -> Option<(nat, Seq<char>, nat)> {
    let p = split_spec(trim_spec(text), '|');
    if p.len() != 5 {
        Some((0, Seq::empty(), 0))
    } else if parse_unsigned(p[1], u32::MAX as nat) is None {
        Some((1, Seq::empty(), 0))
    } else if parse_unsigned(p[2], u64::MAX as nat) is None {
        Some((2, Seq::empty(), 0))
    } else if parse_unsigned(p[3], u64::MAX as nat) is None {
        Some((3, Seq::empty(), 0))
    } else if p[0] != "mainnet"@ {
        Some((4, p[0], 0))
    } else if parse_unsigned(p[1], u32::MAX as nat)->0 != 1 {
        Some((5, Seq::empty(), parse_unsigned(p[1], u32::MAX as nat)->0))
    } else if parse_unsigned(p[2], u64::MAX as nat)->0 != 1 {
        Some((6, Seq::empty(), parse_unsigned(p[2], u64::MAX as nat)->0))
    } else if p[4].len() == 0 {
        Some((7, Seq::empty(), 0))
    } else {
        None
    }
}

pub open spec fn hello_error_view(e: HelloError) -> (nat, Seq<char>, nat) {
    match e {
        HelloError::Malformed => (0, Seq::empty(), 0),
        HelloError::InvalidProtocol => (1, Seq::empty(), 0),
        HelloError::InvalidChainId => (2, Seq::empty(), 0),
        HelloError::InvalidHeight => (3, Seq::empty(), 0),
        HelloError::NetworkMismatch(n) => (4, n@, 0),
        HelloError::ProtocolMismatch(v) => (5, Seq::empty(), v as nat),
        HelloError::ChainIdMismatch(v) => (6, Seq::empty(), v as nat),
        HelloError::EmptyTip => (7, Seq::empty(), 0),
    }
}

/// Checks a peer's HELLO (or HELLO ACK): `network|protocol|chain_id|height|tip`
/// on this network, protocol version and chain, with a tip.
pub fn validate_hello(text: &str) -> (r: Result<(), HelloError>)
    ensures
        match r {
            Ok(()) => hello_verdict(text@) is None,
            Err(e) => hello_verdict(text@) == Some(hello_error_view(e)),
        },
{
    let parts = split(trim(text), '|');
    if parts.len() != 5 {
        return Err(HelloError::Malformed);
    }
    let protocol = match crate::text::parse_u32(parts[1].as_str()) {
        Some(v) => v,
        None => return Err(HelloError::InvalidProtocol),
    };
    let chain_id = match parse_u64(parts[2].as_str()) {
        Some(v) => v,
        None => return Err(HelloError::InvalidChainId),
    };
    match parse_u64(parts[3].as_str()) {
        Some(_) => {},
        None => return Err(HelloError::InvalidHeight),
    }
    if !crate::text::str_eq(parts[0].as_str(), PEP_NETWORK) {
        return Err(HelloError::NetworkMismatch(parts[0].clone()));
    }
    if protocol != PEP_PROTOCOL_VERSION {
        return Err(HelloError::ProtocolMismatch(protocol));
    }
    if chain_id != PEP_CHAIN_ID {
        return Err(HelloError::ChainIdMismatch(chain_id));
    }
    if parts[4].as_str().unicode_len() == 0 {
        return Err(HelloError::EmptyTip);
    }
    Ok(())
}

// ------------------------------------------------------------
// Status
// ------------------------------------------------------------

/// `height|tip`.
pub open spec fn status_spec(height: usize, tip: Seq<char>) -> Seq<char> {
    decimal(height as nat) + seq!['|'] + tip
}

pub fn status_text(height: usize, tip: &str) -> (r: String)
    ensures
        r@ == status_spec(height, tip@),
{
    let mut s = u64_text(height as u64);
    push_char(&mut s, '|');
    push_str(&mut s, tip);
    s
}

/// What a Status answer reads as: the height and the tip.
pub open spec fn parsed_status(text: Seq<char>) -> Option<(nat, Seq<char>)> {
    let p = split_spec(trim_spec(text), '|');
    if p.len() != 2 || parse_unsigned(p[0], usize::MAX as nat) is None {
        None
    } else {
        Some((parse_unsigned(p[0], usize::MAX as nat)->0, p[1]))
    }
}

/// Reads a Status answer; the error says what was wrong.
pub fn parse_status(text: &str) -> (r: Result<(usize, String), String>)
    ensures
        match r {
            Ok((h, t)) => parsed_status(text@) == Some((h as nat, t@)),
            Err(_) => parsed_status(text@) is None,
        },
{
    let parts = split(trim(text), '|');
    if parts.len() != 2 {
        return Err("Invalid Status payload.".to_string());
    }
    let height = match parse_usize(parts[0].as_str()) {
        Some(v) => v,
        None => return Err("Invalid remote height.".to_string()),
    };
    Ok((height, parts[1].clone()))
}

// ------------------------------------------------------------
// Block batches
// ------------------------------------------------------------

/// `start|count`, the count capped at `MAX_BLOCK_BATCH`.
pub open spec fn get_blocks_spec(start: usize, count: usize) -> Seq<char> {
    decimal(start as nat) + seq!['|'] + decimal((if count < MAX_BLOCK_BATCH { count } else { MAX_BLOCK_BATCH }) as nat)
}

pub fn get_blocks_request(start: usize, count: usize) -> (r: String)
    ensures
        r@ == get_blocks_spec(start, count),
{
    let capped = if count < MAX_BLOCK_BATCH { count } else { MAX_BLOCK_BATCH };
    let mut s = u64_text(start as u64);
    push_char(&mut s, '|');
    push_str(&mut s, u64_text(capped as u64).as_str());
    s
}

/// What a GetBlocks request reads as: the start and the count, capped.
pub open spec fn parsed_get_blocks(text: Seq<char>) -> Option<(nat, nat)> {
    let p = split_spec(trim_spec(text), '|');
    if p.len() != 2 || parse_unsigned(p[0], usize::MAX as nat) is None || parse_unsigned(p[1], usize::MAX as nat) is None {
        None
    } else {
        let c = parse_unsigned(p[1], usize::MAX as nat)->0;
        Some((parse_unsigned(p[0], usize::MAX as nat)->0, if c < MAX_BLOCK_BATCH { c } else { MAX_BLOCK_BATCH as nat }))
    }
}

pub fn parse_get_blocks(text: &str) -> (r: Option<(usize, usize)>)
    ensures
        match r {
            Some((s, c)) => parsed_get_blocks(text@) == Some((s as nat, c as nat)),
            None => parsed_get_blocks(text@) is None,
        },
{
    let parts = split(trim(text), '|');
    if parts.len() != 2 {
        return None;
    }
    let start = parse_usize(parts[0].as_str())?;
    let count = parse_usize(parts[1].as_str())?;
    Some((start, if count < MAX_BLOCK_BATCH { count } else { MAX_BLOCK_BATCH }))
}

/// The blocks of a GetBlocks answer: from `start`, at most `count`.
pub open spec fn batch_range(chain: Seq<BlockView>, start: nat, count: nat) -> Seq<BlockView> {
    let lo = if start < chain.len() { start } else { chain.len() };
    let hi = if lo + count < chain.len() { lo + count } else { chain.len() };
    chain.subrange(lo as int, hi as int)
}

/// A GetBlocks answer: the blocks' texts, one per line.
pub open spec fn batch_spec(chain: Seq<BlockView>, start: nat, count: nat) -> Seq<char> {
    join_spec(batch_range(chain, start, count).map_values(|b: BlockView| block_text(b)), '\n')
}

pub fn blocks_batch(blocks: &[Block], start: usize, count: usize) -> (r: String)
    ensures
        r@ == batch_spec(block_views(blocks@), start as nat, count as nat),
{
    let ghost c = block_views(blocks@);
    let lo = if start < blocks.len() { start } else { blocks.len() };
    let hi = if count < blocks.len() - lo { lo + count } else { blocks.len() };
    let ghost want = batch_range(c, start as nat, count as nat).map_values(|b: BlockView| block_text(b));
    let mut texts: Vec<String> = Vec::new();
    let mut i: usize = lo;
    while i < hi
        invariant
            lo <= i <= hi <= blocks@.len(),
            c == block_views(blocks@),
            want == c.subrange(lo as int, hi as int).map_values(|b: BlockView| block_text(b)),
            crate::pepdex::order_journal::string_views(texts@) == want.take(i - lo),
        decreases hi - i,
    {
        let t = blocks[i].serialize();
        let ghost before = texts@;
        texts.push(t);
        assert(crate::pepdex::order_journal::string_views(texts@) =~= crate::pepdex::order_journal::string_views(before).push(t@));
        assert(want.take(i + 1 - lo) =~= want.take(i - lo).push(want[i - lo]));
        i += 1;
    }
    assert(want.take(hi - lo) =~= want);
    crate::pepdex::order_journal::join_strings(&texts, '\n')
}

/// The block texts of a GetBlocks answer: its lines, trimmed, empty ones
/// left out.
pub open spec fn batch_lines(text: Seq<char>) -> Seq<Seq<char>> {
    kept_lines(split_spec(text, '\n'))
}

/// The lines, trimmed, without the empty ones.
pub open spec fn kept_lines(p: Seq<Seq<char>>) -> Seq<Seq<char>>
    decreases p.len(),
{
    if p.len() == 0 {
        Seq::empty()
    } else {
        let k = kept_lines(p.drop_last());
        let l = trim_spec(p.last());
        if l.len() > 0 { k.push(l) } else { k }
    }
}

/// Reads a GetBlocks answer; the first line that is not a block is the error.
pub fn parse_blocks_batch(text: &str) -> (r: Result<Vec<Block>, String>)
    ensures
        r matches Ok(bs) ==> bs@.len() == batch_lines(text@).len()
            && forall|i: int| 0 <= i < bs@.len() ==> parsed_block(batch_lines(text@)[i]) == Some(#[trigger] bs@[i]@),
        r is Err ==> exists|l: Seq<char>| #[trigger] batch_lines(text@).contains(l) && parsed_block(l) is None,
{
    let lines = split(text, '\n');
    let ghost p = split_spec(text@, '\n');
    let ghost want = batch_lines(text@);
    let mut blocks: Vec<Block> = Vec::new();
    let ghost mut kept: Seq<Seq<char>> = Seq::empty();
    let mut i: usize = 0;
    while i < lines.len()
        invariant
            i <= lines@.len(),
            lines@.len() == p.len(),
            p == split_spec(text@, '\n'),
            want == batch_lines(text@),
            forall|j: int| 0 <= j < lines@.len() ==> #[trigger] lines@[j]@ == p[j],
            kept == kept_lines(p.take(i as int)),
            blocks@.len() == kept.len(),
            forall|j: int| 0 <= j < blocks@.len() ==> parsed_block(kept[j]) == Some(#[trigger] blocks@[j]@),
        decreases lines@.len() - i,
    {
        let line = trim(lines[i].as_str());
        assert(p.take(i + 1).drop_last() =~= p.take(i as int));
        if line.unicode_len() != 0 {
            match Block::deserialize(line) {
                Ok(b) => {
                    blocks.push(b);
                    proof {
                        kept = kept.push(line@);
                    }
                },
                Err(e) => {
                    proof {
                        lemma_filter_prefix(p, i as int, line@);
                        assert(batch_lines(text@).contains(line@));
                    }
                    return Err(e);
                },
            }
        }
        i += 1;
    }
    assert(p.take(lines@.len() as int) =~= p);
    Ok(blocks)
}

/// A line that is not blank once trimmed is kept.
proof fn lemma_filter_prefix(p: Seq<Seq<char>>, i: int, line: Seq<char>)
    requires
        0 <= i < p.len(),
        trim_spec(p[i]) == line,
        line.len() > 0,
    ensures
        kept_lines(p).contains(line),
    decreases p.len(),
{
    if i == p.len() - 1 {
        assert(kept_lines(p).last() == line);
    } else {
        lemma_filter_prefix(p.drop_last(), i, line);
        let k = kept_lines(p.drop_last());
        let w = choose|w: int| 0 <= w < k.len() && k[w] == line;
        assert(kept_lines(p)[w] == line);
    }
}

// ------------------------------------------------------------
// Balances
// ------------------------------------------------------------

pub open spec fn entry_text(e: (Seq<char>, u64)) -> Seq<char> {
    e.0 + seq!['='] + decimal(e.1 as nat)
}

/// A BalanceResponse: `asset=amount;asset=amount|nonce|stake`.
pub open spec fn balance_spec(b: Seq<(Seq<char>, u64)>, nonce: u64, stake: u64) -> Seq<char> {
    join_spec(b.map_values(|e: (Seq<char>, u64)| entry_text(e)), ';') + seq!['|'] + decimal(nonce as nat) + seq!['|']
        + decimal(stake as nat)
}

pub fn balance_response(balances: &[(String, u64)], nonce: u64, stake: u64) -> (r: String)
    ensures
        r@ == balance_spec(crate::blockchain::state::listed(balances@), nonce, stake),
{
    let ghost want = crate::blockchain::state::listed(balances@).map_values(|e: (Seq<char>, u64)| entry_text(e));
    let mut texts: Vec<String> = Vec::new();
    let mut i: usize = 0;
    while i < balances.len()
        invariant
            i <= balances@.len(),
            want == crate::blockchain::state::listed(balances@).map_values(|e: (Seq<char>, u64)| entry_text(e)),
            crate::pepdex::order_journal::string_views(texts@) == want.take(i as int),
        decreases balances@.len() - i,
    {
        let mut t = balances[i].0.clone();
        push_char(&mut t, '=');
        push_str(&mut t, u64_text(balances[i].1).as_str());
        assert(t@ =~= want[i as int]);
        let ghost before = texts@;
        texts.push(t);
        assert(crate::pepdex::order_journal::string_views(texts@) =~= crate::pepdex::order_journal::string_views(before).push(t@));
        assert(want.take(i + 1) =~= want.take(i as int).push(want[i as int]));
        i += 1;
    }
    assert(want.take(balances@.len() as int) =~= want);
    let mut r = crate::pepdex::order_journal::join_strings(&texts, ';');
    push_char(&mut r, '|');
    push_str(&mut r, u64_text(nonce).as_str());
    push_char(&mut r, '|');
    push_str(&mut r, u64_text(stake).as_str());
    r
}

/// What the portfolio entries read as: each trimmed; blank ones left out;
/// `asset=amount` with both sides trimmed; `None` for an entry without `=`
/// or with an amount that is not a `u64`.
pub open spec fn parsed_entries(p: Seq<Seq<char>>) -> Option<Seq<(Seq<char>, u64)>>
    decreases p.len(),
{
    if p.len() == 0 {
        Some(Seq::empty())
    } else {
        match parsed_entries(p.drop_last()) {
            None => None,
            Some(acc) => {
                let e = trim_spec(p.last());
                if e.len() == 0 {
                    Some(acc)
                } else if exists|k: int| is_first_index(e, '=', k) {
                    let k = choose|k: int| is_first_index(e, '=', k);
                    match parse_unsigned(trim_spec(e.skip(k + 1)), u64::MAX as nat) {
                        Some(v) => Some(acc.push((trim_spec(e.take(k)), v as u64))),
                        None => None,
                    }
                } else {
                    None
                }
            },
        }
    }
}

/// What a BalanceResponse reads as.
pub open spec fn parsed_balance(text: Seq<char>) -> Option<(Seq<(Seq<char>, u64)>, u64, u64)> {
    let p = split_spec(trim_spec(text), '|');
    if p.len() != 3 {
        None
    } else {
        let portfolio = if trim_spec(p[0]).len() == 0 { Some(Seq::empty()) } else { parsed_entries(split_spec(p[0], ';')) };
        match (portfolio, parse_unsigned(trim_spec(p[1]), u64::MAX as nat), parse_unsigned(trim_spec(p[2]), u64::MAX as nat)) {
            (Some(b), Some(n), Some(s)) => Some((b, n as u64, s as u64)),
            _ => None,
        }
    }
}

fn parse_entries(text: &str) -> (r: Option<Vec<(String, u64)>>)
    ensures
        match r {
            Some(v) => parsed_entries(split_spec(text@, ';')) == Some(crate::blockchain::state::listed(v@)),
            None => parsed_entries(split_spec(text@, ';')) is None,
        },
{
    let pieces = split(text, ';');
    let ghost p = split_spec(text@, ';');
    let mut out: Vec<(String, u64)> = Vec::new();
    let mut i: usize = 0;
    while i < pieces.len()
        invariant
            i <= pieces@.len(),
            pieces@.len() == p.len(),
            p == split_spec(text@, ';'),
            forall|j: int| 0 <= j < pieces@.len() ==> #[trigger] pieces@[j]@ == p[j],
            parsed_entries(p.take(i as int)) == Some(crate::blockchain::state::listed(out@)),
        decreases pieces@.len() - i,
    {
        assert(p.take(i + 1).drop_last() =~= p.take(i as int));
        let entry = trim(pieces[i].as_str());
        if entry.unicode_len() != 0 {
            match split_once(entry, '=') {
                None => {
                    proof {
                        lemma_entries_prefix_none(p, i as int);
                    }
                    return None;
                },
                Some((asset, amount_text)) => {
                    let ghost k = choose|k: int| is_first_index(entry@, '=', k) && asset@ == entry@.take(k)
                        && amount_text@ == entry@.skip(k + 1);
                    proof {
                        let c = choose|c: int| is_first_index(entry@, '=', c);
                        crate::text::lemma_first_index_unique(entry@, '=', k, c);
                    }
                    match parse_u64(trim(amount_text.as_str())) {
                        Some(v) => {
                            let a = trim(asset.as_str()).to_string();
                            let ghost before = out@;
                            out.push((a, v));
                            assert(crate::blockchain::state::listed(out@) =~= crate::blockchain::state::listed(before).push((a@, v)));
                        },
                        None => {
                            proof {
                                lemma_entries_prefix_none(p, i as int);
                            }
                            return None;
                        },
                    }
                },
            }
        }
        i += 1;
    }
    assert(p.take(pieces@.len() as int) =~= p);
    Some(out)
}

/// Once a prefix of the entries fails to read, so do all the entries.
proof fn lemma_entries_prefix_none(p: Seq<Seq<char>>, i: int)
    requires
        0 <= i < p.len(),
        parsed_entries(p.take(i + 1)) is None,
    ensures
        parsed_entries(p) is None,
    decreases p.len(),
{
    if i + 1 < p.len() {
        assert(p.drop_last().take(i + 1) =~= p.take(i + 1));
        lemma_entries_prefix_none(p.drop_last(), i);
    } else {
        assert(p.take(i + 1) =~= p);
    }
}

/// Reads a BalanceResponse: the balances, nonce and stake.
pub fn parse_balance_response(text: &str) -> (r: Option<(Vec<(String, u64)>, u64, u64)>)
    ensures
        match r {
            Some((b, n, s)) => parsed_balance(text@) == Some((crate::blockchain::state::listed(b@), n, s)),
            None => parsed_balance(text@) is None,
        },
{
    let parts = split(trim(text), '|');
    if parts.len() != 3 {
        return None;
    }
    let balances = if trim(parts[0].as_str()).unicode_len() == 0 {
        let v: Vec<(String, u64)> = Vec::new();
        assert(crate::blockchain::state::listed(v@) =~= Seq::<(Seq<char>, u64)>::empty());
        v
    } else {
        parse_entries(parts[0].as_str())?
    };
    let nonce = parse_u64(trim(parts[1].as_str()))?;
    let stake = parse_u64(trim(parts[2].as_str()))?;
    Some((balances, nonce, stake))
}

// ------------------------------------------------------------
// Asset registration
// ------------------------------------------------------------

/// What `parse_bool` answers: `true`, `1`, `yes` and `false`, `0`, `no`,
/// trimmed and in any ASCII case.
pub open spec fn bool_verdict(value: Seq<char>, field: Seq<char>) -> Result<bool, Seq<char>> {
    let v = ascii_lower(trim_spec(value));
    if v == "true"@ || v == "1"@ || v == "yes"@ {
        Ok(true)
    } else if v == "false"@ || v == "0"@ || v == "no"@ {
        Ok(false)
    } else {
        Err("Invalid "@ + field + " value: "@ + value)
    }
}

pub fn parse_bool(value: &str, field: &str) -> (r: Result<bool, String>)
    ensures
        match r {
            Ok(b) => bool_verdict(value@, field@) == Ok::<bool, Seq<char>>(b),
            Err(m) => bool_verdict(value@, field@) == Err::<bool, Seq<char>>(m@),
        },
{
    let v = to_ascii_lower(trim(value));
    let s = v.as_str();
    if crate::text::str_eq(s, "true") || crate::text::str_eq(s, "1") || crate::text::str_eq(s, "yes") {
        return Ok(true);
    }
    if crate::text::str_eq(s, "false") || crate::text::str_eq(s, "0") || crate::text::str_eq(s, "no") {
        return Ok(false);
    }
    let mut m = "Invalid ".to_string();
    push_str(&mut m, field);
    push_str(&mut m, " value: ");
    push_str(&mut m, value);
    Err(m)
}

/// The asset type a (trimmed, lower-cased) name stands for.
pub open spec fn kind_textd(v: Seq<char>) -> Option<AssetType> {
    if v == "index"@ {
        Some(AssetType::Index)
    } else if v == "pegged"@ {
        Some(AssetType::Pegged)
    } else if v == "ccq"@ {
        Some(AssetType::Ccq)
    } else if v == "native"@ {
        Some(AssetType::Native)
    } else {
        None
    }
}

/// The peg a (trimmed, upper-cased) name stands for: `Some(None)` when empty.
pub open spec fn peg_named(v: Seq<char>) -> Option<Option<Seq<char>>> {
    if v.len() == 0 {
        Some(None)
    } else if v == "BTC"@ || v == "ETH"@ || v == "USDT"@ || v == "USDC"@ {
        Some(Some(v))
    } else {
        None
    }
}

/// What a RegisterAssetRequest reads as: eight `|`-separated fields
/// `id|type|decimals|supply|deploy|transferable|gas|peg`, or the error.
pub open spec fn asset_verdict(text: Seq<char>) -> Result<DefinitionView, Seq<char>> {
    let f = split_spec(trim_spec(text), '|');
    if f.len() != 8 {
        Err("Invalid asset payload: expected 8 fields, got "@ + decimal(f.len()))
    } else if trim_spec(f[0]).len() == 0 {
        Err("Asset ID cannot be empty."@)
    } else if kind_textd(ascii_lower(trim_spec(f[1]))) is None {
        Err("Unknown asset type: "@ + ascii_lower(trim_spec(f[1])))
    } else if parse_unsigned(trim_spec(f[2]), u8::MAX as nat) is None {
        Err("Invalid decimals."@)
    } else if parse_unsigned(trim_spec(f[3]), u64::MAX as nat) is None {
        Err("Invalid supply."@)
    } else if bool_verdict(f[5], "TRS"@) is Err {
        Err(bool_verdict(f[5], "TRS"@)->Err_0)
    } else if bool_verdict(f[6], "GAS"@) is Err {
        Err(bool_verdict(f[6], "GAS"@)->Err_0)
    } else if peg_named(ascii_upper(trim_spec(f[7]))) is None {
        Err("Unsupported PEG: "@ + ascii_upper(trim_spec(f[7])))
    } else {
        Ok((
            unicode_upper(trim_spec(f[0])),
            kind_textd(ascii_lower(trim_spec(f[1])))->0,
            parse_unsigned(trim_spec(f[2]), u8::MAX as nat)->0 as u8,
            parse_unsigned(trim_spec(f[3]), u64::MAX as nat)->0 as u64,
            if trim_spec(f[4]).len() == 0 { None } else { Some(trim_spec(f[4])) },
            bool_verdict(f[5], "TRS"@)->Ok_0,
            bool_verdict(f[6], "GAS"@)->Ok_0,
            peg_named(ascii_upper(trim_spec(f[7])))->0,
        ))
    }
}

fn peg_of(v: &str) -> (r: Result<Option<&'static str>, ()>)
    ensures
        match r {
            Ok(p) => peg_named(v@) == Some(crate::blockchain::asset::opt_static(p)),
            Err(()) => peg_named(v@) is None,
        },
{
    proof {
        reveal_strlit("BTC");
        reveal_strlit("ETH");
        reveal_strlit("USDT");
        reveal_strlit("USDC");
    }
    if v.unicode_len() == 0 {
        return Ok(None);
    }
    if crate::text::str_eq(v, "BTC") {
        return Ok(Some("BTC"));
    }
    if crate::text::str_eq(v, "ETH") {
        return Ok(Some("ETH"));
    }
    if crate::text::str_eq(v, "USDT") {
        return Ok(Some("USDT"));
    }
    if crate::text::str_eq(v, "USDC") {
        return Ok(Some("USDC"));
    }
    Err(())
}

/// Reads a RegisterAssetRequest into an asset definition.
pub fn parse_asset(text: &str) -> (r: Result<AssetDefinition, String>)
    ensures
        match r {
            Ok(d) => asset_verdict(text@) == Ok::<DefinitionView, Seq<char>>(d@),
            Err(m) => asset_verdict(text@) == Err::<DefinitionView, Seq<char>>(m@),
        },
{
    let fields = split(trim(text), '|');
    if fields.len() != 8 {
        let mut m = "Invalid asset payload: expected 8 fields, got ".to_string();
        push_str(&mut m, u64_text(fields.len() as u64).as_str());
        return Err(m);
    }
    let id = trim(fields[0].as_str());
    if id.unicode_len() == 0 {
        return Err("Asset ID cannot be empty.".to_string());
    }
    let kind_text = to_ascii_lower(trim(fields[1].as_str()));
    proof {
        reveal_strlit("index");
        reveal_strlit("pegged");
        reveal_strlit("ccq");
        reveal_strlit("native");
    }
    let asset_type = if crate::text::str_eq(kind_text.as_str(), "index") {
        AssetType::Index
    } else if crate::text::str_eq(kind_text.as_str(), "pegged") {
        AssetType::Pegged
    } else if crate::text::str_eq(kind_text.as_str(), "ccq") {
        AssetType::Ccq
    } else if crate::text::str_eq(kind_text.as_str(), "native") {
        AssetType::Native
    } else {
        let mut m = "Unknown asset type: ".to_string();
        push_str(&mut m, kind_text.as_str());
        return Err(m);
    };
    let decimals = match parse_u8(trim(fields[2].as_str())) {
        Some(v) => v,
        None => return Err("Invalid decimals.".to_string()),
    };
    let supply = match parse_u64(trim(fields[3].as_str())) {
        Some(v) => v,
        None => return Err("Invalid supply.".to_string()),
    };
    let deploy = trim(fields[4].as_str());
    let deploy_address = if deploy.unicode_len() == 0 { None } else { Some(deploy.to_string()) };
    let transferable = parse_bool(fields[5].as_str(), "TRS")?;
    let gas_eligible = parse_bool(fields[6].as_str(), "GAS")?;
    let peg_name = to_ascii_upper(trim(fields[7].as_str()));
    let peg = match peg_of(peg_name.as_str()) {
        Ok(p) => p,
        Err(()) => {
            let mut m = "Unsupported PEG: ".to_string();
            push_str(&mut m, peg_name.as_str());
            return Err(m);
        },
    };
    Ok(AssetDefinition {
        id: AssetId::new(id),
        asset_type,
        decimals,
        supply,
        deploy_address,
        transferable,
        gas_eligible,
        peg,
    })
}

/// The answer to a registration: `OK|id`, or `ERROR|reason`.
pub fn register_response(result: &Result<AssetId, String>) -> (r: String)
    ensures
        match result {
            Ok(id) => r@ == "OK|"@ + id@,
            Err(m) => r@ == "ERROR|"@ + m@,
        },
{
    match result {
        Ok(id) => {
            let mut r = "OK|".to_string();
            push_str(&mut r, id.as_str());
            r
        },
        Err(m) => {
            let mut r = "ERROR|".to_string();
            push_str(&mut r, m.as_str());
            r
        },
    }
}

// ------------------------------------------------------------
// Synchronisation
// ------------------------------------------------------------

/// The next GetBlocks request while catching up to `remote_height`: from
/// `next`, at most `MAX_BLOCK_BATCH` blocks, none past the remote tip; none
/// once `next` is past it.
pub fn next_batch(next: usize, remote_height: usize) -> (r: Option<(usize, usize)>)
    ensures
        next > remote_height ==> r is None,
        next <= remote_height ==> r == Some((next,
            if remote_height - next + 1 < MAX_BLOCK_BATCH { (remote_height - next + 1) as usize } else { MAX_BLOCK_BATCH })),
{
    if next > remote_height {
        return None;
    }
    let left = (remote_height - next).saturating_add(1);
    let count = if left < MAX_BLOCK_BATCH { left } else { MAX_BLOCK_BATCH };
    Some((next, count))
}

// ------------------------------------------------------------
// Peer lists
// ------------------------------------------------------------

/// A Peers answer: the addresses, comma-separated.
pub fn peers_text(peers: &Vec<PeerAddress>) -> (r: String)
    ensures
        r@ == join_spec(peers@.map_values(|p: PeerAddress| p.text@), ','),
{
    let mut texts: Vec<String> = Vec::new();
    let mut i: usize = 0;
    while i < peers.len()
        invariant
            i <= peers@.len(),
            texts@.map_values(|s: String| s@) == peers@.map_values(|p: PeerAddress| p.text@).take(i as int),
        decreases peers@.len() - i,
    {
        let ghost before = texts@;
        texts.push(peers[i].text.clone());
        assert(texts@.map_values(|s: String| s@) =~= before.map_values(|s: String| s@).push(peers@[i as int].text@));
        assert(peers@.map_values(|p: PeerAddress| p.text@).take(i + 1)
            =~= peers@.map_values(|p: PeerAddress| p.text@).take(i as int).push(peers@[i as int].text@));
        i += 1;
    }
    assert(peers@.map_values(|p: PeerAddress| p.text@).take(peers@.len() as int) =~= peers@.map_values(|p: PeerAddress| p.text@));
    join_strings(&texts, ',')
}

/// The addresses of a Peers answer: the comma-separated pieces, trimmed,
/// without the empty ones.
pub fn parse_peer_list(text: &str) -> (r: Vec<String>)
    ensures
        r@.map_values(|s: String| s@) == kept_lines(split_spec(text@, ',')),
{
    let pieces = split(text, ',');
    let ghost p = split_spec(text@, ',');
    let mut out: Vec<String> = Vec::new();
    let mut i: usize = 0;
    while i < pieces.len()
        invariant
            i <= pieces@.len(),
            pieces@.map_values(|s: String| s@) == p,
            out@.map_values(|s: String| s@) == kept_lines(p.take(i as int)),
        decreases pieces@.len() - i,
    {
        assert(p.take(i + 1).drop_last() =~= p.take(i as int));
        assert(p[i as int] == pieces@[i as int]@);
        let piece = trim(pieces[i].as_str());
        if piece.unicode_len() != 0 {
            let ghost before = out@;
            out.push(piece.to_string());
            assert(out@.map_values(|s: String| s@) =~= before.map_values(|s: String| s@).push(piece@));
        }
        i += 1;
    }
    assert(p.take(pieces@.len() as int) =~= p);
    out
}

/// Pieces that are already trimmed and not empty are all kept.
proof fn lemma_kept_all(p: Seq<Seq<char>>)
    requires
        forall|i: int| 0 <= i < p.len() ==> (#[trigger] p[i]).len() > 0 && trim_spec(p[i]) == p[i],
    ensures
        kept_lines(p) == p,
    decreases p.len(),
{
    if p.len() > 0 {
        lemma_kept_all(p.drop_last());
        assert(p.drop_last().push(p.last()) =~= p);
    }
}

/// A list of addresses sent as a Peers answer reads back as the same list,
/// when each address is trimmed, not empty and free of commas.
pub proof fn lemma_peer_list_round_trip(texts: Seq<Seq<char>>)
    requires
        forall|i: int| 0 <= i < texts.len() ==> (#[trigger] texts[i]).len() > 0 && trim_spec(texts[i]) == texts[i],
        forall|i: int, j: int| 0 <= i < texts.len() && 0 <= j < texts[i].len() ==> texts[i][j] != ',',
    ensures
        kept_lines(split_spec(join_spec(texts, ','), ',')) == texts,
{
    if texts.len() == 0 {
        let e = Seq::<char>::empty();
        assert(split_spec(join_spec(texts, ','), ',') == seq![e]);
        assert(crate::text::trim_start_spec(e) == e);
        assert(crate::text::trim_end_spec(e) == e);
        assert(kept_lines(seq![e]).len() == 0) by {
            let q = seq![e];
            assert(q.drop_last() =~= Seq::<Seq<char>>::empty());
            assert(q.last() == e);
            assert(trim_spec(e) == e);
            assert(kept_lines(q.drop_last()).len() == 0);
        }
        assert(kept_lines(seq![e]) =~= texts);
    } else {
        crate::text::lemma_split_join(texts, ',');
        lemma_kept_all(texts);
    }
}

// ------------------------------------------------------------
// Discovery
// ------------------------------------------------------------

/// The address a discovery reply announces: the trimmed reply must begin with
/// `PEP_NODE|`, and the trimmed rest, unless empty, is the address.
pub open spec fn announced_address(reply: Seq<char>) -> Option<Seq<char>> {
    let t = trim_spec(reply);
    let prefix = seq!['P', 'E', 'P', '_', 'N', 'O', 'D', 'E', '|'];
    if starts_with_spec(t, prefix) {
        let a = trim_spec(t.subrange(9, t.len() as int));
        if a.len() > 0 { Some(a) } else { None }
    } else {
        None
    }
}

/// Reads the node address out of a reply to a discovery broadcast.
pub fn discovery_address(reply: &str) -> (r: Option<String>)
    ensures
        match r {
            Some(a) => announced_address(reply@) == Some(a@),
            None => announced_address(reply@) is None,
        },
{
    let t = trim(reply);
    let prefix = "PEP_NODE|";
    proof {
        reveal_strlit("PEP_NODE|");
    }
    assert(prefix@ == seq!['P', 'E', 'P', '_', 'N', 'O', 'D', 'E', '|']);
    if !starts_with(t, prefix) {
        return None;
    }
    let cs = chars_of(t);
    let mut rest = String::new();
    let mut i: usize = 9;
    while i < cs.len()
        invariant
            9 <= i <= cs@.len(),
            rest@ == cs@.subrange(9, i as int),
        decreases cs@.len() - i,
    {
        push_char(&mut rest, cs[i]);
        assert(cs@.subrange(9, i as int).push(cs@[i as int]) =~= cs@.subrange(9, i + 1));
        i += 1;
    }
    let a = trim(rest.as_str());
    if a.unicode_len() == 0 {
        return None;
    }
    Some(a.to_string())
}

/// A node's answer to a discovery broadcast: `PEP_NODE|` and its address.
pub fn discovery_reply(address: &str) -> (r: String)
    ensures
        r@ == seq!['P', 'E', 'P', '_', 'N', 'O', 'D', 'E', '|'] + address@,
{
    let mut r = String::new();
    let prefix = "PEP_NODE|";
    proof {
        reveal_strlit("PEP_NODE|");
    }
    push_str(&mut r, prefix);
    push_str(&mut r, address);
    r
}

/// A node's discovery answer announces its address, when the address is
/// trimmed and not empty.
pub proof fn lemma_discovery_round_trip(address: Seq<char>)
    requires
        address.len() > 0,
        trim_spec(address) == address,
    ensures
        announced_address(seq!['P', 'E', 'P', '_', 'N', 'O', 'D', 'E', '|'] + address) == Some(address),
{
    let prefix = seq!['P', 'E', 'P', '_', 'N', 'O', 'D', 'E', '|'];
    let t = prefix + address;
    crate::text::lemma_trimmed_ends(address);
    assert(t[0] == 'P');
    assert(crate::text::trim_start_spec(t) == t);
    assert(t.last() == address.last());
    assert(crate::text::trim_end_spec(t) == t);
    assert(trim_spec(t) == t);
    assert(t.subrange(0, 9) =~= prefix);
    assert(t.subrange(9, t.len() as int) =~= address);
}

} // verus!
