//! The chain file: one block text per line.
use vstd::prelude::*;
use crate::blockchain::block::{block_text, lemma_block_one_line, lemma_block_round_trip, parsed_block, consistent, storable, Block, BlockView};
use crate::blockchain::consensus::difficulty::block_views;
use crate::pepdex::order_journal::free_of;
use crate::text::{lemma_split_append, push_char, push_str, split, split_spec, trim, trim_spec};

verus! {

/// The file text of a chain: each block's text followed by a line feed.
pub open spec fn chain_text(c: Seq<BlockView>) -> Seq<char>
    decreases c.len(),
{
    if c.len() == 0 {
        Seq::empty()
    } else {
        chain_text(c.drop_last()) + block_text(c.last()) + seq!['\n']
    }
}

/// A line without the carriage return that ended it.
pub open spec fn strip_cr(l: Seq<char>) -> Seq<char> {
    if l.len() > 0 && l.last() == '\r' { l.drop_last() } else { l }
}

/// The lines of a text as `str::lines` gives them: split at line feeds, a
/// carriage return before a line feed dropped.
pub open spec fn text_lines(data: Seq<char>) -> Seq<Seq<char>> {
    let p = split_spec(data, '\n');
    Seq::new(p.len(), |i: int| if i < p.len() - 1 { strip_cr(p[i]) } else { p[i] })
}

/// The lines that are not blank once trimmed (kept untrimmed).
pub open spec fn filled(lines: Seq<Seq<char>>) -> Seq<Seq<char>>
    decreases lines.len(),
{
    if lines.len() == 0 {
        Seq::empty()
    } else {
        let k = filled(lines.drop_last());
        if trim_spec(lines.last()).len() > 0 { k.push(lines.last()) } else { k }
    }
}

/// What a chain file reads as: each filled line a block, else nothing.
pub open spec fn parsed_chain(data: Seq<char>) -> Option<Seq<BlockView>> {
    let l = filled(text_lines(data));
    if forall|i: int| 0 <= i < l.len() ==> (#[trigger] parsed_block(l[i])) is Some {
        Some(Seq::new(l.len(), |i: int| parsed_block(l[i])->0))
    } else {
        None
    }
}

pub struct ChainStore;

impl ChainStore {
    /// The file text of the blocks (what `save` writes).
    pub fn text(blocks: &[Block]) -> (r: String)
        ensures
            r@ == chain_text(block_views(blocks@)),
    {
        let ghost c = block_views(blocks@);
        let mut out = String::new();
        let mut i: usize = 0;
        while i < blocks.len()
            invariant
                i <= blocks@.len(),
                c == block_views(blocks@),
                out@ == chain_text(c.take(i as int)),
            decreases blocks@.len() - i,
        {
            let t = blocks[i].serialize();
            push_str(&mut out, t.as_str());
            push_char(&mut out, '\n');
            assert(c.take(i + 1).drop_last() =~= c.take(i as int));
            i += 1;
        }
        assert(c.take(blocks@.len() as int) =~= c);
        out
    }

    /// The blocks of a chain file (what `load` computes from the file's text).
    pub fn parse(data: &str) -> (r: Option<Vec<Block>>)
        ensures
            match r {
                Some(bs) => parsed_chain(data@) == Some(block_views(bs@)),
                None => parsed_chain(data@) is None,
            },
    {
        let pieces = split(data, '\n');
        let ghost p = split_spec(data@, '\n');
        let ghost lines = text_lines(data@);
        let mut blocks: Vec<Block> = Vec::new();
        let ghost mut kept: Seq<Seq<char>> = Seq::empty();
        let mut i: usize = 0;
        while i < pieces.len()
            invariant
                i <= pieces@.len(),
                pieces@.len() == p.len(),
                p == split_spec(data@, '\n'),
                lines == text_lines(data@),
                forall|j: int| 0 <= j < pieces@.len() ==> #[trigger] pieces@[j]@ == p[j],
                kept == filled(lines.take(i as int)),
                blocks@.len() == kept.len(),
                forall|j: int| 0 <= j < blocks@.len() ==> parsed_block(kept[j]) == Some(#[trigger] blocks@[j]@),
            decreases pieces@.len() - i,
        {
            let piece = pieces[i].as_str();
            let n = piece.unicode_len();
            let line: String = if i + 1 < pieces.len() && n > 0 && piece.get_char(n - 1) == '\r' {
                piece.substring_char(0, n - 1).to_string()
            } else {
                piece.to_string()
            };
            assert(line@ == lines[i as int]) by {
                if i + 1 < pieces.len() && n > 0 && p[i as int].last() == '\r' {
                    assert(line@ =~= p[i as int].drop_last());
                }
            }
            assert(lines.take(i + 1).drop_last() =~= lines.take(i as int));
            if trim(line.as_str()).unicode_len() != 0 {
                match Block::deserialize(line.as_str()) {
                    Ok(b) => {
                        blocks.push(b);
                        proof {
                            kept = kept.push(line@);
                        }
                    },
                    Err(_) => {
                        proof {
                            lemma_filled_has(lines, i as int);
                            let l = filled(lines);
                            let w = choose|w: int| 0 <= w < l.len() && l[w] == line@;
                            assert(parsed_block(l[w]) is None);
                        }
                        return None;
                    },
                }
            }
            i += 1;
        }
        proof {
            assert(lines.len() == p.len());
            assert(lines.take(pieces@.len() as int) =~= lines);
            assert forall|j: int| 0 <= j < kept.len() implies (#[trigger] parsed_block(kept[j])) is Some by {
                assert(parsed_block(kept[j]) == Some(blocks@[j]@));
            }
            assert(block_views(blocks@) =~= Seq::new(kept.len(), |j: int| parsed_block(kept[j])->0));
        }
        Some(blocks)
    }
}

/// A filled line is among the filled lines.
proof fn lemma_filled_has(lines: Seq<Seq<char>>, i: int)
    requires
        0 <= i < lines.len(),
        trim_spec(lines[i]).len() > 0,
    ensures
        exists|w: int| 0 <= w < filled(lines).len() && filled(lines)[w] == lines[i],
    decreases lines.len(),
{
    if i == lines.len() - 1 {
        assert(filled(lines)[filled(lines).len() - 1] == lines[i]);
    } else {
        lemma_filled_has(lines.drop_last(), i);
        let w = choose|w: int| 0 <= w < filled(lines.drop_last()).len() && filled(lines.drop_last())[w] == lines[i];
        assert(filled(lines)[w] == lines[i]);
    }
}

/// A text starting with a character that is not white space is not blank.
proof fn lemma_not_blank(s: Seq<char>)
    requires
        s.len() > 0,
        !crate::text::is_whitespace(s[0]),
    ensures
        trim_spec(s).len() > 0,
{
    assert(crate::text::trim_start_spec(s) == s);
    lemma_trim_end_keeps(s);
}

proof fn lemma_trim_end_keeps(s: Seq<char>)
    requires
        s.len() > 0,
        !crate::text::is_whitespace(s[0]),
    ensures
        crate::text::trim_end_spec(s).len() > 0,
    decreases s.len(),
{
    if s.len() > 1 && crate::text::is_whitespace(s.last()) {
        lemma_trim_end_keeps(s.drop_last());
    }
}

/// The pieces of a chain text at line feeds: the block texts, then an
/// empty piece.
proof fn lemma_chain_pieces(c: Seq<BlockView>)
    requires
        forall|i: int| 0 <= i < c.len() ==> free_of(#[trigger] block_text(c[i]), '\n'),
    ensures
        split_spec(chain_text(c), '\n') == c.map_values(|b: BlockView| block_text(b)).push(Seq::<char>::empty()),
    decreases c.len(),
{
    if c.len() == 0 {
        assert(chain_text(c) =~= Seq::<char>::empty());
        assert(c.map_values(|b: BlockView| block_text(b)).push(Seq::<char>::empty()) =~= seq![Seq::<char>::empty()]);
    } else {
        let d = c.drop_last();
        assert forall|i: int| 0 <= i < d.len() implies free_of(#[trigger] block_text(d[i]), '\n') by {
            assert(d[i] == c[i]);
        }
        lemma_chain_pieces(d);
        let x = chain_text(d);
        let bt = block_text(c.last());
        assert(free_of(bt, '\n')) by {
            assert(c[c.len() - 1] == c.last());
        }
        lemma_split_append(x, bt, '\n');
        let sx = split_spec(x, '\n');
        assert(sx.last() + bt =~= bt);
        let y = x + bt;
        assert(chain_text(c) == y.push('\n'));
        assert(y.push('\n').drop_last() =~= y);
        assert(split_spec(chain_text(c), '\n') == split_spec(y, '\n').push(Seq::<char>::empty()));
        assert(split_spec(y, '\n') =~= c.map_values(|b: BlockView| block_text(b)));
    }
}

/// Only the lines kept are the lines that are not blank.
proof fn lemma_filled_all(t: Seq<Seq<char>>)
    requires
        forall|i: int| 0 <= i < t.len() ==> trim_spec(#[trigger] t[i]).len() > 0,
    ensures
        filled(t) == t,
    decreases t.len(),
{
    if t.len() > 0 {
        lemma_filled_all(t.drop_last());
        assert(trim_spec(t[t.len() - 1]).len() > 0);
        assert(t.drop_last().push(t.last()) =~= t);
    }
}

/// Reading a chain's file text back gives the chain, when each block's header
/// commits to its transactions, its hashes have 32 bytes and each of its
/// transactions is storable.
pub proof fn lemma_chain_round_trip(c: Seq<BlockView>)
    requires
        forall|i: int| 0 <= i < c.len() ==> (#[trigger] c[i]).0.1.len() == 32 && c[i].0.2.len() == 32 && consistent(c[i])
            && forall|k: int| 0 <= k < c[i].1.len() ==> storable(#[trigger] c[i].1[k]),
    ensures
        parsed_chain(chain_text(c)) == Some(c),
{
    let texts = c.map_values(|b: BlockView| block_text(b));
    assert forall|i: int| 0 <= i < c.len() implies free_of(#[trigger] block_text(c[i]), '\n') && free_of(block_text(c[i]), '\r')
        && block_text(c[i]).len() > 0 by {
        lemma_block_one_line(c[i]);
    }
    lemma_chain_pieces(c);
    let p = split_spec(chain_text(c), '\n');
    let lines = text_lines(chain_text(c));
    assert forall|i: int| 0 <= i < c.len() implies lines[i] == texts[i] by {
        let t = block_text(c[i]);
        assert(p[i] == t);
        if t.len() > 0 && t.last() == '\r' {
            assert(t[t.len() - 1] == '\r');
        }
    }
    assert(lines.last() == Seq::<char>::empty());
    assert(lines.drop_last() =~= texts);
    assert forall|i: int| 0 <= i < texts.len() implies trim_spec(#[trigger] texts[i]).len() > 0 by {
        let h = crate::blockchain::block_header::header_text(c[i].0);
        crate::text::lemma_decimal_digits(c[i].0.0 as nat);
        crate::blockchain::block::lemma_header_free(c[i].0, '@');
        assert(h == crate::text::join_spec(crate::blockchain::block_header::header_fields(c[i].0), '#'));
        lemma_join_first(crate::blockchain::block_header::header_fields(c[i].0), '#');
        assert(texts[i][0] == h[0]);
        assert(crate::text::is_digit(h[0]));
        lemma_not_blank(texts[i]);
    }
    lemma_filled_all(texts);
    assert(trim_spec(lines.last()).len() == 0) by {
        assert(trim_spec(Seq::<char>::empty()) =~= Seq::<char>::empty());
    }
    assert(filled(lines) == texts) by {
        assert(lines.drop_last() == texts);
    }
    assert forall|i: int| 0 <= i < texts.len() implies (#[trigger] parsed_block(texts[i])) == Some(c[i]) by {
        lemma_block_round_trip(c[i]);
    }
    assert(parsed_chain(chain_text(c)) =~= Some(c));
}

/// A join starts with its first piece when that is not empty.
proof fn lemma_join_first(p: Seq<Seq<char>>, sep: char)
    requires
        p.len() >= 1,
        p[0].len() > 0,
    ensures
        crate::text::join_spec(p, sep).len() > 0,
        crate::text::join_spec(p, sep)[0] == p[0][0],
    decreases p.len(),
{
    if p.len() > 1 {
        lemma_join_first(p.drop_last(), sep);
    }
}

} // verus!
