//! The line format of the order journal: one record per line, fields separated by
//! `|`, child and external orders by `;`, their fields by `~`, and those four
//! characters (with `\` and new lines) escaped inside text fields.
use vstd::prelude::*;
use crate::pepdex::order::{OrderId, ParentOrder, ParentOrderStatus};
use crate::pepdex::order_manager::OrderLifecycle;
use crate::pepdex::order_store::{OrderStoreError, StoredChildOrder, StoredExternalOrder, StoredOrder, MemoryOrderStore};
use crate::pepdex::venue::{VenueId, VenueOrderSide, VenueOrderType};
use crate::text::{
    chars_of, decimal, is_digit, join_spec, lemma_decimal_digits, lemma_join_free, lemma_join_len, lemma_split_join, parse_u64, parse_unsigned, push_char, push_str, split, split_spec, str_eq, u64_text,
};

verus! {

// ---------------------------------------------------------------------------
// Escaping.
// ---------------------------------------------------------------------------

/// How one character is written in a text field.
pub open spec fn esc_char(c: char) -> Seq<char> {
    if c == '\\' {
        seq!['\\', '\\']
    } else if c == '|' {
        seq!['\\', 'p']
    } else if c == '~' {
        seq!['\\', 't']
    } else if c == ';' {
        seq!['\\', 's']
    } else if c == '\n' {
        seq!['\\', 'n']
    } else {
        seq![c]
    }
}

pub open spec fn escape_spec(s: Seq<char>) -> Seq<char>
    decreases s.len(),
{
    if s.len() == 0 { Seq::empty() } else { esc_char(s[0]) + escape_spec(s.drop_first()) }
}

/// The character an escape code stands for (an unknown code stands for itself
/// after a backslash).
pub open spec fn unesc_code(c: char) -> Seq<char> {
    if c == 'p' {
        seq!['|']
    } else if c == 't' {
        seq!['~']
    } else if c == 's' {
        seq![';']
    } else if c == 'n' {
        seq!['\n']
    } else if c == '\\' {
        seq!['\\']
    } else {
        seq!['\\', c]
    }
}

pub open spec fn unescape_spec(s: Seq<char>) -> Seq<char>
    decreases s.len(),
{
    if s.len() == 0 {
        Seq::empty()
    } else if s[0] != '\\' {
        seq![s[0]] + unescape_spec(s.drop_first())
    } else if s.len() == 1 {
        seq!['\\']
    } else {
        unesc_code(s[1]) + unescape_spec(s.skip(2))
    }
}

/// The character does not occur in the text.
pub open spec fn free_of(s: Seq<char>, c: char) -> bool {
    forall|i: int| 0 <= i < s.len() ==> s[i] != c
}

/// Text that can stand as a field of a record: no field or item separator.
pub open spec fn plain(s: Seq<char>) -> bool {
    free_of(s, '|') && free_of(s, '~') && free_of(s, ';')
}

/// Escapes the separators, backslashes and new lines of a text field.
pub fn escape(value: &str) -> (r: String)
    ensures
        r@ == escape_spec(value@),
{
    let cs = chars_of(value);
    let mut out = String::new();
    let mut i: usize = 0;
    assert(cs@.skip(0) =~= cs@);
    assert(out@ + escape_spec(cs@) =~= escape_spec(cs@));
    while i < cs.len()
        invariant
            i <= cs@.len(),
            cs@ == value@,
            out@ + escape_spec(cs@.skip(i as int)) == escape_spec(cs@),
        decreases cs@.len() - i,
    {
        let c = cs[i];
        assert(cs@.skip(i as int).drop_first() =~= cs@.skip(i + 1));
        assert(cs@.skip(i as int)[0] == c);
        let ghost before = out@;
        if c == '\\' {
            push_char(&mut out, '\\');
            push_char(&mut out, '\\');
        } else if c == '|' {
            push_char(&mut out, '\\');
            push_char(&mut out, 'p');
        } else if c == '~' {
            push_char(&mut out, '\\');
            push_char(&mut out, 't');
        } else if c == ';' {
            push_char(&mut out, '\\');
            push_char(&mut out, 's');
        } else if c == '\n' {
            push_char(&mut out, '\\');
            push_char(&mut out, 'n');
        } else {
            push_char(&mut out, c);
        }
        assert(out@ =~= before + esc_char(c));
        assert(before + escape_spec(cs@.skip(i as int)) =~= out@ + escape_spec(cs@.skip(i + 1)));
        i += 1;
    }
    assert(cs@.skip(cs@.len() as int) =~= Seq::<char>::empty());
    assert(out@ + Seq::<char>::empty() =~= out@);
    out
}

/// Reads an escaped text field back.
pub fn unescape(value: &str) -> (r: String)
    ensures
        r@ == unescape_spec(value@),
{
    let cs = chars_of(value);
    let n = cs.len();
    let mut out = String::new();
    let mut i: usize = 0;
    assert(cs@.skip(0) =~= cs@);
    assert(out@ + unescape_spec(cs@) =~= unescape_spec(cs@));
    while i < n
        invariant
            i <= n,
            n == cs@.len(),
            cs@ == value@,
            out@ + unescape_spec(cs@.skip(i as int)) == unescape_spec(cs@),
        decreases n - i,
    {
        let c = cs[i];
        let ghost rest = cs@.skip(i as int);
        let ghost before = out@;
        assert(rest[0] == c);
        if c != '\\' {
            push_char(&mut out, c);
            assert(rest.drop_first() =~= cs@.skip(i + 1));
            assert(before + unescape_spec(rest) =~= out@ + unescape_spec(cs@.skip(i + 1)));
            i += 1;
        } else if i + 1 == n {
            push_char(&mut out, '\\');
            assert(rest.len() == 1);
            assert(cs@.skip(i + 1) =~= Seq::<char>::empty());
            assert(before + unescape_spec(rest) =~= out@ + unescape_spec(cs@.skip(i + 1)));
            i += 1;
        } else {
            let d = cs[i + 1];
            assert(rest[1] == d);
            assert(rest.skip(2) =~= cs@.skip(i + 2));
            if d == 'p' {
                push_char(&mut out, '|');
            } else if d == 't' {
                push_char(&mut out, '~');
            } else if d == 's' {
                push_char(&mut out, ';');
            } else if d == 'n' {
                push_char(&mut out, '\n');
            } else if d == '\\' {
                push_char(&mut out, '\\');
            } else {
                push_char(&mut out, '\\');
                push_char(&mut out, d);
            }
            assert(out@ =~= before + unesc_code(d));
            assert(before + unescape_spec(rest) =~= out@ + unescape_spec(cs@.skip(i + 2)));
            i += 2;
        }
    }
    assert(cs@.skip(n as int) =~= Seq::<char>::empty());
    assert(out@ + Seq::<char>::empty() =~= out@);
    out
}

/// Reading an escaped field back gives the original text.
pub proof fn lemma_unescape_escape(s: Seq<char>)
    ensures
        unescape_spec(escape_spec(s)) == s,
    decreases s.len(),
{
    if s.len() > 0 {
        let rest = s.drop_first();
        lemma_unescape_escape(rest);
        let e = escape_spec(s);
        let c = s[0];
        assert(e == esc_char(c) + escape_spec(rest));
        if c == '\\' || c == '|' || c == '~' || c == ';' || c == '\n' {
            assert(e[0] == '\\');
            assert(e.skip(2) =~= escape_spec(rest));
            assert(unescape_spec(e) == unesc_code(e[1]) + unescape_spec(e.skip(2)));
            assert(unesc_code(e[1]) =~= seq![c]);
        } else {
            assert(e[0] == c);
            assert(e.drop_first() =~= escape_spec(rest));
        }
        assert(seq![c] + rest =~= s);
    } else {
        assert(escape_spec(s) =~= Seq::<char>::empty());
    }
}

/// An escaped field holds no separator and no new line.
pub proof fn lemma_escape_plain(s: Seq<char>)
    ensures
        plain(escape_spec(s)),
        free_of(escape_spec(s), '\n'),
    decreases s.len(),
{
    if s.len() > 0 {
        lemma_escape_plain(s.drop_first());
        let e = escape_spec(s);
        let h = esc_char(s[0]);
        let t = escape_spec(s.drop_first());
        assert(e == h + t);
        assert forall|i: int| 0 <= i < e.len() implies e[i] != '|' && e[i] != '~' && e[i] != ';' && e[i] != '\n' by {
            if i < h.len() {
                assert(e[i] == h[i]);
            } else {
                assert(e[i] == t[i - h.len()]);
            }
        }
    }
}

// ---------------------------------------------------------------------------
// Codes of the enumerations.
// ---------------------------------------------------------------------------

pub open spec fn side_code(side: VenueOrderSide) -> Seq<char> {
    match side {
        VenueOrderSide::Buy => "B"@,
        VenueOrderSide::Sell => "S"@,
    }
}

pub open spec fn side_of(s: Seq<char>) -> Option<VenueOrderSide> {
    if s == "B"@ { Some(VenueOrderSide::Buy) } else if s == "S"@ { Some(VenueOrderSide::Sell) } else { None }
}

pub open spec fn type_code(t: VenueOrderType) -> Seq<char> {
    match t {
        VenueOrderType::Market => "M"@,
        VenueOrderType::Limit => "L"@,
    }
}

pub open spec fn type_of(s: Seq<char>) -> Option<VenueOrderType> {
    if s == "M"@ { Some(VenueOrderType::Market) } else if s == "L"@ { Some(VenueOrderType::Limit) } else { None }
}

pub open spec fn venue_code(v: VenueId) -> Seq<char> {
    match v {
        VenueId::Aster => "ASTER"@,
        VenueId::Binance => "BINANCE"@,
        VenueId::EdgeX => "EDGEX"@,
        VenueId::Okx => "OKX"@,
    }
}

pub open spec fn venue_of(s: Seq<char>) -> Option<VenueId> {
    if s == "ASTER"@ {
        Some(VenueId::Aster)
    } else if s == "BINANCE"@ {
        Some(VenueId::Binance)
    } else if s == "EDGEX"@ {
        Some(VenueId::EdgeX)
    } else if s == "OKX"@ {
        Some(VenueId::Okx)
    } else {
        None
    }
}

pub open spec fn lifecycle_code(l: OrderLifecycle) -> Seq<char> {
    match l {
        OrderLifecycle::Received => "RECEIVED"@,
        OrderLifecycle::RiskChecked => "RISK"@,
        OrderLifecycle::Reserved => "RESERVED"@,
        OrderLifecycle::MarketData => "MARKET_DATA"@,
        OrderLifecycle::Routed => "ROUTED"@,
        OrderLifecycle::Split => "SPLIT"@,
        OrderLifecycle::Executing => "EXECUTING"@,
        OrderLifecycle::Aggregated => "AGGREGATED"@,
        OrderLifecycle::Settled => "SETTLED"@,
        OrderLifecycle::PartiallySettled => "PARTIAL_SETTLED"@,
        OrderLifecycle::Failed => "FAILED"@,
    }
}

pub open spec fn lifecycle_of(s: Seq<char>) -> Option<OrderLifecycle> {
    if s == "RECEIVED"@ {
        Some(OrderLifecycle::Received)
    } else if s == "RISK"@ {
        Some(OrderLifecycle::RiskChecked)
    } else if s == "RESERVED"@ {
        Some(OrderLifecycle::Reserved)
    } else if s == "MARKET_DATA"@ {
        Some(OrderLifecycle::MarketData)
    } else if s == "ROUTED"@ {
        Some(OrderLifecycle::Routed)
    } else if s == "SPLIT"@ {
        Some(OrderLifecycle::Split)
    } else if s == "EXECUTING"@ {
        Some(OrderLifecycle::Executing)
    } else if s == "AGGREGATED"@ {
        Some(OrderLifecycle::Aggregated)
    } else if s == "SETTLED"@ {
        Some(OrderLifecycle::Settled)
    } else if s == "PARTIAL_SETTLED"@ {
        Some(OrderLifecycle::PartiallySettled)
    } else if s == "FAILED"@ {
        Some(OrderLifecycle::Failed)
    } else {
        None
    }
}

/// The parent status a lifecycle implies when a record is read back.
pub open spec fn status_of_lifecycle(l: OrderLifecycle) -> ParentOrderStatus {
    match l {
        OrderLifecycle::Settled => ParentOrderStatus::Filled,
        OrderLifecycle::PartiallySettled => ParentOrderStatus::PartiallyFilled,
        OrderLifecycle::Failed => ParentOrderStatus::Failed,
        _ => ParentOrderStatus::New,
    }
}

pub fn encode_side(side: VenueOrderSide) -> (r: &'static str)
    ensures
        r@ == side_code(side),
{
    match side {
        VenueOrderSide::Buy => "B",
        VenueOrderSide::Sell => "S",
    }
}

pub fn decode_side(value: &str) -> (r: Result<VenueOrderSide, OrderStoreError>)
    ensures
        match side_of(value@) {
            Some(s) => r == Ok::<VenueOrderSide, OrderStoreError>(s),
            None => r matches Err(OrderStoreError::CorruptedRecord),
        },
{
    if str_eq(value, "B") {
        Ok(VenueOrderSide::Buy)
    } else if str_eq(value, "S") {
        Ok(VenueOrderSide::Sell)
    } else {
        Err(OrderStoreError::CorruptedRecord)
    }
}

pub fn encode_order_type(order_type: VenueOrderType) -> (r: &'static str)
    ensures
        r@ == type_code(order_type),
{
    match order_type {
        VenueOrderType::Market => "M",
        VenueOrderType::Limit => "L",
    }
}

pub fn decode_order_type(value: &str) -> (r: Result<VenueOrderType, OrderStoreError>)
    ensures
        match type_of(value@) {
            Some(t) => r == Ok::<VenueOrderType, OrderStoreError>(t),
            None => r matches Err(OrderStoreError::CorruptedRecord),
        },
{
    if str_eq(value, "M") {
        Ok(VenueOrderType::Market)
    } else if str_eq(value, "L") {
        Ok(VenueOrderType::Limit)
    } else {
        Err(OrderStoreError::CorruptedRecord)
    }
}

pub fn encode_venue(venue: VenueId) -> (r: &'static str)
    ensures
        r@ == venue_code(venue),
{
    match venue {
        VenueId::Aster => "ASTER",
        VenueId::Binance => "BINANCE",
        VenueId::EdgeX => "EDGEX",
        VenueId::Okx => "OKX",
    }
}

pub fn decode_venue(value: &str) -> (r: Result<VenueId, OrderStoreError>)
    ensures
        match venue_of(value@) {
            Some(v) => r == Ok::<VenueId, OrderStoreError>(v),
            None => r matches Err(OrderStoreError::CorruptedRecord),
        },
{
    if str_eq(value, "ASTER") {
        Ok(VenueId::Aster)
    } else if str_eq(value, "BINANCE") {
        Ok(VenueId::Binance)
    } else if str_eq(value, "EDGEX") {
        Ok(VenueId::EdgeX)
    } else if str_eq(value, "OKX") {
        Ok(VenueId::Okx)
    } else {
        Err(OrderStoreError::CorruptedRecord)
    }
}

pub fn encode_lifecycle(lifecycle: OrderLifecycle) -> (r: &'static str)
    ensures
        r@ == lifecycle_code(lifecycle),
{
    match lifecycle {
        OrderLifecycle::Received => "RECEIVED",
        OrderLifecycle::RiskChecked => "RISK",
        OrderLifecycle::Reserved => "RESERVED",
        OrderLifecycle::MarketData => "MARKET_DATA",
        OrderLifecycle::Routed => "ROUTED",
        OrderLifecycle::Split => "SPLIT",
        OrderLifecycle::Executing => "EXECUTING",
        OrderLifecycle::Aggregated => "AGGREGATED",
        OrderLifecycle::Settled => "SETTLED",
        OrderLifecycle::PartiallySettled => "PARTIAL_SETTLED",
        OrderLifecycle::Failed => "FAILED",
    }
}

pub fn decode_lifecycle(value: &str) -> (r: Result<OrderLifecycle, OrderStoreError>)
    ensures
        match lifecycle_of(value@) {
            Some(l) => r == Ok::<OrderLifecycle, OrderStoreError>(l),
            None => r matches Err(OrderStoreError::CorruptedRecord),
        },
{
    if str_eq(value, "RECEIVED") {
        Ok(OrderLifecycle::Received)
    } else if str_eq(value, "RISK") {
        Ok(OrderLifecycle::RiskChecked)
    } else if str_eq(value, "RESERVED") {
        Ok(OrderLifecycle::Reserved)
    } else if str_eq(value, "MARKET_DATA") {
        Ok(OrderLifecycle::MarketData)
    } else if str_eq(value, "ROUTED") {
        Ok(OrderLifecycle::Routed)
    } else if str_eq(value, "SPLIT") {
        Ok(OrderLifecycle::Split)
    } else if str_eq(value, "EXECUTING") {
        Ok(OrderLifecycle::Executing)
    } else if str_eq(value, "AGGREGATED") {
        Ok(OrderLifecycle::Aggregated)
    } else if str_eq(value, "SETTLED") {
        Ok(OrderLifecycle::Settled)
    } else if str_eq(value, "PARTIAL_SETTLED") {
        Ok(OrderLifecycle::PartiallySettled)
    } else if str_eq(value, "FAILED") {
        Ok(OrderLifecycle::Failed)
    } else {
        Err(OrderStoreError::CorruptedRecord)
    }
}

pub fn parent_status_from_lifecycle(lifecycle: OrderLifecycle) -> (r: ParentOrderStatus)
    ensures
        r == status_of_lifecycle(lifecycle),
{
    match lifecycle {
        OrderLifecycle::Settled => ParentOrderStatus::Filled,
        OrderLifecycle::PartiallySettled => ParentOrderStatus::PartiallyFilled,
        OrderLifecycle::Failed => ParentOrderStatus::Failed,
        _ => ParentOrderStatus::New,
    }
}

// ---------------------------------------------------------------------------
// Optional fields.
// ---------------------------------------------------------------------------

/// An optional number is written as its decimal, or as nothing.
pub open spec fn opt_text(v: Option<u64>) -> Seq<char> {
    match v {
        Some(x) => decimal(x as nat),
        None => Seq::empty(),
    }
}

/// What an optional-number field reads as; `None` when it is not a number.
pub open spec fn opt_of(s: Seq<char>) -> Option<Option<u64>> {
    if s.len() == 0 {
        Some(None)
    } else {
        match parse_unsigned(s, u64::MAX as nat) {
            Some(v) => Some(Some(v as u64)),
            None => None,
        }
    }
}

/// Optional text reads as absent when its field is empty.
pub open spec fn opt_string_of(s: Seq<char>) -> Option<Seq<char>> {
    if s.len() == 0 { None } else { Some(unescape_spec(s)) }
}

fn opt_u64_text(v: Option<u64>) -> (r: String)
    ensures
        r@ == opt_text(v),
{
    match v {
        Some(x) => u64_text(x),
        None => String::new(),
    }
}

pub fn parse_optional_u64(value: &str) -> (r: Result<Option<u64>, OrderStoreError>)
    ensures
        match opt_of(value@) {
            Some(v) => r == Ok::<Option<u64>, OrderStoreError>(v),
            None => r matches Err(OrderStoreError::CorruptedRecord),
        },
{
    if value.unicode_len() == 0 {
        return Ok(None);
    }
    match parse_u64(value) {
        Some(v) => Ok(Some(v)),
        None => Err(OrderStoreError::CorruptedRecord),
    }
}

pub fn optional_string(value: &str) -> (r: Option<String>)
    ensures
        match r {
            Some(s) => opt_string_of(value@) == Some(s@),
            None => opt_string_of(value@) is None,
        },
{
    if value.unicode_len() == 0 {
        None
    } else {
        Some(unescape(value))
    }
}

/// The pieces with the separator between each two of them.
pub fn join_strings(pieces: &Vec<String>, sep: char) -> (r: String)
    ensures
        r@ == join_spec(pieces@.map_values(|s: String| s@), sep),
{
    let ghost pv = pieces@.map_values(|s: String| s@);
    let mut out = String::new();
    let mut i: usize = 0;
    while i < pieces.len()
        invariant
            i <= pieces@.len(),
            pv == pieces@.map_values(|s: String| s@),
            out@ == join_spec(pv.take(i as int), sep),
        decreases pieces@.len() - i,
    {
        let ghost before = out@;
        if i > 0 {
            push_char(&mut out, sep);
        }
        push_str(&mut out, pieces[i].as_str());
        proof {
            let t = pv.take(i + 1);
            assert(t.drop_last() =~= pv.take(i as int));
            assert(t.last() == pieces@[i as int]@);
            if i == 0 {
                assert(t.len() == 1);
                assert(before =~= Seq::<char>::empty());
                assert(out@ =~= t[0]);
            }
        }
        i += 1;
    }
    assert(pv.take(pieces@.len() as int) =~= pv);
    out
}

// ---------------------------------------------------------------------------
// Child and external orders.
// ---------------------------------------------------------------------------

pub open spec fn child_fields(c: (Seq<char>, VenueId, Seq<char>, u64, Option<u64>, Seq<char>)) -> Seq<Seq<char>> {
    seq![escape_spec(c.0), venue_code(c.1), escape_spec(c.2), decimal(c.3 as nat), opt_text(c.4), escape_spec(c.5)]
}

pub open spec fn external_fields(e: (Seq<char>, VenueId, Seq<char>, u64, u64, Seq<char>)) -> Seq<Seq<char>> {
    seq![escape_spec(e.0), venue_code(e.1), escape_spec(e.2), decimal(e.3 as nat), decimal(e.4 as nat), escape_spec(e.5)]
}

/// The text of the child orders: one item per child, separated by `;`.
pub open spec fn children_text(cs: Seq<(Seq<char>, VenueId, Seq<char>, u64, Option<u64>, Seq<char>)>) -> Seq<char> {
    join_spec(cs.map_values(|c: (Seq<char>, VenueId, Seq<char>, u64, Option<u64>, Seq<char>)| child_item_text(c)), ';')
}

pub open spec fn externals_text(es: Seq<(Seq<char>, VenueId, Seq<char>, u64, u64, Seq<char>)>) -> Seq<char> {
    join_spec(es.map_values(|e: (Seq<char>, VenueId, Seq<char>, u64, u64, Seq<char>)| external_item_text(e)), ';')
}

/// The child order an item describes.
pub open spec fn child_item(item: Seq<char>) -> Option<(Seq<char>, VenueId, Seq<char>, u64, Option<u64>, Seq<char>)> {
    let f = split_spec(item, '~');
    if f.len() != 6 || venue_of(f[1]) is None || parse_unsigned(f[3], u64::MAX as nat) is None || opt_of(f[4]) is None {
        None
    } else {
        Some((unescape_spec(f[0]), venue_of(f[1])->0, unescape_spec(f[2]),
            parse_unsigned(f[3], u64::MAX as nat)->0 as u64, opt_of(f[4])->0, unescape_spec(f[5])))
    }
}

/// The external order an item describes.
pub open spec fn external_item(item: Seq<char>) -> Option<(Seq<char>, VenueId, Seq<char>, u64, u64, Seq<char>)> {
    let f = split_spec(item, '~');
    if f.len() != 6 || venue_of(f[1]) is None || parse_unsigned(f[3], u64::MAX as nat) is None
        || parse_unsigned(f[4], u64::MAX as nat) is None {
        None
    } else {
        Some((unescape_spec(f[0]), venue_of(f[1])->0, unescape_spec(f[2]),
            parse_unsigned(f[3], u64::MAX as nat)->0 as u64, parse_unsigned(f[4], u64::MAX as nat)->0 as u64,
            unescape_spec(f[5])))
    }
}

pub open spec fn child_items(items: Seq<Seq<char>>) -> Option<Seq<(Seq<char>, VenueId, Seq<char>, u64, Option<u64>, Seq<char>)>>
    decreases items.len(),
{
    if items.len() == 0 {
        Some(Seq::empty())
    } else {
        match child_items(items.drop_last()) {
            None => None,
            Some(p) => match child_item(items.last()) {
                None => None,
                Some(c) => Some(p.push(c)),
            },
        }
    }
}

pub open spec fn external_items(items: Seq<Seq<char>>) -> Option<Seq<(Seq<char>, VenueId, Seq<char>, u64, u64, Seq<char>)>>
    decreases items.len(),
{
    if items.len() == 0 {
        Some(Seq::empty())
    } else {
        match external_items(items.drop_last()) {
            None => None,
            Some(p) => match external_item(items.last()) {
                None => None,
                Some(c) => Some(p.push(c)),
            },
        }
    }
}

/// The child orders a field describes: none when it is empty.
pub open spec fn children_of(s: Seq<char>) -> Option<Seq<(Seq<char>, VenueId, Seq<char>, u64, Option<u64>, Seq<char>)>> {
    if s.len() == 0 { Some(Seq::empty()) } else { child_items(split_spec(s, ';')) }
}

pub open spec fn externals_of(s: Seq<char>) -> Option<Seq<(Seq<char>, VenueId, Seq<char>, u64, u64, Seq<char>)>> {
    if s.len() == 0 { Some(Seq::empty()) } else { external_items(split_spec(s, ';')) }
}

pub open spec fn string_views(v: Seq<String>) -> Seq<Seq<char>> {
    v.map_values(|s: String| s@)
}

pub fn encode_children(children: &Vec<StoredChildOrder>) -> (r: String)
    ensures
        r@ == children_text(crate::pepdex::order_store::child_views(children@)),
{
    let ghost cv = crate::pepdex::order_store::child_views(children@);
    let mut items: Vec<String> = Vec::new();
    let mut i: usize = 0;
    while i < children.len()
        invariant
            i <= children@.len(),
            cv == crate::pepdex::order_store::child_views(children@),
            items@.len() == i,
            forall|k: int| 0 <= k < i ==> (#[trigger] items@[k])@ == join_spec(child_fields(cv[k]), '~'),
        decreases children@.len() - i,
    {
        let c = &children[i];
        let mut fields: Vec<String> = Vec::new();
        fields.push(escape(c.child_order_id.as_str()));
        fields.push(encode_venue(c.venue).to_string());
        fields.push(escape(c.client_order_id.as_str()));
        fields.push(u64_text(c.quantity));
        fields.push(opt_u64_text(c.price));
        fields.push(escape(c.status.as_str()));
        assert(string_views(fields@) =~= child_fields(cv[i as int]));
        let item = join_strings(&fields, '~');
        items.push(item);
        i += 1;
    }
    let r = join_strings(&items, ';');
    assert(string_views(items@) =~= cv.map_values(
        |c: (Seq<char>, VenueId, Seq<char>, u64, Option<u64>, Seq<char>)| child_item_text(c)));
    r
}

pub fn encode_external_orders(orders: &Vec<StoredExternalOrder>) -> (r: String)
    ensures
        r@ == externals_text(crate::pepdex::order_store::external_views(orders@)),
{
    let ghost ev = crate::pepdex::order_store::external_views(orders@);
    let mut items: Vec<String> = Vec::new();
    let mut i: usize = 0;
    while i < orders.len()
        invariant
            i <= orders@.len(),
            ev == crate::pepdex::order_store::external_views(orders@),
            items@.len() == i,
            forall|k: int| 0 <= k < i ==> (#[trigger] items@[k])@ == join_spec(external_fields(ev[k]), '~'),
        decreases orders@.len() - i,
    {
        let e = &orders[i];
        let mut fields: Vec<String> = Vec::new();
        fields.push(escape(e.child_order_id.as_str()));
        fields.push(encode_venue(e.venue).to_string());
        fields.push(escape(e.external_order_id.as_str()));
        fields.push(u64_text(e.filled_quantity));
        fields.push(u64_text(e.remaining_quantity));
        fields.push(escape(e.status.as_str()));
        assert(string_views(fields@) =~= external_fields(ev[i as int]));
        let item = join_strings(&fields, '~');
        items.push(item);
        i += 1;
    }
    let r = join_strings(&items, ';');
    assert(string_views(items@) =~= ev.map_values(
        |e: (Seq<char>, VenueId, Seq<char>, u64, u64, Seq<char>)| external_item_text(e)));
    r
}

proof fn lemma_child_items_none(items: Seq<Seq<char>>, k: int)
    requires
        0 <= k <= items.len(),
        child_items(items.take(k)) is None,
    ensures
        child_items(items) is None,
    decreases items.len() - k,
{
    if k < items.len() {
        assert(items.take(k + 1).drop_last() =~= items.take(k));
        lemma_child_items_none(items, k + 1);
    } else {
        assert(items.take(k) =~= items);
    }
}

proof fn lemma_external_items_none(items: Seq<Seq<char>>, k: int)
    requires
        0 <= k <= items.len(),
        external_items(items.take(k)) is None,
    ensures
        external_items(items) is None,
    decreases items.len() - k,
{
    if k < items.len() {
        assert(items.take(k + 1).drop_last() =~= items.take(k));
        lemma_external_items_none(items, k + 1);
    } else {
        assert(items.take(k) =~= items);
    }
}

pub fn decode_children(encoded: &str) -> (r: Result<Vec<StoredChildOrder>, OrderStoreError>)
    ensures
        match children_of(encoded@) {
            Some(cs) => r matches Ok(v) && crate::pepdex::order_store::child_views(v@) == cs,
            None => r matches Err(OrderStoreError::CorruptedRecord),
        },
{
    let mut result: Vec<StoredChildOrder> = Vec::new();
    if encoded.unicode_len() == 0 {
        assert(crate::pepdex::order_store::child_views(result@) =~= Seq::empty());
        return Ok(result);
    }
    let items = split(encoded, ';');
    let ghost iv = split_spec(encoded@, ';');
    let mut i: usize = 0;
    while i < items.len()
        invariant
            i <= items@.len(),
            iv == split_spec(encoded@, ';'),
            encoded@.len() > 0,
            items@.len() == iv.len(),
            forall|k: int| 0 <= k < items@.len() ==> #[trigger] items@[k]@ == iv[k],
            child_items(iv.take(i as int)) == Some(crate::pepdex::order_store::child_views(result@)),
        decreases items@.len() - i,
    {
        assert(iv.take(i + 1).drop_last() =~= iv.take(i as int));
        assert(iv.take(i + 1).last() == items@[i as int]@);
        let fields = split(items[i].as_str(), '~');
        if fields.len() != 6 {
            proof {
                assert(split_spec(iv[i as int], '~').len() != 6);
                assert(child_item(iv[i as int]) is None);
                assert(child_items(iv.take(i + 1)) is None);
                lemma_child_items_none(iv, i + 1);
            }
            return Err(OrderStoreError::CorruptedRecord);
        }
        let venue = match decode_venue(fields[1].as_str()) {
            Ok(v) => v,
            Err(e) => {
                proof { lemma_child_items_none(iv, i + 1); }
                return Err(e);
            },
        };
        let quantity = match parse_u64(fields[3].as_str()) {
            Some(q) => q,
            None => {
                proof { lemma_child_items_none(iv, i + 1); }
                return Err(OrderStoreError::CorruptedRecord);
            },
        };
        let price = match parse_optional_u64(fields[4].as_str()) {
            Ok(p) => p,
            Err(e) => {
                proof { lemma_child_items_none(iv, i + 1); }
                return Err(e);
            },
        };
        let child = StoredChildOrder {
            child_order_id: OrderId::new(unescape(fields[0].as_str()).as_str()),
            venue,
            client_order_id: unescape(fields[2].as_str()),
            quantity,
            price,
            status: unescape(fields[5].as_str()),
        };
        let ghost before = result@;
        result.push(child);
        assert(crate::pepdex::order_store::child_views(result@)
            =~= crate::pepdex::order_store::child_views(before).push(child@));
        i += 1;
    }
    assert(iv.take(items@.len() as int) =~= iv);
    Ok(result)
}

pub fn decode_external_orders(encoded: &str) -> (r: Result<Vec<StoredExternalOrder>, OrderStoreError>)
    ensures
        match externals_of(encoded@) {
            Some(es) => r matches Ok(v) && crate::pepdex::order_store::external_views(v@) == es,
            None => r matches Err(OrderStoreError::CorruptedRecord),
        },
{
    let mut result: Vec<StoredExternalOrder> = Vec::new();
    if encoded.unicode_len() == 0 {
        assert(crate::pepdex::order_store::external_views(result@) =~= Seq::empty());
        return Ok(result);
    }
    let items = split(encoded, ';');
    let ghost iv = split_spec(encoded@, ';');
    let mut i: usize = 0;
    while i < items.len()
        invariant
            i <= items@.len(),
            iv == split_spec(encoded@, ';'),
            encoded@.len() > 0,
            items@.len() == iv.len(),
            forall|k: int| 0 <= k < items@.len() ==> #[trigger] items@[k]@ == iv[k],
            external_items(iv.take(i as int)) == Some(crate::pepdex::order_store::external_views(result@)),
        decreases items@.len() - i,
    {
        assert(iv.take(i + 1).drop_last() =~= iv.take(i as int));
        assert(iv.take(i + 1).last() == items@[i as int]@);
        let fields = split(items[i].as_str(), '~');
        if fields.len() != 6 {
            proof {
                assert(split_spec(iv[i as int], '~').len() != 6);
                assert(external_item(iv[i as int]) is None);
                assert(external_items(iv.take(i + 1)) is None);
                lemma_external_items_none(iv, i + 1);
            }
            return Err(OrderStoreError::CorruptedRecord);
        }
        let venue = match decode_venue(fields[1].as_str()) {
            Ok(v) => v,
            Err(e) => {
                proof { lemma_external_items_none(iv, i + 1); }
                return Err(e);
            },
        };
        let filled = match parse_u64(fields[3].as_str()) {
            Some(q) => q,
            None => {
                proof { lemma_external_items_none(iv, i + 1); }
                return Err(OrderStoreError::CorruptedRecord);
            },
        };
        let remaining = match parse_u64(fields[4].as_str()) {
            Some(q) => q,
            None => {
                proof { lemma_external_items_none(iv, i + 1); }
                return Err(OrderStoreError::CorruptedRecord);
            },
        };
        let order = StoredExternalOrder {
            child_order_id: OrderId::new(unescape(fields[0].as_str()).as_str()),
            venue,
            external_order_id: unescape(fields[2].as_str()),
            filled_quantity: filled,
            remaining_quantity: remaining,
            status: unescape(fields[5].as_str()),
        };
        let ghost before = result@;
        result.push(order);
        assert(crate::pepdex::order_store::external_views(result@)
            =~= crate::pepdex::order_store::external_views(before).push(order@));
        i += 1;
    }
    assert(iv.take(items@.len() as int) =~= iv);
    Ok(result)
}

// ---------------------------------------------------------------------------
// Order records.
// ---------------------------------------------------------------------------

/// What a record holds, as plain values.
pub struct RecordView {
    pub id: Seq<char>,
    pub user: Seq<char>,
    pub base: Seq<char>,
    pub quote: Seq<char>,
    pub side: VenueOrderSide,
    pub order_type: VenueOrderType,
    pub quantity: u64,
    pub limit_price: Option<u64>,
    pub max_spend: Option<u64>,
    pub max_slippage_bps: Option<u64>,
    pub max_quantity: Option<u64>,
    pub lifecycle: OrderLifecycle,
    pub reservation_id: Option<Seq<char>>,
    pub last_error: Option<Seq<char>>,
    pub created_at_ms: u64,
    pub updated_at_ms: u64,
    pub children: Seq<(Seq<char>, VenueId, Seq<char>, u64, Option<u64>, Seq<char>)>,
    pub externals: Seq<(Seq<char>, VenueId, Seq<char>, u64, u64, Seq<char>)>,
}

pub open spec fn record_view(o: StoredOrder) -> RecordView {
    RecordView {
        id: o.order.id@,
        user: o.order.user@,
        base: o.order.market.base@,
        quote: o.order.market.quote@,
        side: o.order.side,
        order_type: o.order.order_type,
        quantity: o.order.quantity,
        limit_price: o.order.limit_price,
        max_spend: o.order.constraints.max_spend,
        max_slippage_bps: o.order.constraints.max_slippage_bps,
        max_quantity: o.order.constraints.max_quantity,
        lifecycle: o.lifecycle,
        reservation_id: crate::pepdex::execution::opt_view(o.reservation_id),
        last_error: crate::pepdex::execution::opt_view(o.last_error),
        created_at_ms: o.created_at_ms,
        updated_at_ms: o.updated_at_ms,
        children: crate::pepdex::order_store::child_views(o.child_orders@),
        externals: crate::pepdex::order_store::external_views(o.external_orders@),
    }
}

pub open spec fn text_or_empty(s: Option<Seq<char>>) -> Seq<char> {
    match s {
        Some(t) => t,
        None => Seq::empty(),
    }
}

/// The fields of a record line, the operation first.
pub open spec fn record_fields(op: Seq<char>, v: RecordView) -> Seq<Seq<char>> {
    seq![
        op,
        escape_spec(v.id),
        escape_spec(v.user),
        escape_spec(v.base),
        escape_spec(v.quote),
        side_code(v.side),
        type_code(v.order_type),
        decimal(v.quantity as nat),
        opt_text(v.limit_price),
        opt_text(v.max_spend),
        opt_text(v.max_slippage_bps),
        opt_text(v.max_quantity),
        lifecycle_code(v.lifecycle),
        escape_spec(text_or_empty(v.reservation_id)),
        escape_spec(text_or_empty(v.last_error)),
        decimal(v.created_at_ms as nat),
        decimal(v.updated_at_ms as nat),
        children_text(v.children),
        externals_text(v.externals),
    ]
}

/// A record line: its fields separated by `|`.
pub open spec fn encoded_record(op: Seq<char>, v: RecordView) -> Seq<char> {
    join_spec(record_fields(op, v), '|')
}

/// The record the fields after the operation describe, when they are well formed.
pub open spec fn record_of(f: Seq<Seq<char>>) -> Option<RecordView> {
    if f.len() < 18 || side_of(f[4]) is None || type_of(f[5]) is None
        || parse_unsigned(f[6], u64::MAX as nat) is None || opt_of(f[7]) is None || opt_of(f[8]) is None
        || opt_of(f[9]) is None || opt_of(f[10]) is None || lifecycle_of(f[11]) is None
        || parse_unsigned(f[14], u64::MAX as nat) is None || parse_unsigned(f[15], u64::MAX as nat) is None
        || children_of(f[16]) is None || externals_of(f[17]) is None {
        None
    } else {
        Some(RecordView {
            id: unescape_spec(f[0]),
            user: unescape_spec(f[1]),
            base: unescape_spec(f[2]),
            quote: unescape_spec(f[3]),
            side: side_of(f[4])->0,
            order_type: type_of(f[5])->0,
            quantity: parse_unsigned(f[6], u64::MAX as nat)->0 as u64,
            limit_price: opt_of(f[7])->0,
            max_spend: opt_of(f[8])->0,
            max_slippage_bps: opt_of(f[9])->0,
            max_quantity: opt_of(f[10])->0,
            lifecycle: lifecycle_of(f[11])->0,
            reservation_id: opt_string_of(f[12]),
            last_error: opt_string_of(f[13]),
            created_at_ms: parse_unsigned(f[14], u64::MAX as nat)->0 as u64,
            updated_at_ms: parse_unsigned(f[15], u64::MAX as nat)->0 as u64,
            children: children_of(f[16])->0,
            externals: externals_of(f[17])->0,
        })
    }
}

fn opt_string_text(s: &Option<String>) -> (r: String)
    ensures
        r@ == escape_spec(text_or_empty(crate::pepdex::execution::opt_view(*s))),
{
    match s {
        Some(t) => escape(t.as_str()),
        None => {
            let e = escape("");
            proof { reveal_strlit(""); }
            e
        },
    }
}

/// The journal line of a record.
pub fn encode_order(op: &str, order: &StoredOrder) -> (r: String)
    ensures
        r@ == encoded_record(op@, record_view(*order)),
{
    let o = &order.order;
    let mut fields: Vec<String> = Vec::new();
    fields.push(op.to_string());
    fields.push(escape(o.id.as_str()));
    fields.push(escape(o.user.as_str()));
    fields.push(escape(o.market.base.as_str()));
    fields.push(escape(o.market.quote.as_str()));
    fields.push(encode_side(o.side).to_string());
    fields.push(encode_order_type(o.order_type).to_string());
    fields.push(u64_text(o.quantity));
    fields.push(opt_u64_text(o.limit_price));
    fields.push(opt_u64_text(o.constraints.max_spend));
    fields.push(opt_u64_text(o.constraints.max_slippage_bps));
    fields.push(opt_u64_text(o.constraints.max_quantity));
    fields.push(encode_lifecycle(order.lifecycle).to_string());
    fields.push(opt_string_text(&order.reservation_id));
    fields.push(opt_string_text(&order.last_error));
    fields.push(u64_text(order.created_at_ms));
    fields.push(u64_text(order.updated_at_ms));
    fields.push(encode_children(&order.child_orders));
    fields.push(encode_external_orders(&order.external_orders));
    assert(string_views(fields@) =~= record_fields(op@, record_view(*order)));
    join_strings(&fields, '|')
}

/// The record the fields after a line's operation describe.
pub fn decode_order(fields: &Vec<String>) -> (r: Result<StoredOrder, OrderStoreError>)
    ensures
        match record_of(string_views(fields@)) {
            Some(v) => r matches Ok(o) && record_view(o) == v && o.order.timestamp_ms == v.created_at_ms
                && o.order.status == status_of_lifecycle(v.lifecycle),
            None => r matches Err(OrderStoreError::CorruptedRecord),
        },
{
    let ghost f = string_views(fields@);
    if fields.len() < 18 {
        return Err(OrderStoreError::CorruptedRecord);
    }
    assert(forall|k: int| 0 <= k < 18 ==> #[trigger] f[k] == fields@[k]@);
    let order_id = unescape(fields[0].as_str());
    let user = unescape(fields[1].as_str());
    let base = unescape(fields[2].as_str());
    let quote = unescape(fields[3].as_str());
    let side = decode_side(fields[4].as_str())?;
    let order_type = decode_order_type(fields[5].as_str())?;
    let quantity = match parse_u64(fields[6].as_str()) {
        Some(q) => q,
        None => return Err(OrderStoreError::CorruptedRecord),
    };
    let limit_price = parse_optional_u64(fields[7].as_str())?;
    let max_spend = parse_optional_u64(fields[8].as_str())?;
    let max_slippage_bps = parse_optional_u64(fields[9].as_str())?;
    let max_quantity = parse_optional_u64(fields[10].as_str())?;
    let lifecycle = decode_lifecycle(fields[11].as_str())?;
    let reservation = optional_string(fields[12].as_str());
    let last_error = optional_string(fields[13].as_str());
    let created_at_ms = match parse_u64(fields[14].as_str()) {
        Some(v) => v,
        None => return Err(OrderStoreError::CorruptedRecord),
    };
    let updated_at_ms = match parse_u64(fields[15].as_str()) {
        Some(v) => v,
        None => return Err(OrderStoreError::CorruptedRecord),
    };
    let children = decode_children(fields[16].as_str())?;
    let external_orders = decode_external_orders(fields[17].as_str())?;
    let order = ParentOrder {
        id: OrderId::new(order_id.as_str()),
        user,
        market: crate::pepdex::market::MarketId::new(base.as_str(), quote.as_str()),
        side,
        order_type,
        quantity,
        limit_price,
        constraints: crate::pepdex::risk::OrderConstraints { max_spend, max_slippage_bps, max_quantity },
        timestamp_ms: created_at_ms,
        status: parent_status_from_lifecycle(lifecycle),
    };
    let r = StoredOrder {
        order,
        lifecycle,
        reservation_id: reservation,
        child_orders: children,
        external_orders,
        last_error,
        created_at_ms,
        updated_at_ms,
    };
    assert(record_view(r) =~= record_of(f)->0);
    Ok(r)
}

/// The journal line that deletes an order.
pub fn encode_delete(order_id: &OrderId) -> (r: String)
    ensures
        r@ == seq!['D', '|'] + escape_spec(order_id@),
{
    let mut line = String::new();
    push_char(&mut line, 'D');
    push_char(&mut line, '|');
    let e = escape(order_id.as_str());
    push_str(&mut line, e.as_str());
    line
}

// ---------------------------------------------------------------------------
// Reading back what was written.
// ---------------------------------------------------------------------------

proof fn lemma_decimal_plain(n: nat)
    ensures
        plain(decimal(n)),
        decimal(n).len() > 0,
        parse_unsigned(decimal(n), u64::MAX as nat) == (if n <= u64::MAX { Some(n) } else { None::<nat> }),
{
    lemma_decimal_digits(n);
    assert forall|i: int| 0 <= i < decimal(n).len() implies decimal(n)[i] != '|' && decimal(n)[i] != '~' && decimal(n)[i] != ';' by {
        assert(is_digit(decimal(n)[i]));
    }
}

proof fn lemma_opt_text(v: Option<u64>)
    ensures
        plain(opt_text(v)),
        opt_of(opt_text(v)) == Some(v),
{
    match v {
        Some(x) => {
            lemma_decimal_plain(x as nat);
        },
        None => {},
    }
}

proof fn lemma_escape_len(t: Seq<char>)
    ensures
        escape_spec(t).len() >= t.len(),
    decreases t.len(),
{
    if t.len() > 0 {
        lemma_escape_len(t.drop_first());
    }
}

proof fn lemma_optional_text(r: Option<Seq<char>>)
    requires
        r != Some(Seq::<char>::empty()),
    ensures
        plain(escape_spec(text_or_empty(r))),
        opt_string_of(escape_spec(text_or_empty(r))) == r,
{
    lemma_escape_plain(text_or_empty(r));
    match r {
        Some(t) => {
            assert(t.len() > 0) by {
                if t.len() == 0 {
                    assert(t =~= Seq::<char>::empty());
                }
            }
            lemma_escape_len(t);
            lemma_unescape_escape(t);
        },
        None => {
            assert(escape_spec(Seq::<char>::empty()) =~= Seq::<char>::empty());
        },
    }
}

proof fn lemma_codes(side: VenueOrderSide, ty: VenueOrderType, venue: VenueId, l: OrderLifecycle)
    ensures
        side_of(side_code(side)) == Some(side),
        plain(side_code(side)),
        type_of(type_code(ty)) == Some(ty),
        plain(type_code(ty)),
        venue_of(venue_code(venue)) == Some(venue),
        plain(venue_code(venue)),
        lifecycle_of(lifecycle_code(l)) == Some(l),
        plain(lifecycle_code(l)),
{
    reveal_strlit("B");
    reveal_strlit("S");
    reveal_strlit("M");
    reveal_strlit("L");
    reveal_strlit("ASTER");
    reveal_strlit("BINANCE");
    reveal_strlit("EDGEX");
    reveal_strlit("OKX");
    reveal_strlit("RECEIVED");
    reveal_strlit("RISK");
    reveal_strlit("RESERVED");
    reveal_strlit("MARKET_DATA");
    reveal_strlit("ROUTED");
    reveal_strlit("SPLIT");
    reveal_strlit("EXECUTING");
    reveal_strlit("AGGREGATED");
    reveal_strlit("SETTLED");
    reveal_strlit("PARTIAL_SETTLED");
    reveal_strlit("FAILED");
    assert("S"@[0] != "B"@[0]);
    assert("L"@[0] != "M"@[0]);
    assert("EDGEX"@[0] != "ASTER"@[0]);
    assert("RESERVED"@[2] != "RECEIVED"@[2]);
    assert("FAILED"@[0] != "ROUTED"@[0]);
    assert("ASTER"@.len() == 5 && "BINANCE"@.len() == 7 && "EDGEX"@.len() == 5 && "OKX"@.len() == 3);
    assert("RECEIVED"@.len() == 8 && "RISK"@.len() == 4 && "RESERVED"@.len() == 8 && "MARKET_DATA"@.len() == 11);
    assert("ROUTED"@.len() == 6 && "SPLIT"@.len() == 5 && "EXECUTING"@.len() == 9 && "AGGREGATED"@.len() == 10);
    assert("SETTLED"@.len() == 7 && "PARTIAL_SETTLED"@.len() == 15 && "FAILED"@.len() == 6);
}

pub open spec fn child_item_text(c: (Seq<char>, VenueId, Seq<char>, u64, Option<u64>, Seq<char>)) -> Seq<char> {
    join_spec(child_fields(c), '~')
}

pub open spec fn external_item_text(e: (Seq<char>, VenueId, Seq<char>, u64, u64, Seq<char>)) -> Seq<char> {
    join_spec(external_fields(e), '~')
}

proof fn lemma_child_item(c: (Seq<char>, VenueId, Seq<char>, u64, Option<u64>, Seq<char>))
    ensures
        child_item(child_item_text(c)) == Some(c),
        free_of(child_item_text(c), '|'),
        free_of(child_item_text(c), ';'),
        child_item_text(c).len() > 0,
{
    let f = child_fields(c);
    lemma_escape_plain(c.0);
    lemma_escape_plain(c.2);
    lemma_escape_plain(c.5);
    lemma_codes(VenueOrderSide::Buy, VenueOrderType::Limit, c.1, OrderLifecycle::Received);
    lemma_decimal_plain(c.3 as nat);
    lemma_opt_text(c.4);
    lemma_unescape_escape(c.0);
    lemma_unescape_escape(c.2);
    lemma_unescape_escape(c.5);
    assert forall|i: int, j: int| 0 <= i < f.len() && 0 <= j < f[i].len() implies f[i][j] != '~' && f[i][j] != '|' && f[i][j] != ';' by {
        if i == 0 {} else if i == 1 {} else if i == 2 {} else if i == 3 {} else if i == 4 {} else {}
    }
    lemma_split_join(f, '~');
    lemma_join_free(f, '~', '|');
    lemma_join_free(f, '~', ';');
    lemma_join_len(f, '~');
}

proof fn lemma_external_item(e: (Seq<char>, VenueId, Seq<char>, u64, u64, Seq<char>))
    ensures
        external_item(external_item_text(e)) == Some(e),
        free_of(external_item_text(e), '|'),
        free_of(external_item_text(e), ';'),
        external_item_text(e).len() > 0,
{
    let f = external_fields(e);
    lemma_escape_plain(e.0);
    lemma_escape_plain(e.2);
    lemma_escape_plain(e.5);
    lemma_codes(VenueOrderSide::Buy, VenueOrderType::Limit, e.1, OrderLifecycle::Received);
    lemma_decimal_plain(e.3 as nat);
    lemma_decimal_plain(e.4 as nat);
    lemma_unescape_escape(e.0);
    lemma_unescape_escape(e.2);
    lemma_unescape_escape(e.5);
    assert forall|i: int, j: int| 0 <= i < f.len() && 0 <= j < f[i].len() implies f[i][j] != '~' && f[i][j] != '|' && f[i][j] != ';' by {
        if i == 0 {} else if i == 1 {} else if i == 2 {} else if i == 3 {} else if i == 4 {} else {}
    }
    lemma_split_join(f, '~');
    lemma_join_free(f, '~', '|');
    lemma_join_free(f, '~', ';');
    lemma_join_len(f, '~');
}

proof fn lemma_child_items(cs: Seq<(Seq<char>, VenueId, Seq<char>, u64, Option<u64>, Seq<char>)>)
    ensures
        child_items(cs.map_values(|c: (Seq<char>, VenueId, Seq<char>, u64, Option<u64>, Seq<char>)| child_item_text(c))) == Some(cs),
    decreases cs.len(),
{
    let items = cs.map_values(|c: (Seq<char>, VenueId, Seq<char>, u64, Option<u64>, Seq<char>)| child_item_text(c));
    if cs.len() == 0 {
        assert(cs =~= Seq::empty());
    } else {
        let q = cs.drop_last();
        lemma_child_items(q);
        assert(items.drop_last() =~= q.map_values(|c: (Seq<char>, VenueId, Seq<char>, u64, Option<u64>, Seq<char>)| child_item_text(c)));
        lemma_child_item(cs.last());
        assert(q.push(cs.last()) =~= cs);
    }
}

proof fn lemma_external_items(es: Seq<(Seq<char>, VenueId, Seq<char>, u64, u64, Seq<char>)>)
    ensures
        external_items(es.map_values(|e: (Seq<char>, VenueId, Seq<char>, u64, u64, Seq<char>)| external_item_text(e))) == Some(es),
    decreases es.len(),
{
    let items = es.map_values(|e: (Seq<char>, VenueId, Seq<char>, u64, u64, Seq<char>)| external_item_text(e));
    if es.len() == 0 {
        assert(es =~= Seq::empty());
    } else {
        let q = es.drop_last();
        lemma_external_items(q);
        assert(items.drop_last() =~= q.map_values(|e: (Seq<char>, VenueId, Seq<char>, u64, u64, Seq<char>)| external_item_text(e)));
        lemma_external_item(es.last());
        assert(q.push(es.last()) =~= es);
    }
}

proof fn lemma_children_text(cs: Seq<(Seq<char>, VenueId, Seq<char>, u64, Option<u64>, Seq<char>)>)
    ensures
        children_of(children_text(cs)) == Some(cs),
        free_of(children_text(cs), '|'),
{
    let items = cs.map_values(|c: (Seq<char>, VenueId, Seq<char>, u64, Option<u64>, Seq<char>)| child_item_text(c));
    assert(children_text(cs) == join_spec(items, ';'));
    assert forall|i: int, j: int| 0 <= i < items.len() && 0 <= j < items[i].len() implies items[i][j] != ';' && items[i][j] != '|' by {
        lemma_child_item(cs[i]);
    }
    lemma_join_free(items, ';', '|');
    lemma_child_items(cs);
    if cs.len() == 0 {
        assert(items =~= Seq::<Seq<char>>::empty());
        assert(cs =~= Seq::empty());
    } else {
        lemma_join_len(items, ';');
        lemma_child_item(cs.last());
        assert(items.last() == child_item_text(cs.last()));
        lemma_split_join(items, ';');
    }
}

proof fn lemma_externals_text(es: Seq<(Seq<char>, VenueId, Seq<char>, u64, u64, Seq<char>)>)
    ensures
        externals_of(externals_text(es)) == Some(es),
        free_of(externals_text(es), '|'),
{
    let items = es.map_values(|e: (Seq<char>, VenueId, Seq<char>, u64, u64, Seq<char>)| external_item_text(e));
    assert(externals_text(es) == join_spec(items, ';'));
    assert forall|i: int, j: int| 0 <= i < items.len() && 0 <= j < items[i].len() implies items[i][j] != ';' && items[i][j] != '|' by {
        lemma_external_item(es[i]);
    }
    lemma_join_free(items, ';', '|');
    lemma_external_items(es);
    if es.len() == 0 {
        assert(items =~= Seq::<Seq<char>>::empty());
        assert(es =~= Seq::empty());
    } else {
        lemma_join_len(items, ';');
        lemma_external_item(es.last());
        assert(items.last() == external_item_text(es.last()));
        lemma_split_join(items, ';');
    }
}

/// Reading a journal line back gives the record that was written, for every record
/// whose optional texts, when present, are not empty (an empty text is written as
/// nothing, and nothing reads back as absent).
pub proof fn lemma_record_round_trip(op: Seq<char>, v: RecordView)
    requires
        free_of(op, '|'),
        v.reservation_id != Some(Seq::<char>::empty()),
        v.last_error != Some(Seq::<char>::empty()),
    ensures
        record_of(split_spec(encoded_record(op, v), '|').drop_first()) == Some(v),
{
    let p = record_fields(op, v);
    lemma_escape_plain(v.id);
    lemma_escape_plain(v.user);
    lemma_escape_plain(v.base);
    lemma_escape_plain(v.quote);
    lemma_unescape_escape(v.id);
    lemma_unescape_escape(v.user);
    lemma_unescape_escape(v.base);
    lemma_unescape_escape(v.quote);
    lemma_codes(v.side, v.order_type, VenueId::Aster, v.lifecycle);
    lemma_decimal_plain(v.quantity as nat);
    lemma_decimal_plain(v.created_at_ms as nat);
    lemma_decimal_plain(v.updated_at_ms as nat);
    lemma_opt_text(v.limit_price);
    lemma_opt_text(v.max_spend);
    lemma_opt_text(v.max_slippage_bps);
    lemma_opt_text(v.max_quantity);
    lemma_optional_text(v.reservation_id);
    lemma_optional_text(v.last_error);
    lemma_children_text(v.children);
    lemma_externals_text(v.externals);
    assert forall|i: int, j: int| 0 <= i < p.len() && 0 <= j < p[i].len() implies p[i][j] != '|' by {
        if i == 0 {} else if i == 1 {} else if i == 2 {} else if i == 3 {} else if i == 4 {}
        else if i == 5 {} else if i == 6 {} else if i == 7 {} else if i == 8 {} else if i == 9 {}
        else if i == 10 {} else if i == 11 {} else if i == 12 {} else if i == 13 {} else if i == 14 {}
        else if i == 15 {} else if i == 16 {} else if i == 17 {} else {}
    }
    lemma_split_join(p, '|');
    let f = p.drop_first();
    assert(record_of(f) =~= Some(v));
}

// ---------------------------------------------------------------------------
// Replaying the journal.
// ---------------------------------------------------------------------------

/// Applies one journal line to the in-memory records: `I` and `U` store the record
/// the line describes, `D` removes the order it names; empty lines and unknown
/// operations change nothing.
pub fn replay_line(store: &mut MemoryOrderStore, line: &str) -> (r: Result<(), OrderStoreError>)
    ensures
        line@.len() == 0 ==> r is Ok && final(store).records() == old(store).records(),
        line@.len() > 0 ==> ({
            let parts = split_spec(line@, '|');
            if parts[0] == "I"@ || parts[0] == "U"@ {
                match record_of(parts.drop_first()) {
                    None => r matches Err(OrderStoreError::CorruptedRecord)
                        && final(store).records() == old(store).records(),
                    Some(v) => r is Ok && exists|o: StoredOrder| record_view(o) == v
                        && final(store).records() == crate::pepdex::order_store::stored_with(old(store).records(), o),
                }
            } else if parts[0] == "D"@ {
                &&& r is Ok
                &&& parts.len() < 2 ==> final(store).records() == old(store).records()
                &&& parts.len() >= 2 ==> ({
                    let id = unescape_spec(parts[1]);
                    if crate::pepdex::order_store::has_order(old(store).records(), id) {
                        final(store).records() == old(store).records().remove(
                            crate::pepdex::order_store::order_index(old(store).records(), id))
                    } else {
                        final(store).records() == old(store).records()
                    }
                })
            } else {
                r is Ok && final(store).records() == old(store).records()
            }
        }),
{
    if line.unicode_len() == 0 {
        return Ok(());
    }
    let parts = split(line, '|');
    let ghost pv = split_spec(line@, '|');
    proof {
        crate::text::lemma_split_nonempty(line@, '|');
    }
    let op = parts[0].as_str();
    if str_eq(op, "I") || str_eq(op, "U") {
        let mut fields: Vec<String> = Vec::new();
        let mut i: usize = 1;
        while i < parts.len()
            invariant
                1 <= i <= parts@.len(),
                parts@.len() == pv.len(),
                forall|k: int| 0 <= k < parts@.len() ==> #[trigger] parts@[k]@ == pv[k],
                string_views(fields@) == pv.drop_first().take(i - 1),
            decreases parts@.len() - i,
        {
            let ghost before = fields@;
            fields.push(parts[i].clone());
            assert(string_views(fields@) =~= string_views(before).push(pv[i as int]));
            assert(pv.drop_first().take(i as int) =~= pv.drop_first().take(i - 1).push(pv[i as int]));
            i += 1;
        }
        assert(pv.drop_first().take(parts@.len() - 1) =~= pv.drop_first());
        let order = decode_order(&fields)?;
        store.put(order);
        return Ok(());
    }
    if str_eq(op, "D") {
        if parts.len() < 2 {
            return Ok(());
        }
        let id = OrderId::new(unescape(parts[1].as_str()).as_str());
        let _ = store.take(&id);
        return Ok(());
    }
    Ok(())
}

/// Replaying the line written for a record stores a record that reads the same,
/// in place of the record with its id (for every record whose optional texts,
/// when present, are not empty).
pub proof fn lemma_replay_insert(v: RecordView)
    requires
        v.reservation_id != Some(Seq::<char>::empty()),
        v.last_error != Some(Seq::<char>::empty()),
    ensures
        encoded_record("I"@, v).len() > 0,
        split_spec(encoded_record("I"@, v), '|')[0] == "I"@,
        record_of(split_spec(encoded_record("I"@, v), '|').drop_first()) == Some(v),
{
    reveal_strlit("I");
    lemma_record_round_trip("I"@, v);
    let p = record_fields("I"@, v);
    lemma_join_len(p, '|');
    assert(split_spec(encoded_record("I"@, v), '|')[0] == p[0]) by {
        lemma_codes(v.side, v.order_type, VenueId::Aster, v.lifecycle);
        lemma_escape_plain(v.id);
        lemma_escape_plain(v.user);
        lemma_escape_plain(v.base);
        lemma_escape_plain(v.quote);
        lemma_decimal_plain(v.quantity as nat);
        lemma_decimal_plain(v.created_at_ms as nat);
        lemma_decimal_plain(v.updated_at_ms as nat);
        lemma_opt_text(v.limit_price);
        lemma_opt_text(v.max_spend);
        lemma_opt_text(v.max_slippage_bps);
        lemma_opt_text(v.max_quantity);
        lemma_optional_text(v.reservation_id);
        lemma_optional_text(v.last_error);
        lemma_children_text(v.children);
        lemma_externals_text(v.externals);
        assert forall|i: int, j: int| 0 <= i < p.len() && 0 <= j < p[i].len() implies p[i][j] != '|' by {
            if i == 0 {} else if i == 1 {} else if i == 2 {} else if i == 3 {} else if i == 4 {}
            else if i == 5 {} else if i == 6 {} else if i == 7 {} else if i == 8 {} else if i == 9 {}
            else if i == 10 {} else if i == 11 {} else if i == 12 {} else if i == 13 {} else if i == 14 {}
            else if i == 15 {} else if i == 16 {} else if i == 17 {} else {}
        }
        lemma_split_join(p, '|');
    }
}

} // verus!
