//! The texts errors are recorded with: each has the shape of its `Debug`
//! text (variant name, then fields in braces or parentheses, texts quoted).
use vstd::prelude::*;
use crate::pepdex::aggregator::AggregatorError;
use crate::pepdex::balance::BalanceError;
use crate::pepdex::executor::ExecutorError;
use crate::pepdex::market::MarketId;
use crate::pepdex::order::OrderId;
use crate::pepdex::order_manager::OrderManagerError;
use crate::pepdex::order_store::OrderStoreError;
use crate::pepdex::reservation::ReservationError;
use crate::pepdex::risk::RiskError;
use crate::pepdex::router::RouterError;
use crate::pepdex::settlement::SettlementError;
use crate::pepdex::splitter::SplitterError;
use crate::pepdex::venue::{VenueError, VenueId};
use crate::text::{chars_of, decimal, digit_char, push_char, push_str, u64_text};

verus! {

// ---------------------------------------------------------------------------
// Pieces: quoted text and integers.
// ---------------------------------------------------------------------------

/// One character inside a quoted text: quotes, backslashes and the usual
/// control characters are escaped with a backslash.
pub open spec fn escape_char(c: char) -> Seq<char> {
    if c == '"' {
        seq!['\\', '"']
    } else if c == '\\' {
        seq!['\\', '\\']
    } else if c == '\n' {
        seq!['\\', 'n']
    } else if c == '\r' {
        seq!['\\', 'r']
    } else if c == '\t' {
        seq!['\\', 't']
    } else {
        seq![c]
    }
}

pub open spec fn escaped(s: Seq<char>) -> Seq<char>
    decreases s.len(),
{
    if s.len() == 0 {
        Seq::empty()
    } else {
        escaped(s.drop_last()) + escape_char(s.last())
    }
}

/// A text between double quotes, escaped.
pub open spec fn quoted(s: Seq<char>) -> Seq<char> {
    seq!['"'] + escaped(s) + seq!['"']
}

/// Decimal text of an integer, with a leading `-` when negative.
pub open spec fn int_text(n: int) -> Seq<char> {
    if n < 0 { seq!['-'] + decimal((-n) as nat) } else { decimal(n as nat) }
}

fn push_quoted(out: &mut String, s: &str)
    ensures
        final(out)@ == old(out)@ + quoted(s@),
{
    push_char(out, '"');
    let cs = chars_of(s);
    let mut i: usize = 0;
    while i < cs.len()
        invariant
            i <= cs@.len(),
            cs@ == s@,
            out@ == old(out)@ + seq!['"'] + escaped(s@.take(i as int)),
        decreases cs@.len() - i,
    {
        let c = cs[i];
        let ghost before = out@;
        if c == '"' {
            push_char(out, '\\');
            push_char(out, '"');
        } else if c == '\\' {
            push_char(out, '\\');
            push_char(out, '\\');
        } else if c == '\n' {
            push_char(out, '\\');
            push_char(out, 'n');
        } else if c == '\r' {
            push_char(out, '\\');
            push_char(out, 'r');
        } else if c == '\t' {
            push_char(out, '\\');
            push_char(out, 't');
        } else {
            push_char(out, c);
        }
        assert(out@ =~= before + escape_char(c));
        assert(s@.take(i + 1).drop_last() =~= s@.take(i as int));
        assert(s@.take(i + 1).last() == c);
        i += 1;
    }
    assert(s@.take(s@.len() as int) =~= s@);
    push_char(out, '"');
    assert(out@ =~= old(out)@ + quoted(s@));
}

fn digit(d: u128) -> (r: char)
    requires
        d < 10,
    ensures
        r == digit_char(d as nat),
{
    if d == 0 { '0' } else if d == 1 { '1' } else if d == 2 { '2' } else if d == 3 { '3' }
    else if d == 4 { '4' } else if d == 5 { '5' } else if d == 6 { '6' } else if d == 7 { '7' }
    else if d == 8 { '8' } else { '9' }
}

fn push_u128(out: &mut String, n: u128)
    ensures
        final(out)@ == old(out)@ + decimal(n as nat),
    decreases n,
{
    if n >= 10 {
        push_u128(out, n / 10);
    }
    push_char(out, digit(n % 10));
    assert(out@ =~= old(out)@ + decimal(n as nat));
}

fn push_u64(out: &mut String, n: u64)
    ensures
        final(out)@ == old(out)@ + decimal(n as nat),
{
    let t = u64_text(n);
    push_str(out, t.as_str());
}

fn push_i128(out: &mut String, n: i128)
    ensures
        final(out)@ == old(out)@ + int_text(n as int),
{
    if n < 0 {
        push_char(out, '-');
        let m: u128 = ((-(n + 1)) as u128) + 1;
        assert(m == -n);
        push_u128(out, m);
        assert(out@ =~= old(out)@ + int_text(n as int));
    } else {
        push_u128(out, n as u128);
    }
}

// ---------------------------------------------------------------------------
// Identifiers.
// ---------------------------------------------------------------------------

pub open spec fn venue_id_text(v: VenueId) -> Seq<char> {
    match v {
        VenueId::Aster => "Aster"@,
        VenueId::Binance => "Binance"@,
        VenueId::EdgeX => "EdgeX"@,
        VenueId::Okx => "Okx"@,
    }
}

pub open spec fn market_id_text(m: MarketId) -> Seq<char> {
    "MarketId { base: "@ + quoted(m.base@) + ", quote: "@ + quoted(m.quote@) + " }"@
}

pub open spec fn order_id_text(o: OrderId) -> Seq<char> {
    "OrderId("@ + quoted(o@) + ")"@
}

fn push_venue_id(out: &mut String, v: VenueId)
    ensures
        final(out)@ == old(out)@ + venue_id_text(v),
{
    match v {
        VenueId::Aster => push_str(out, "Aster"),
        VenueId::Binance => push_str(out, "Binance"),
        VenueId::EdgeX => push_str(out, "EdgeX"),
        VenueId::Okx => push_str(out, "Okx"),
    }
}

fn push_market_id(out: &mut String, m: &MarketId)
    ensures
        final(out)@ == old(out)@ + market_id_text(*m),
{
    push_str(out, "MarketId { base: ");
    push_quoted(out, m.base.as_str());
    push_str(out, ", quote: ");
    push_quoted(out, m.quote.as_str());
    push_str(out, " }");
    assert(out@ =~= old(out)@ + market_id_text(*m));
}

fn push_order_id(out: &mut String, o: &OrderId)
    ensures
        final(out)@ == old(out)@ + order_id_text(*o),
{
    push_str(out, "OrderId(");
    push_quoted(out, o.as_str());
    push_str(out, ")");
    assert(out@ =~= old(out)@ + order_id_text(*o));
}


// ---------------------------------------------------------------------------
// Errors.
// ---------------------------------------------------------------------------

pub open spec fn venue_error_text(e: VenueError) -> Seq<char> {
    match e {
        VenueError::Network(m) => "Network("@ + quoted(m@) + ")"@,
        VenueError::Authentication(m) => "Authentication("@ + quoted(m@) + ")"@,
        VenueError::InvalidRequest(m) => "InvalidRequest("@ + quoted(m@) + ")"@,
        VenueError::NotFound(m) => "NotFound("@ + quoted(m@) + ")"@,
        VenueError::RateLimited => "RateLimited"@,
        VenueError::Unsupported(m) => "Unsupported("@ + quoted(m@) + ")"@,
        VenueError::Internal(m) => "Internal("@ + quoted(m@) + ")"@,
    }
}

fn push_tagged(out: &mut String, tag: &str, m: &String)
    ensures
        final(out)@ == old(out)@ + (tag@ + quoted(m@) + ")"@),
{
    push_str(out, tag);
    push_quoted(out, m.as_str());
    push_str(out, ")");
    assert(out@ =~= old(out)@ + (tag@ + quoted(m@) + ")"@));
}

fn push_venue_error(out: &mut String, e: &VenueError)
    ensures
        final(out)@ == old(out)@ + venue_error_text(*e),
{
    match e {
        VenueError::Network(m) => push_tagged(out, "Network(", m),
        VenueError::Authentication(m) => push_tagged(out, "Authentication(", m),
        VenueError::InvalidRequest(m) => push_tagged(out, "InvalidRequest(", m),
        VenueError::NotFound(m) => push_tagged(out, "NotFound(", m),
        VenueError::RateLimited => push_str(out, "RateLimited"),
        VenueError::Unsupported(m) => push_tagged(out, "Unsupported(", m),
        VenueError::Internal(m) => push_tagged(out, "Internal(", m),
    }
}

impl VenueError {
    /// The text the error is recorded with.
    pub fn text(&self) -> (r: String)
        ensures
            r@ == venue_error_text(*self),
    {
        let mut out = String::new();
        push_venue_error(&mut out, self);
        out
    }
}

pub open spec fn balance_error_text(e: BalanceError) -> Seq<char> {
    match e {
        BalanceError::InvalidAmount => "InvalidAmount"@,
        BalanceError::Overflow => "Overflow"@,
        BalanceError::InsufficientAvailable { asset, available, requested } =>
            "InsufficientAvailable { asset: "@ + quoted(asset@) + ", available: "@ + int_text(available as int)
                + ", requested: "@ + decimal(requested as nat) + " }"@,
        BalanceError::InsufficientLocked { asset, locked, requested } =>
            "InsufficientLocked { asset: "@ + quoted(asset@) + ", locked: "@ + int_text(locked as int)
                + ", requested: "@ + int_text(requested as int) + " }"@,
        BalanceError::SettlementNotFinal => "SettlementNotFinal"@,
    }
}

fn push_balance_error(out: &mut String, e: &BalanceError)
    ensures
        final(out)@ == old(out)@ + balance_error_text(*e),
{
    match e {
        BalanceError::InvalidAmount => push_str(out, "InvalidAmount"),
        BalanceError::Overflow => push_str(out, "Overflow"),
        BalanceError::InsufficientAvailable { asset, available, requested } => {
            push_str(out, "InsufficientAvailable { asset: ");
            push_quoted(out, asset.as_str());
            push_str(out, ", available: ");
            push_i128(out, *available);
            push_str(out, ", requested: ");
            push_u128(out, *requested);
            push_str(out, " }");
            assert(out@ =~= old(out)@ + balance_error_text(*e));
        },
        BalanceError::InsufficientLocked { asset, locked, requested } => {
            push_str(out, "InsufficientLocked { asset: ");
            push_quoted(out, asset.as_str());
            push_str(out, ", locked: ");
            push_i128(out, *locked);
            push_str(out, ", requested: ");
            push_i128(out, *requested);
            push_str(out, " }");
            assert(out@ =~= old(out)@ + balance_error_text(*e));
        },
        BalanceError::SettlementNotFinal => push_str(out, "SettlementNotFinal"),
    }
}

impl BalanceError {
    /// The text the error is recorded with.
    pub fn text(&self) -> (r: String)
        ensures
            r@ == balance_error_text(*self),
    {
        let mut out = String::new();
        push_balance_error(&mut out, self);
        out
    }
}

pub open spec fn reservation_error_text(e: ReservationError) -> Seq<char> {
    match e {
        ReservationError::InvalidAmount => "InvalidAmount"@,
        ReservationError::NotFound => "NotFound"@,
        ReservationError::AlreadyFinished => "AlreadyFinished"@,
        ReservationError::ExceedsReservation => "ExceedsReservation"@,
        ReservationError::Balance(b) => "Balance("@ + balance_error_text(b) + ")"@,
    }
}

fn push_reservation_error(out: &mut String, e: &ReservationError)
    ensures
        final(out)@ == old(out)@ + reservation_error_text(*e),
{
    match e {
        ReservationError::InvalidAmount => push_str(out, "InvalidAmount"),
        ReservationError::NotFound => push_str(out, "NotFound"),
        ReservationError::AlreadyFinished => push_str(out, "AlreadyFinished"),
        ReservationError::ExceedsReservation => push_str(out, "ExceedsReservation"),
        ReservationError::Balance(b) => {
            push_str(out, "Balance(");
            push_balance_error(out, b);
            push_str(out, ")");
            assert(out@ =~= old(out)@ + reservation_error_text(*e));
        },
    }
}

impl ReservationError {
    /// The text the error is recorded with.
    pub fn text(&self) -> (r: String)
        ensures
            r@ == reservation_error_text(*self),
    {
        let mut out = String::new();
        push_reservation_error(&mut out, self);
        out
    }
}

/// `name { a: x, b: y }` with two numeric fields.
pub open spec fn two_fields(name: Seq<char>, a: Seq<char>, x: u64, b: Seq<char>, y: u64) -> Seq<char> {
    name + " { "@ + a + ": "@ + decimal(x as nat) + ", "@ + b + ": "@ + decimal(y as nat) + " }"@
}

fn push_two_fields(out: &mut String, name: &str, a: &str, x: u64, b: &str, y: u64)
    ensures
        final(out)@ == old(out)@ + two_fields(name@, a@, x, b@, y),
{
    push_str(out, name);
    push_str(out, " { ");
    push_str(out, a);
    push_str(out, ": ");
    push_u64(out, x);
    push_str(out, ", ");
    push_str(out, b);
    push_str(out, ": ");
    push_u64(out, y);
    push_str(out, " }");
    assert(out@ =~= old(out)@ + two_fields(name@, a@, x, b@, y));
}

pub open spec fn risk_error_text(e: RiskError) -> Seq<char> {
    match e {
        RiskError::ZeroQuantity => "ZeroQuantity"@,
        RiskError::QuantityLimitExceeded { requested, maximum } =>
            two_fields("QuantityLimitExceeded"@, "requested"@, requested, "maximum"@, maximum),
        RiskError::MaxSpendExceeded { estimated, maximum } =>
            two_fields("MaxSpendExceeded"@, "estimated"@, estimated, "maximum"@, maximum),
        RiskError::ExecutionExceededMaxSpend { actual, maximum } =>
            two_fields("ExecutionExceededMaxSpend"@, "actual"@, actual, "maximum"@, maximum),
        RiskError::MarketBuyRequiresConstraint => "MarketBuyRequiresConstraint"@,
        RiskError::InvalidSlippage => "InvalidSlippage"@,
        RiskError::SlippageExceeded { reference_price, execution_price, maximum_price } =>
            "SlippageExceeded { reference_price: "@ + decimal(reference_price as nat) + ", execution_price: "@
                + decimal(execution_price as nat) + ", maximum_price: "@ + decimal(maximum_price as nat) + " }"@,
        RiskError::InvalidReferencePrice => "InvalidReferencePrice"@,
        RiskError::NoMarketData => "NoMarketData"@,
        RiskError::ArithmeticOverflow => "ArithmeticOverflow"@,
    }
}

fn push_risk_error(out: &mut String, e: &RiskError)
    ensures
        final(out)@ == old(out)@ + risk_error_text(*e),
{
    match e {
        RiskError::ZeroQuantity => push_str(out, "ZeroQuantity"),
        RiskError::QuantityLimitExceeded { requested, maximum } =>
            push_two_fields(out, "QuantityLimitExceeded", "requested", *requested, "maximum", *maximum),
        RiskError::MaxSpendExceeded { estimated, maximum } =>
            push_two_fields(out, "MaxSpendExceeded", "estimated", *estimated, "maximum", *maximum),
        RiskError::ExecutionExceededMaxSpend { actual, maximum } =>
            push_two_fields(out, "ExecutionExceededMaxSpend", "actual", *actual, "maximum", *maximum),
        RiskError::MarketBuyRequiresConstraint => push_str(out, "MarketBuyRequiresConstraint"),
        RiskError::InvalidSlippage => push_str(out, "InvalidSlippage"),
        RiskError::SlippageExceeded { reference_price, execution_price, maximum_price } => {
            push_str(out, "SlippageExceeded { reference_price: ");
            push_u64(out, *reference_price);
            push_str(out, ", execution_price: ");
            push_u64(out, *execution_price);
            push_str(out, ", maximum_price: ");
            push_u64(out, *maximum_price);
            push_str(out, " }");
            assert(out@ =~= old(out)@ + risk_error_text(*e));
        },
        RiskError::InvalidReferencePrice => push_str(out, "InvalidReferencePrice"),
        RiskError::NoMarketData => push_str(out, "NoMarketData"),
        RiskError::ArithmeticOverflow => push_str(out, "ArithmeticOverflow"),
    }
}

impl RiskError {
    /// The text the error is recorded with.
    pub fn text(&self) -> (r: String)
        ensures
            r@ == risk_error_text(*self),
    {
        let mut out = String::new();
        push_risk_error(&mut out, self);
        out
    }
}


pub open spec fn router_error_text(e: RouterError) -> Seq<char> {
    match e {
        RouterError::InvalidQuantity => "InvalidQuantity"@,
        RouterError::NoLiquidity => "NoLiquidity"@,
        RouterError::InsufficientLiquidity { requested, available } =>
            two_fields("InsufficientLiquidity"@, "requested"@, requested, "available"@, available),
        RouterError::MarketMismatch { order_market, book_market } =>
            "MarketMismatch { order_market: "@ + market_id_text(order_market) + ", book_market: "@
                + market_id_text(book_market) + " }"@,
    }
}

fn push_router_error(out: &mut String, e: &RouterError)
    ensures
        final(out)@ == old(out)@ + router_error_text(*e),
{
    match e {
        RouterError::InvalidQuantity => push_str(out, "InvalidQuantity"),
        RouterError::NoLiquidity => push_str(out, "NoLiquidity"),
        RouterError::InsufficientLiquidity { requested, available } =>
            push_two_fields(out, "InsufficientLiquidity", "requested", *requested, "available", *available),
        RouterError::MarketMismatch { order_market, book_market } => {
            push_str(out, "MarketMismatch { order_market: ");
            push_market_id(out, order_market);
            push_str(out, ", book_market: ");
            push_market_id(out, book_market);
            push_str(out, " }");
            assert(out@ =~= old(out)@ + router_error_text(*e));
        },
    }
}

impl RouterError {
    /// The text the error is recorded with.
    pub fn text(&self) -> (r: String)
        ensures
            r@ == router_error_text(*self),
    {
        let mut out = String::new();
        push_router_error(&mut out, self);
        out
    }
}

pub open spec fn splitter_error_text(e: SplitterError) -> Seq<char> {
    match e {
        SplitterError::MarketInactive => "MarketInactive"@,
        SplitterError::NothingExecutable => "NothingExecutable"@,
        SplitterError::QuantityBelowLotSize { venue, quantity, lot_size } =>
            "QuantityBelowLotSize { venue: "@ + venue_id_text(venue) + ", quantity: "@ + decimal(quantity as nat)
                + ", lot_size: "@ + decimal(lot_size as nat) + " }"@,
    }
}

fn push_splitter_error(out: &mut String, e: &SplitterError)
    ensures
        final(out)@ == old(out)@ + splitter_error_text(*e),
{
    match e {
        SplitterError::MarketInactive => push_str(out, "MarketInactive"),
        SplitterError::NothingExecutable => push_str(out, "NothingExecutable"),
        SplitterError::QuantityBelowLotSize { venue, quantity, lot_size } => {
            push_str(out, "QuantityBelowLotSize { venue: ");
            push_venue_id(out, *venue);
            push_str(out, ", quantity: ");
            push_u64(out, *quantity);
            push_str(out, ", lot_size: ");
            push_u64(out, *lot_size);
            push_str(out, " }");
            assert(out@ =~= old(out)@ + splitter_error_text(*e));
        },
    }
}

impl SplitterError {
    /// The text the error is recorded with.
    pub fn text(&self) -> (r: String)
        ensures
            r@ == splitter_error_text(*self),
    {
        let mut out = String::new();
        push_splitter_error(&mut out, self);
        out
    }
}

/// An executor error inside a list of them; a list nested in the list is
/// shown as `[..]`.
pub open spec fn inner_executor_error_text(e: ExecutorError) -> Seq<char> {
    match e {
        ExecutorError::EmptyExecutionPlan => "EmptyExecutionPlan"@,
        ExecutorError::VenueNotConfigured(v) => "VenueNotConfigured("@ + venue_id_text(v) + ")"@,
        ExecutorError::VenueExecutionFailed { venue, child_order_id, error } =>
            "VenueExecutionFailed { venue: "@ + venue_id_text(venue) + ", child_order_id: "@
                + order_id_text(child_order_id) + ", error: "@ + venue_error_text(error) + " }"@,
        ExecutorError::WorkerPanicked => "WorkerPanicked"@,
        ExecutorError::AllChildrenFailed(_) => "AllChildrenFailed([..])"@,
    }
}

/// The texts of a list of executor errors, separated by `, `.
pub open spec fn executor_errors_text(s: Seq<ExecutorError>) -> Seq<char>
    decreases s.len(),
{
    if s.len() == 0 {
        Seq::empty()
    } else if s.len() == 1 {
        inner_executor_error_text(s[0])
    } else {
        executor_errors_text(s.drop_last()) + ", "@ + inner_executor_error_text(s.last())
    }
}

pub open spec fn executor_error_text(e: ExecutorError) -> Seq<char> {
    match e {
        ExecutorError::AllChildrenFailed(v) => "AllChildrenFailed(["@ + executor_errors_text(v@) + "])"@,
        _ => inner_executor_error_text(e),
    }
}

fn push_inner_executor_error(out: &mut String, e: &ExecutorError)
    ensures
        final(out)@ == old(out)@ + inner_executor_error_text(*e),
{
    match e {
        ExecutorError::EmptyExecutionPlan => push_str(out, "EmptyExecutionPlan"),
        ExecutorError::VenueNotConfigured(v) => {
            push_str(out, "VenueNotConfigured(");
            push_venue_id(out, *v);
            push_str(out, ")");
            assert(out@ =~= old(out)@ + inner_executor_error_text(*e));
        },
        ExecutorError::VenueExecutionFailed { venue, child_order_id, error } => {
            push_str(out, "VenueExecutionFailed { venue: ");
            push_venue_id(out, *venue);
            push_str(out, ", child_order_id: ");
            push_order_id(out, child_order_id);
            push_str(out, ", error: ");
            push_venue_error(out, error);
            push_str(out, " }");
            assert(out@ =~= old(out)@ + inner_executor_error_text(*e));
        },
        ExecutorError::WorkerPanicked => push_str(out, "WorkerPanicked"),
        ExecutorError::AllChildrenFailed(_) => push_str(out, "AllChildrenFailed([..])"),
    }
}

fn push_executor_error(out: &mut String, e: &ExecutorError)
    ensures
        final(out)@ == old(out)@ + executor_error_text(*e),
{
    match e {
        ExecutorError::AllChildrenFailed(v) => {
            push_str(out, "AllChildrenFailed([");
            let ghost start = out@;
            let mut i: usize = 0;
            while i < v.len()
                invariant
                    i <= v@.len(),
                    out@ == start + executor_errors_text(v@.take(i as int)),
                decreases v@.len() - i,
            {
                let ghost before = out@;
                if i > 0 {
                    push_str(out, ", ");
                }
                push_inner_executor_error(out, &v[i]);
                proof {
                    let t = v@.take(i + 1);
                    assert(t.drop_last() =~= v@.take(i as int));
                    assert(t.last() == v@[i as int]);
                    if i == 0 {
                        assert(out@ =~= start + executor_errors_text(t));
                    } else {
                        assert(out@ =~= start + executor_errors_text(t));
                    }
                }
                i += 1;
            }
            assert(v@.take(v@.len() as int) =~= v@);
            push_str(out, "])");
            assert(out@ =~= old(out)@ + executor_error_text(*e));
        },
        _ => push_inner_executor_error(out, e),
    }
}

impl ExecutorError {
    /// The text the error is recorded with.
    pub fn text(&self) -> (r: String)
        ensures
            r@ == executor_error_text(*self),
    {
        let mut out = String::new();
        push_executor_error(&mut out, self);
        out
    }
}

pub open spec fn aggregator_error_text(e: AggregatorError) -> Seq<char> {
    match e {
        AggregatorError::NoExecutions => "NoExecutions"@,
        AggregatorError::ParentOrderMismatch => "ParentOrderMismatch"@,
        AggregatorError::RequestedQuantityMismatch { order_quantity, execution_quantity } =>
            two_fields("RequestedQuantityMismatch"@, "order_quantity"@, order_quantity, "execution_quantity"@, execution_quantity),
    }
}

fn push_aggregator_error(out: &mut String, e: &AggregatorError)
    ensures
        final(out)@ == old(out)@ + aggregator_error_text(*e),
{
    match e {
        AggregatorError::NoExecutions => push_str(out, "NoExecutions"),
        AggregatorError::ParentOrderMismatch => push_str(out, "ParentOrderMismatch"),
        AggregatorError::RequestedQuantityMismatch { order_quantity, execution_quantity } =>
            push_two_fields(out, "RequestedQuantityMismatch", "order_quantity", *order_quantity,
                "execution_quantity", *execution_quantity),
    }
}

impl AggregatorError {
    /// The text the error is recorded with.
    pub fn text(&self) -> (r: String)
        ensures
            r@ == aggregator_error_text(*self),
    {
        let mut out = String::new();
        push_aggregator_error(&mut out, self);
        out
    }
}

pub open spec fn settlement_error_text(e: SettlementError) -> Seq<char> {
    match e {
        SettlementError::ParentOrderMismatch => "ParentOrderMismatch"@,
        SettlementError::InvalidExecutionState => "InvalidExecutionState"@,
        SettlementError::ZeroFilledQuantity => "ZeroFilledQuantity"@,
        SettlementError::InsufficientSettlementData => "InsufficientSettlementData"@,
    }
}

fn push_settlement_error(out: &mut String, e: &SettlementError)
    ensures
        final(out)@ == old(out)@ + settlement_error_text(*e),
{
    match e {
        SettlementError::ParentOrderMismatch => push_str(out, "ParentOrderMismatch"),
        SettlementError::InvalidExecutionState => push_str(out, "InvalidExecutionState"),
        SettlementError::ZeroFilledQuantity => push_str(out, "ZeroFilledQuantity"),
        SettlementError::InsufficientSettlementData => push_str(out, "InsufficientSettlementData"),
    }
}

impl SettlementError {
    /// The text the error is recorded with.
    pub fn text(&self) -> (r: String)
        ensures
            r@ == settlement_error_text(*self),
    {
        let mut out = String::new();
        push_settlement_error(&mut out, self);
        out
    }
}

/// The text of an order-store error; an I/O error is shown as `Io(..)`,
/// without the operating system's own text.
pub open spec fn order_store_error_text(e: OrderStoreError) -> Seq<char> {
    match e {
        OrderStoreError::NotFound => "NotFound"@,
        OrderStoreError::Io(_) => "Io(..)"@,
        OrderStoreError::LockPoisoned => "LockPoisoned"@,
        OrderStoreError::CorruptedRecord => "CorruptedRecord"@,
    }
}

fn push_order_store_error(out: &mut String, e: &OrderStoreError)
    ensures
        final(out)@ == old(out)@ + order_store_error_text(*e),
{
    match e {
        OrderStoreError::NotFound => push_str(out, "NotFound"),
        OrderStoreError::Io(_) => push_str(out, "Io(..)"),
        OrderStoreError::LockPoisoned => push_str(out, "LockPoisoned"),
        OrderStoreError::CorruptedRecord => push_str(out, "CorruptedRecord"),
    }
}

pub open spec fn order_manager_error_text(e: OrderManagerError) -> Seq<char> {
    match e {
        OrderManagerError::Risk(x) => "Risk("@ + risk_error_text(x) + ")"@,
        OrderManagerError::MarketData(x) => "MarketData("@ + venue_error_text(x) + ")"@,
        OrderManagerError::Routing(x) => "Routing("@ + router_error_text(x) + ")"@,
        OrderManagerError::Splitting(x) => "Splitting("@ + splitter_error_text(x) + ")"@,
        OrderManagerError::Execution(x) => "Execution("@ + executor_error_text(x) + ")"@,
        OrderManagerError::Aggregation(x) => "Aggregation("@ + aggregator_error_text(x) + ")"@,
        OrderManagerError::Settlement(x) => "Settlement("@ + settlement_error_text(x) + ")"@,
        OrderManagerError::Balance(x) => "Balance("@ + balance_error_text(x) + ")"@,
        OrderManagerError::Reservation(x) => "Reservation("@ + reservation_error_text(x) + ")"@,
        OrderManagerError::OrderStore(x) => "OrderStore("@ + order_store_error_text(x) + ")"@,
        OrderManagerError::NoSuccessfulExecution => "NoSuccessfulExecution"@,
        OrderManagerError::ReservationOverflow => "ReservationOverflow"@,
        OrderManagerError::MarketBuyRequiresMaxSpend => "MarketBuyRequiresMaxSpend"@,
        OrderManagerError::ArithmeticOverflow => "ArithmeticOverflow"@,
    }
}

impl OrderManagerError {
    /// The text the error is recorded with.
    pub fn text(&self) -> (r: String)
        ensures
            r@ == order_manager_error_text(*self),
    {
        let mut out = String::new();
        match self {
            OrderManagerError::Risk(x) => { push_str(&mut out, "Risk("); push_risk_error(&mut out, x); },
            OrderManagerError::MarketData(x) => { push_str(&mut out, "MarketData("); push_venue_error(&mut out, x); },
            OrderManagerError::Routing(x) => { push_str(&mut out, "Routing("); push_router_error(&mut out, x); },
            OrderManagerError::Splitting(x) => { push_str(&mut out, "Splitting("); push_splitter_error(&mut out, x); },
            OrderManagerError::Execution(x) => { push_str(&mut out, "Execution("); push_executor_error(&mut out, x); },
            OrderManagerError::Aggregation(x) => { push_str(&mut out, "Aggregation("); push_aggregator_error(&mut out, x); },
            OrderManagerError::Settlement(x) => { push_str(&mut out, "Settlement("); push_settlement_error(&mut out, x); },
            OrderManagerError::Balance(x) => { push_str(&mut out, "Balance("); push_balance_error(&mut out, x); },
            OrderManagerError::Reservation(x) => { push_str(&mut out, "Reservation("); push_reservation_error(&mut out, x); },
            OrderManagerError::OrderStore(x) => { push_str(&mut out, "OrderStore("); push_order_store_error(&mut out, x); },
            OrderManagerError::NoSuccessfulExecution => { push_str(&mut out, "NoSuccessfulExecution"); return out; },
            OrderManagerError::ReservationOverflow => { push_str(&mut out, "ReservationOverflow"); return out; },
            OrderManagerError::MarketBuyRequiresMaxSpend => { push_str(&mut out, "MarketBuyRequiresMaxSpend"); return out; },
            OrderManagerError::ArithmeticOverflow => { push_str(&mut out, "ArithmeticOverflow"); return out; },
        }
        push_str(&mut out, ")");
        assert(out@ =~= order_manager_error_text(*self));
        out
    }
}

} // verus!
