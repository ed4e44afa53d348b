//! Local per-venue orderbooks and the engine that refreshes and merges them.
use vstd::prelude::*;
use crate::pepdex::market::MarketId;
use crate::pepdex::orderbook::{
    aggregate_orderbooks, book_views, books_fit, is_side_aggregate, latest_timestamp, side_quotes,
    totals_fit, AggregatedOrderBook,
};
use crate::pepdex::venue::{
    BookView, MarketDataVenue, VenueError, VenueId, VenueOrderBook,
};
use crate::pepdex::error_text::venue_error_text;
use crate::pepdex::venue::venue_name;
use crate::text::push_str;

verus! {

/// The venue's book among `entries`, if there is one.
pub open spec fn book_for(entries: Seq<BookView>, venue: VenueId) -> Option<BookView> {
    if exists|i: int| 0 <= i < entries.len() && entries[i].venue == venue {
        Some(entries[choose|i: int| 0 <= i < entries.len() && entries[i].venue == venue])
    } else {
        None
    }
}

/// `entries` after storing `book`: it replaces the book of its venue, or is appended.
pub open spec fn stored_after(entries: Seq<BookView>, book: BookView) -> Seq<BookView> {
    if exists|i: int| 0 <= i < entries.len() && entries[i].venue == book.venue {
        entries.update(choose|i: int| 0 <= i < entries.len() && entries[i].venue == book.venue, book)
    } else {
        entries.push(book)
    }
}

/// No venue has two books.
pub open spec fn venues_unique(entries: Seq<BookView>) -> bool {
    forall|i: int, j: int| 0 <= i < j < entries.len() ==> (#[trigger] entries[i]).venue != (#[trigger] entries[j]).venue
}

/// The latest orderbook of each venue, in the order the venues first reported.
pub struct LocalOrderBookStore {
    books: Vec<VenueOrderBook>,
}

impl LocalOrderBookStore {
    pub closed spec fn entries(&self) -> Seq<BookView> {
        book_views(self.books@)
    }

    pub closed spec fn wf(&self) -> bool {
        venues_unique(self.entries())
    }

    pub fn new() -> (r: Self)
        ensures
            r.wf(),
            r.entries() == Seq::<BookView>::empty(),
    {
        let r = LocalOrderBookStore { books: Vec::new() };
        assert(r.entries() =~= Seq::<BookView>::empty());
        r
    }

    /// Stores a venue's book, replacing the one it had.
    pub fn update(&mut self, book: VenueOrderBook)
        requires
            old(self).wf(),
        ensures
            final(self).wf(),
            final(self).entries() == stored_after(old(self).entries(), book@),
    {
        let ghost before = self.entries();
        let ghost old_books = self.books@;
        let ghost b = book@;
        let mut i: usize = 0;
        while i < self.books.len()
            invariant
                i <= self.books@.len(),
                before == self.entries(),
                old_books == self.books@,
                b == book@,
                before == old(self).entries(),
                venues_unique(before),
                forall|k: int| 0 <= k < i ==> self.books@[k].venue != book.venue,
            decreases self.books@.len() - i,
        {
            if self.books[i].venue == book.venue {
                proof {
                    assert(before == book_views(old_books));
                    assert(before[i as int] == old_books[i as int]@);
                    assert(before[i as int].venue == b.venue);
                    let c = choose|k: int| 0 <= k < before.len() && before[k].venue == b.venue;
                    assert(c == i as int) by {
                        if c != i as int {
                            if c < i {
                                assert(self.books@[c].venue != book.venue);
                            } else {
                                assert(before[i as int].venue != before[c].venue);
                            }
                        }
                    }
                }
                self.books.set(i, book);
                proof {
                    assert(self.books@ == old_books.update(i as int, book));
                    assert(self.entries() =~= before.update(i as int, b));
                    assert forall|x: int, y: int| 0 <= x < y < self.entries().len()
                        implies (#[trigger] self.entries()[x]).venue != (#[trigger] self.entries()[y]).venue by {
                        assert(before[x].venue != before[y].venue);
                    }
                }
                return;
            }
            i += 1;
        }
        self.books.push(book);
        proof {
            assert(self.entries() =~= before.push(b));
            assert(!exists|k: int| 0 <= k < before.len() && before[k].venue == b.venue) by {
                if exists|k: int| 0 <= k < before.len() && before[k].venue == b.venue {
                    let k = choose|k: int| 0 <= k < before.len() && before[k].venue == b.venue;
                    assert(self.books@[k].venue != book.venue);
                }
            }
        }
    }

    /// A copy of the venue's book.
    pub fn get(&self, venue: VenueId) -> (r: Option<VenueOrderBook>)
        requires
            self.wf(),
        ensures
            r is Some <==> book_for(self.entries(), venue) is Some,
            r matches Some(b) ==> book_for(self.entries(), venue) == Some(b@),
    {
        let ghost entries = self.entries();
        let mut i: usize = 0;
        while i < self.books.len()
            invariant
                i <= self.books@.len(),
                entries == self.entries(),
                venues_unique(entries),
                forall|k: int| 0 <= k < i ==> self.books@[k].venue != venue,
            decreases self.books@.len() - i,
        {
            if self.books[i].venue == venue {
                proof {
                    assert(entries[i as int].venue == venue);
                    let c = choose|k: int| 0 <= k < entries.len() && entries[k].venue == venue;
                    assert(c == i as int) by {
                        if c != i as int {
                            if c < i {
                                assert(self.books@[c].venue != venue);
                            } else {
                                assert(entries[i as int].venue != entries[c].venue);
                            }
                        }
                    }
                }
                return Some(self.books[i].clone());
            }
            i += 1;
        }
        proof {
            if exists|k: int| 0 <= k < entries.len() && entries[k].venue == venue {
                let k = choose|k: int| 0 <= k < entries.len() && entries[k].venue == venue;
                assert(self.books@[k].venue != venue);
            }
        }
        None
    }

    /// Copies of all books, in store order.
    pub fn all(&self) -> (r: Vec<VenueOrderBook>)
        ensures
            book_views(r@) == self.entries(),
    {
        let mut out: Vec<VenueOrderBook> = Vec::new();
        let mut i: usize = 0;
        while i < self.books.len()
            invariant
                i <= self.books@.len(),
                book_views(out@) == self.entries().take(i as int),
            decreases self.books@.len() - i,
        {
            let c = self.books[i].clone();
            let ghost prev = out@;
            out.push(c);
            assert(book_views(out@) =~= book_views(prev).push(c@));
            assert(self.entries().take(i + 1) =~= self.entries().take(i as int).push(self.entries()[i as int]));
            assert(book_views(out@) =~= self.entries().take(i + 1));
            i += 1;
        }
        assert(self.entries().take(self.books@.len() as int) =~= self.entries());
        out
    }

    pub fn len(&self) -> (r: usize)
        ensures
            r == self.entries().len(),
    {
        self.books.len()
    }

    pub fn clear(&mut self)
        ensures
            final(self).wf(),
            final(self).entries() == Seq::<BookView>::empty(),
    {
        self.books = Vec::new();
        assert(self.entries() =~= Seq::<BookView>::empty());
    }
}

impl Default for LocalOrderBookStore {
    fn default() -> (r: Self)
        ensures
            r.wf(),
            r.entries() == Seq::<BookView>::empty(),
    {
        Self::new()
    }
}

/// What one venue's snapshot request came to.
#[derive(Debug)]
pub enum SnapshotOutcome {
    Fetched(VenueOrderBook),
    Failed(VenueId, VenueError),
    /// The worker that asked the venue stopped without an answer.
    WorkerPanicked,
}

/// The line a snapshot that brought no book reports, if any.
pub open spec fn failure_line(o: SnapshotOutcome) -> Option<Seq<char>> {
    match o {
        SnapshotOutcome::Fetched(_) => None,
        SnapshotOutcome::Failed(v, e) => Some(venue_name(v) + ": "@ + venue_error_text(e)),
        SnapshotOutcome::WorkerPanicked => Some("market-data worker panicked"@),
    }
}

/// The failure lines of the snapshots, in order.
pub open spec fn failure_lines(s: Seq<SnapshotOutcome>) -> Seq<Seq<char>>
    decreases s.len(),
{
    if s.len() == 0 {
        Seq::empty()
    } else {
        match failure_line(s.last()) {
            Some(l) => failure_lines(s.drop_last()).push(l),
            None => failure_lines(s.drop_last()),
        }
    }
}

/// Lines joined with `; `.
pub open spec fn joined_lines(lines: Seq<Seq<char>>) -> Seq<char>
    decreases lines.len(),
{
    if lines.len() == 0 {
        Seq::empty()
    } else if lines.len() == 1 {
        lines[0]
    } else {
        joined_lines(lines.drop_last()) + "; "@ + lines.last()
    }
}

/// The store after keeping every fetched book, in order.
pub open spec fn store_fetched(entries: Seq<BookView>, outcomes: Seq<SnapshotOutcome>) -> Seq<BookView>
    decreases outcomes.len(),
{
    if outcomes.len() == 0 {
        entries
    } else {
        let before = store_fetched(entries, outcomes.drop_last());
        match outcomes.last() {
            SnapshotOutcome::Fetched(book) => stored_after(before, book@),
            _ => before,
        }
    }
}

/// How many snapshots were fetched.
pub open spec fn fetched_count(outcomes: Seq<SnapshotOutcome>) -> nat
    decreases outcomes.len(),
{
    if outcomes.len() == 0 {
        0
    } else {
        fetched_count(outcomes.drop_last()) + if outcomes.last() is Fetched { 1nat } else { 0nat }
    }
}

proof fn lemma_fetched_count_bound(outcomes: Seq<SnapshotOutcome>)
    ensures
        fetched_count(outcomes) <= outcomes.len(),
    decreases outcomes.len(),
{
    if outcomes.len() > 0 {
        lemma_fetched_count_bound(outcomes.drop_last());
    }
}

/// Fans market-data requests out to the configured venues and merges their books.
pub struct MarketDataEngine {
    venues: Vec<Box<dyn MarketDataVenue>>,
    store: LocalOrderBookStore,
}

impl MarketDataEngine {
    pub closed spec fn venue_total(&self) -> nat {
        self.venues@.len()
    }

    pub closed spec fn books(&self) -> Seq<BookView> {
        self.store.entries()
    }

    pub closed spec fn wf(&self) -> bool {
        self.store.wf()
    }

    pub fn new() -> (r: Self)
        ensures
            r.wf(),
            r.venue_total() == 0,
            r.books() == Seq::<BookView>::empty(),
    {
        MarketDataEngine { venues: Vec::new(), store: LocalOrderBookStore::new() }
    }

    /// Adds a venue after those already configured.
    pub fn add_venue<V: MarketDataVenue + 'static>(&mut self, venue: V)
        requires
            old(self).wf(),
        ensures
            final(self).wf(),
            final(self).books() == old(self).books(),
            final(self).venue_total() == old(self).venue_total() + 1,
    {
        push_venue(&mut self.venues, venue);
    }

    pub fn venue_count(&self) -> (r: usize)
        ensures
            r == self.venue_total(),
    {
        self.venues.len()
    }

    pub fn store(&self) -> (r: &LocalOrderBookStore)
        ensures
            r.entries() == self.books(),
            self.wf() ==> r.wf(),
    {
        &self.store
    }

    /// Keeps every fetched book; `Ok` with the number fetched, or, when none was,
    /// a network error that lists the failures.
    pub fn apply_snapshots(&mut self, outcomes: &Vec<SnapshotOutcome>) -> (r: Result<usize, VenueError>)
        requires
            old(self).wf(),
        ensures
            final(self).wf(),
            final(self).venue_total() == old(self).venue_total(),
            final(self).books() == store_fetched(old(self).books(), outcomes@),
            fetched_count(outcomes@) > 0 ==> r == Ok::<usize, VenueError>(fetched_count(outcomes@) as usize),
            fetched_count(outcomes@) == 0 ==> (r matches Err(VenueError::Network(m))
                && m@ == "All market-data venues failed: "@ + joined_lines(failure_lines(outcomes@))),
    {
        let ghost start = self.books();
        let mut successful: usize = 0;
        let mut errors: Vec<String> = Vec::new();
        let mut i: usize = 0;
        while i < outcomes.len()
            invariant
                i <= outcomes@.len(),
                self.wf(),
                self.venue_total() == old(self).venue_total(),
                self.books() == store_fetched(start, outcomes@.take(i as int)),
                successful == fetched_count(outcomes@.take(i as int)),
                errors@.map_values(|t: String| t@) == failure_lines(outcomes@.take(i as int)),
            decreases outcomes@.len() - i,
        {
            proof {
                assert(outcomes@.take(i + 1).drop_last() =~= outcomes@.take(i as int));
                lemma_fetched_count_bound(outcomes@.take(i as int));
            }
            let ghost before = errors@;
            match &outcomes[i] {
                SnapshotOutcome::Fetched(book) => {
                    self.store.update(book.clone());
                    successful += 1;
                },
                SnapshotOutcome::Failed(venue, error) => {
                    let mut line = venue.as_str().to_string();
                    push_str(&mut line, ": ");
                    let text = error.text();
                    push_str(&mut line, text.as_str());
                    errors.push(line);
                },
                SnapshotOutcome::WorkerPanicked => {
                    errors.push("market-data worker panicked".to_string());
                },
            }
            proof {
                assert(outcomes@.take(i + 1).last() == outcomes@[i as int]);
                if failure_line(outcomes@[i as int]) is Some {
                    assert(errors@.map_values(|t: String| t@) =~= before.map_values(|t: String| t@).push(
                        failure_line(outcomes@[i as int])->0));
                } else {
                    assert(errors@.map_values(|t: String| t@) =~= before.map_values(|t: String| t@));
                }
            }
            i += 1;
        }
        assert(outcomes@.take(outcomes@.len() as int) =~= outcomes@);
        if successful == 0 {
            let mut message = "All market-data venues failed: ".to_string();
            let ghost prefix = message@;
            let ghost lines = errors@.map_values(|t: String| t@);
            let mut k: usize = 0;
            while k < errors.len()
                invariant
                    k <= errors@.len(),
                    prefix == "All market-data venues failed: "@,
                    lines == errors@.map_values(|t: String| t@),
                    message@ == prefix + joined_lines(lines.take(k as int)),
                decreases errors@.len() - k,
            {
                let ghost was = message@;
                if k > 0 {
                    push_str(&mut message, "; ");
                }
                push_str(&mut message, errors[k].as_str());
                proof {
                    let t = lines.take(k + 1);
                    assert(t.drop_last() =~= lines.take(k as int));
                    assert(t.last() == errors@[k as int]@);
                    assert(message@ =~= prefix + joined_lines(t));
                }
                k += 1;
            }
            assert(lines.take(errors@.len() as int) =~= lines);
            return Err(VenueError::Network(message));
        }
        Ok(successful)
    }

    /// Asks each venue in turn for its book and keeps those it gets.
    pub fn refresh(&mut self, market: &MarketId) -> (r: Result<usize, VenueError>)
        requires
            old(self).wf(),
        ensures
            final(self).wf(),
            final(self).venue_total() == old(self).venue_total(),
            old(self).venue_total() == 0 ==> (r matches Err(VenueError::Internal(m))
                && m@ == "No market-data venues configured"@ && final(self).books() == old(self).books()),
            r matches Ok(n) ==> 1 <= n <= old(self).venue_total(),
            old(self).venue_total() > 0 && r is Err ==> (r matches Err(VenueError::Network(_))
                && final(self).books() == old(self).books()),
    {
        if self.venues.len() == 0 {
            return Err(VenueError::Internal("No market-data venues configured".to_string()));
        }
        let mut outcomes: Vec<SnapshotOutcome> = Vec::new();
        let mut i: usize = 0;
        while i < self.venues.len()
            invariant
                i <= self.venues@.len(),
                outcomes@.len() == i,
                forall|k: int| 0 <= k < i ==> !(#[trigger] outcomes@[k] is WorkerPanicked),
            decreases self.venues@.len() - i,
        {
            let venue = &self.venues[i];
            let id = venue.id();
            let outcome = match venue.snapshot(market) {
                Ok(book) => SnapshotOutcome::Fetched(book),
                Err(error) => SnapshotOutcome::Failed(id, error),
            };
            outcomes.push(outcome);
            i += 1;
        }
        proof {
            lemma_fetched_count_bound(outcomes@);
            lemma_no_fetch_keeps_store(self.books(), outcomes@);
        }
        self.apply_snapshots(&outcomes)
    }

    /// The merged book of the stored books; `None` when there is none, or when some
    /// price level's total would not fit in a `u64`.
    pub fn aggregated(&self) -> (r: Option<AggregatedOrderBook>)
        ensures
            r is Some <==> (self.books().len() > 0 && totals_fit(side_quotes(self.books(), true))
                && totals_fit(side_quotes(self.books(), false))),
            r matches Some(ob) ==> {
                &&& ob.market@ == self.books()[0].market
                &&& is_side_aggregate(side_quotes(self.books(), true), true, ob.bids@)
                &&& is_side_aggregate(side_quotes(self.books(), false), false, ob.asks@)
                &&& ob.timestamp_ms == latest_timestamp(self.books())
            },
    {
        let books = self.store.all();
        if books.len() == 0 {
            return None;
        }
        if !books_fit(books.as_slice()) {
            return None;
        }
        aggregate_orderbooks(books.as_slice())
    }

    /// Refreshes, then merges the stored books.
    pub fn snapshot(&mut self, market: &MarketId) -> (r: Result<AggregatedOrderBook, VenueError>)
        requires
            old(self).wf(),
        ensures
            final(self).wf(),
            old(self).venue_total() == 0 ==> (r matches Err(VenueError::Internal(m))
                && m@ == "No market-data venues configured"@),
            r matches Ok(ob) ==> {
                &&& final(self).books().len() > 0
                &&& ob.market@ == final(self).books()[0].market
                &&& is_side_aggregate(side_quotes(final(self).books(), true), true, ob.bids@)
                &&& is_side_aggregate(side_quotes(final(self).books(), false), false, ob.asks@)
                &&& ob.timestamp_ms == latest_timestamp(final(self).books())
            },
    {
        match self.refresh(market) {
            Err(e) => Err(e),
            Ok(_) => match self.aggregated() {
                Some(ob) => Ok(ob),
                None => Err(VenueError::Internal("No local orderbooks available".to_string())),
            },
        }
    }

    pub fn local_books(&self) -> (r: Vec<VenueOrderBook>)
        ensures
            book_views(r@) == self.books(),
    {
        self.store.all()
    }
}

impl Default for MarketDataEngine {
    fn default() -> (r: Self)
        ensures
            r.wf(),
            r.venue_total() == 0,
            r.books() == Seq::<BookView>::empty(),
    {
        Self::new()
    }
}

proof fn lemma_no_fetch_keeps_store(entries: Seq<BookView>, outcomes: Seq<SnapshotOutcome>)
    ensures
        fetched_count(outcomes) == 0 ==> store_fetched(entries, outcomes) == entries,
    decreases outcomes.len(),
{
    if outcomes.len() > 0 {
        lemma_no_fetch_keeps_store(entries, outcomes.drop_last());
    }
}

/// Adds a venue, boxed, at the end of the list.
fn push_venue<V: MarketDataVenue + 'static>(venues: &mut Vec<Box<dyn MarketDataVenue>>, venue: V)
    ensures
        final(venues)@.len() == old(venues)@.len() + 1,
{
    let boxed: Box<dyn MarketDataVenue> = Box::new(venue);
    let ghost b = boxed;
    venues.push(boxed);
    proof {
        vstd::seq::axiom_seq_push_len(old(venues)@, b);
    }
}

} // verus!
