//! The trade feed: turning the rows of a trade message into stored trades,
//! with the numbering and de-duplication that the trade store asks for, and
//! the small rules of the trade queries and the connection handling.

use vstd::prelude::*;
use crate::text::{decimal, decimal_string, push_str};
use crate::strings::{contains, str_contains};
use vstd::utf8::{decode_utf8, encode_utf8, is_char_boundary};
use vstd::string::StringSliceAdditionalSpecFns;

verus! {

/// The largest page of recent trades.
pub const MAX_PAGE_SIZE: u64 = 100;

/// The largest batch of a range query.
pub const MAX_BATCH_SIZE: u64 = 1000;

/// A row of a trade message needs at least this many fields.
pub const MIN_TRADE_FIELDS: usize = 5;

/// One trade, as stored and published.
#[derive(Debug)]
pub struct Trade {
    pub id: String,
    pub price: String,
    pub volume: String,
    pub timestamp: String,
    pub side: String,
    pub order_type: String,
    pub misc: String,
    pub pair: String,
}

/// The identifier of the trade numbered `index` with price `price`:
/// the number, a hyphen, the price.
pub open spec fn spec_trade_id(index: u64, price: Seq<char>) -> Seq<char> {
    decimal(index as nat) + seq!['-'] + price
}

/// Builds the identifier `"{index}-{price}"`.
pub fn trade_id(index: u64, price: &String) -> (r: String)
    ensures
        r@ == spec_trade_id(index, price@),
{
    let mut s = decimal_string(index);
    push_str(&mut s, "-");
    push_str(&mut s, price.as_str());
    proof {
        reveal_strlit("-");
    }
    assert(s@ =~= spec_trade_id(index, price@));
    s
}

/// `t` is the trade built from a row of at least five fields: price,
/// volume, timestamp, side and order type in that order, then an optional
/// sixth field, empty when absent; its identifier comes from `index` and
/// the price.
pub open spec fn trade_matches(t: Trade, row: Seq<String>, index: u64, pair: String) -> bool {
    &&& t.id@ == spec_trade_id(index, row[0]@)
    &&& t.price == row[0]
    &&& t.volume == row[1]
    &&& t.timestamp == row[2]
    &&& t.side == row[3]
    &&& t.order_type == row[4]
    &&& t.misc@ == (if row.len() > 5 { row[5]@ } else { Seq::<char>::empty() })
    &&& t.pair == pair
}

/// Builds the trade numbered `index` from a row of at least five fields.
pub fn trade_from_row(row: &Vec<String>, index: u64, pair: &String) -> (t: Trade)
    requires
        row@.len() >= MIN_TRADE_FIELDS,
    ensures
        trade_matches(t, row@, index, *pair),
{
    let misc = if row.len() > 5 { row[5].clone() } else { String::new() };
    Trade {
        id: trade_id(index, &row[0]),
        price: row[0].clone(),
        volume: row[1].clone(),
        timestamp: row[2].clone(),
        side: row[3].clone(),
        order_type: row[4].clone(),
        misc,
        pair: pair.clone(),
    }
}

/// What the trade store is asked next while one trade message is taken in.
#[derive(Debug)]
pub enum IngestAction {
    /// Take the next trade number.
    NextCounter,
    /// Ask whether a trade identifier is already stored.
    CheckId(String),
    /// Record an identifier with its trade number.
    StoreId(String, u64),
    /// Store the collected trades as one batch, then publish them.
    StoreBatch,
    /// Nothing more to do for this message.
    Done,
}

/// The trade store's answer to the last action.
#[derive(Debug)]
pub enum IngestEvent {
    /// The next trade number.
    Counter(u64),
    /// Whether the identifier asked about is already stored.
    IdExists(bool),
    /// The identifier was recorded.
    IdStored,
}

/// Where the intake of a message stands.
#[derive(Clone, Copy, Debug, PartialEq, Eq, Structural)]
pub enum IngestStage {
    /// Waiting for a trade number for the current row.
    AwaitCounter,
    /// Waiting to hear whether the identifier with this number exists.
    AwaitExists(u64),
    /// Waiting for the identifier with this number to be recorded.
    AwaitStored(u64),
    /// Every row is handled.
    Finished,
}

/// The first row at or after `from` that has enough fields to be a trade,
/// or the number of rows when there is none.
pub open spec fn next_usable(rows: Seq<Vec<String>>, from: int) -> int
    decreases rows.len() - from,
{
    if from >= rows.len() {
        rows.len() as int
    } else if rows[from]@.len() >= MIN_TRADE_FIELDS {
        from
    } else {
        next_usable(rows, from + 1)
    }
}

/// The stage at row `pos` before its number is asked for.
pub open spec fn stage_at(rows: Seq<Vec<String>>, pos: int) -> IngestStage {
    if pos >= rows.len() { IngestStage::Finished } else { IngestStage::AwaitCounter }
}

proof fn lemma_next_usable(rows: Seq<Vec<String>>, from: int)
    requires
        0 <= from,
    ensures
        from <= next_usable(rows, from) <= rows.len() || (from > rows.len() && next_usable(rows, from) == rows.len()),
        next_usable(rows, from) < rows.len() ==> rows[next_usable(rows, from)]@.len() >= MIN_TRADE_FIELDS,
        forall|j: int| from <= j < next_usable(rows, from) ==> #[trigger] rows[j]@.len() < MIN_TRADE_FIELDS,
    decreases rows.len() - from,
{
    if from < rows.len() && rows[from]@.len() < MIN_TRADE_FIELDS {
        lemma_next_usable(rows, from + 1);
    }
}

/// The intake of one trade message: the rows of its trade list, each as
/// its fields in text, and the pair it is about. Rows with fewer than five
/// fields are skipped; every other row gets the next trade number, and
/// becomes a trade unless its identifier is already stored.
pub struct TradeIngest {
    rows: Vec<Vec<String>>,
    pair: String,
    pos: usize,
    stage: IngestStage,
    trades: Vec<(Trade, u64)>,
}

/// `t` was built, with its number, from a row before `bound` with enough fields.
pub open spec fn from_some_row(t: (Trade, u64), rows: Seq<Vec<String>>, pair: String, bound: int) -> bool {
    exists|j: int| 0 <= j < bound && j < rows.len() && rows[j]@.len() >= MIN_TRADE_FIELDS
        && #[trigger] trade_matches(t.0, rows[j]@, t.1, pair)
}

/// Every trade of `trades` was built, with its number, from a row before
/// `bound` with enough fields.
pub open spec fn built_from_rows(trades: Seq<(Trade, u64)>, rows: Seq<Vec<String>>, pair: String, bound: int) -> bool {
    forall|k: int| 0 <= k < trades.len() ==> from_some_row(#[trigger] trades[k], rows, pair, bound)
}

proof fn lemma_built_from_rows(trades: Seq<(Trade, u64)>, rows: Seq<Vec<String>>, pair: String, bound: int, bound2: int)
    requires
        built_from_rows(trades, rows, pair, bound),
        bound <= bound2,
    ensures
        built_from_rows(trades, rows, pair, bound2),
{
    assert forall|k: int| 0 <= k < trades.len() implies from_some_row(#[trigger] trades[k], rows, pair, bound2) by {
        assert(from_some_row(trades[k], rows, pair, bound));
    }
}

impl TradeIngest {
    /// The rows of the message.
    pub closed spec fn message_rows(&self) -> Seq<Vec<String>> {
        self.rows@
    }

    /// The pair the message is about.
    pub closed spec fn pair_name(&self) -> String {
        self.pair
    }

    /// The row being handled; the number of rows once all are handled.
    pub closed spec fn position(&self) -> int {
        self.pos as int
    }

    /// Where the intake stands.
    pub closed spec fn stage_of(&self) -> IngestStage {
        self.stage
    }

    /// The trades collected so far, each with its number.
    pub closed spec fn collected(&self) -> Seq<(Trade, u64)> {
        self.trades@
    }

    /// The intake is consistent: it stands at a row with enough fields or
    /// past the last row, finished exactly there, and every collected trade
    /// was built from an earlier row with enough fields.
    pub open spec fn wf(&self) -> bool {
        &&& 0 <= self.position() <= self.message_rows().len()
        &&& (self.stage_of() == IngestStage::Finished) == (self.position() == self.message_rows().len())
        &&& self.position() < self.message_rows().len() ==>
            self.message_rows()[self.position()]@.len() >= MIN_TRADE_FIELDS
        &&& self.collected_before(self.position())
    }

    /// Every collected trade was built from a row before `bound` with enough fields.
    pub open spec fn collected_before(&self, bound: int) -> bool {
        built_from_rows(self.collected(), self.message_rows(), self.pair_name(), bound)
    }

    /// `a` is the action the intake waits on in its present stage.
    pub open spec fn asks(&self, a: IngestAction) -> bool {
        match self.stage_of() {
            IngestStage::AwaitCounter => a is NextCounter,
            IngestStage::AwaitExists(i) => a matches IngestAction::CheckId(id)
                && id@ == spec_trade_id(i, self.message_rows()[self.position()]@[0]@),
            IngestStage::AwaitStored(i) => a matches IngestAction::StoreId(id, j)
                && j == i && id@ == spec_trade_id(i, self.message_rows()[self.position()]@[0]@),
            IngestStage::Finished => if self.collected().len() > 0 { a is StoreBatch } else { a is Done },
        }
    }

    /// The action for the present stage.
    fn pending(&self) -> (a: IngestAction)
        requires
            self.wf(),
        ensures
            self.asks(a),
    {
        match self.stage {
            IngestStage::AwaitCounter => IngestAction::NextCounter,
            IngestStage::AwaitExists(i) => IngestAction::CheckId(trade_id(i, &self.rows[self.pos][0])),
            IngestStage::AwaitStored(i) => IngestAction::StoreId(trade_id(i, &self.rows[self.pos][0]), i),
            IngestStage::Finished => if self.trades.len() > 0 { IngestAction::StoreBatch } else { IngestAction::Done },
        }
    }

    /// The first row at or after `from` with enough fields, or the number of rows.
    fn skip_short_rows(rows: &Vec<Vec<String>>, from: usize) -> (r: usize)
        requires
            from <= rows@.len(),
        ensures
            r == next_usable(rows@, from as int),
    {
        let mut i = from;
        while i < rows.len() && rows[i].len() < MIN_TRADE_FIELDS
            invariant
                from <= i <= rows@.len(),
                next_usable(rows@, from as int) == next_usable(rows@, i as int),
            decreases rows@.len() - i,
        {
            i = i + 1;
        }
        i
    }

    /// Starts the intake of a message, and says what to ask first.
    pub fn new(rows: Vec<Vec<String>>, pair: String) -> (r: (TradeIngest, IngestAction))
        ensures
            r.0.wf(),
            r.0.message_rows() == rows@,
            r.0.pair_name() == pair,
            r.0.position() == next_usable(rows@, 0),
            r.0.stage_of() == stage_at(rows@, next_usable(rows@, 0)),
            r.0.collected().len() == 0,
            r.0.asks(r.1),
    {
        let pos = Self::skip_short_rows(&rows, 0);
        proof {
            lemma_next_usable(rows@, 0);
        }
        let stage = if pos < rows.len() { IngestStage::AwaitCounter } else { IngestStage::Finished };
        let ing = TradeIngest { rows, pair, pos, stage, trades: Vec::new() };
        let a = ing.pending();
        (ing, a)
    }

    /// Moves past the current row and says what to ask next.
    fn next_row(&mut self) -> (a: IngestAction)
        requires
            0 <= old(self).position() < old(self).message_rows().len(),
            old(self).collected_before(old(self).position() + 1),
        ensures
            final(self).wf(),
            final(self).message_rows() == old(self).message_rows(),
            final(self).pair_name() == old(self).pair_name(),
            final(self).collected() == old(self).collected(),
            final(self).position() == next_usable(old(self).message_rows(), old(self).position() + 1),
            final(self).stage_of() == stage_at(old(self).message_rows(), final(self).position()),
            final(self).asks(a),
    {
        let ghost before = *self;
        assert(self.pos < self.rows.len());
        let pos = Self::skip_short_rows(&self.rows, self.pos + 1);
        proof {
            lemma_next_usable(self.rows@, self.pos + 1);
        }
        self.pos = pos;
        self.stage = if pos < self.rows.len() { IngestStage::AwaitCounter } else { IngestStage::Finished };
        proof {
            lemma_built_from_rows(self.collected(), self.message_rows(), self.pair_name(), before.position() + 1, self.position());
        }
        self.pending()
    }

    /// Takes the store's answer to the pending action and says what to ask
    /// next. A trade number leads to the question whether the row's
    /// identifier exists; an existing identifier skips the row; a new one is
    /// recorded, after which the row's trade is collected. An answer that
    /// does not fit the pending action changes nothing, and the pending
    /// action is asked again.
#[verifier::spinoff_prover]
    pub fn advance(&mut self, e: IngestEvent) -> (a: IngestAction)
        requires
            old(self).wf(),
        ensures
            final(self).wf(),
            final(self).message_rows() == old(self).message_rows(),
            final(self).pair_name() == old(self).pair_name(),
            final(self).asks(a),
            match (old(self).stage_of(), e) {
                (IngestStage::AwaitCounter, IngestEvent::Counter(i)) => {
                    &&& final(self).position() == old(self).position()
                    &&& final(self).stage_of() == IngestStage::AwaitExists(i)
                    &&& final(self).collected() == old(self).collected()
                },
                (IngestStage::AwaitExists(i), IngestEvent::IdExists(true)) => {
                    &&& final(self).position() == next_usable(old(self).message_rows(), old(self).position() + 1)
                    &&& final(self).stage_of() == stage_at(old(self).message_rows(), final(self).position())
                    &&& final(self).collected() == old(self).collected()
                },
                (IngestStage::AwaitExists(i), IngestEvent::IdExists(false)) => {
                    &&& final(self).position() == old(self).position()
                    &&& final(self).stage_of() == IngestStage::AwaitStored(i)
                    &&& final(self).collected() == old(self).collected()
                },
                (IngestStage::AwaitStored(i), IngestEvent::IdStored) => {
                    &&& final(self).position() == next_usable(old(self).message_rows(), old(self).position() + 1)
                    &&& final(self).stage_of() == stage_at(old(self).message_rows(), final(self).position())
                    &&& final(self).collected().len() == old(self).collected().len() + 1
                    &&& final(self).collected().drop_last() == old(self).collected()
                    &&& final(self).collected().last().1 == i
                    &&& trade_matches(final(self).collected().last().0,
                        old(self).message_rows()[old(self).position()]@, i, old(self).pair_name())
                },
                _ => *final(self) == *old(self),
            },
    {
        match (&self.stage, &e) {
            (IngestStage::AwaitCounter, IngestEvent::Counter(i)) => {
                self.stage = IngestStage::AwaitExists(*i);
                self.pending()
            },
            (IngestStage::AwaitExists(_), IngestEvent::IdExists(true)) => {
                proof {
                    lemma_built_from_rows(self.collected(), self.message_rows(), self.pair_name(), self.position(), self.position() + 1);
                }
                self.next_row()
            },
            (IngestStage::AwaitExists(i), IngestEvent::IdExists(false)) => {
                self.stage = IngestStage::AwaitStored(*i);
                self.pending()
            },
            (IngestStage::AwaitStored(i), IngestEvent::IdStored) => {
                let index = *i;
                let ghost before = *self;
                let t = trade_from_row(&self.rows[self.pos], index, &self.pair);
                self.trades.push((t, index));
                proof {
                    assert(self.collected().drop_last() =~= before.collected());
                    let rows = self.message_rows();
                    lemma_built_from_rows(before.collected(), rows, self.pair_name(), before.position(), before.position() + 1);
                    assert forall|k: int| 0 <= k < self.collected().len() implies
                        from_some_row(#[trigger] self.collected()[k], rows, self.pair_name(), self.position() + 1) by {
                        if k < before.collected().len() {
                            assert(self.collected()[k] == before.collected()[k]);
                        } else {
                            let j = self.position();
                            assert(trade_matches(self.collected()[k].0, rows[j]@, self.collected()[k].1, self.pair_name()));
                        }
                    }
                }
                self.next_row()
            },
            _ => self.pending(),
        }
    }

    /// The trades collected so far, each with its number.
    pub fn trades(&self) -> (r: &Vec<(Trade, u64)>)
        ensures
            r@ == self.collected(),
    {
        &self.trades
    }

    /// Whether every row is handled.
    pub fn is_finished(&self) -> (r: bool)
        ensures
            r == (self.stage_of() == IngestStage::Finished),
    {
        match self.stage {
            IngestStage::Finished => true,
            _ => false,
        }
    }
}

/// Every trade a consistent intake has collected was built, with its
/// number, from a row of the message with at least five fields.
pub proof fn lemma_collected_trades_come_from_rows(ing: TradeIngest)
    requires
        ing.wf(),
    ensures
        forall|k: int| 0 <= k < ing.collected().len() ==>
            from_some_row(#[trigger] ing.collected()[k], ing.message_rows(), ing.pair_name(), ing.message_rows().len() as int),
{
    lemma_built_from_rows(ing.collected(), ing.message_rows(), ing.pair_name(), ing.position(), ing.message_rows().len() as int);
}

/// The word for the side of a trade: `"b"` buys, anything else sells.
pub fn side_label(side: &String) -> (r: &'static str)
    ensures
        r@ == (if side@ == "b"@ { "BUY"@ } else { "SELL"@ }),
{
    if *side == String::from_str("b") { "BUY" } else { "SELL" }
}

/// Whether a message of the feed comes from its trade channel; the others
/// are passed over.
pub fn is_trade_channel(channel_name: &str) -> (r: bool)
    ensures
        r == (channel_name@ == "trade"@),
{
    String::from_str(channel_name) == String::from_str("trade")
}

/// Events that keep a connection going and need no report.
pub open spec fn spec_is_routine_event(event: Seq<char>) -> bool {
    event == "systemStatus"@ || event == "subscriptionStatus"@ || event == "heartbeat"@
}

/// Whether an event name is one of the routine ones: system status,
/// subscription status or heartbeat.
pub fn is_routine_event(event: &str) -> (r: bool)
    ensures
        r == spec_is_routine_event(event@),
{
    let e = String::from_str(event);
    e == String::from_str("systemStatus") || e == String::from_str("subscriptionStatus")
        || e == String::from_str("heartbeat")
}

/// Whether a failed publish means the connection to the message broker is
/// gone: its message mentions a connection, a closed or refused one, or a
/// broken pipe.
pub fn publish_lost_connection(message: &str) -> (r: bool)
    ensures
        r == (contains(message@, "connection"@) || contains(message@, "closed"@)
            || contains(message@, "refused"@) || contains(message@, "broken pipe"@)),
{
    str_contains(message, "connection") || str_contains(message, "closed") || str_contains(message, "refused")
        || str_contains(message, "broken pipe")
}

/// Whether an error met while taking in a message means the broker
/// connection has to be opened again.
pub fn broker_connection_lost(message: &str) -> (r: bool)
    ensures
        r == (contains(message@, "Redis connection lost"@) || contains(message@, "redis"@)
            || contains(message@, "broken pipe"@)),
{
    str_contains(message, "Redis connection lost") || str_contains(message, "redis") || str_contains(message, "broken pipe")
}

/// The smaller of two numbers.
pub open spec fn min_u64(a: u64, b: u64) -> u64 {
    if a <= b { a } else { b }
}

/// How many of the most recent trades a request for `requested` of them
/// gets when `total` trades are stored: no more than stored, and no more
/// than a page.
pub open spec fn recent_count(requested: u64, total: u64) -> u64 {
    min_u64(min_u64(requested, total), MAX_PAGE_SIZE)
}

/// The numbers of the most recent trades to read, first and last, or
/// `None` when there are none to read. Trades are numbered from one.
pub fn recent_range(requested: u64, total: u64) -> (r: Option<(u64, u64)>)
    ensures
        recent_count(requested, total) == 0 ==> r is None,
        recent_count(requested, total) > 0 ==>
            r == Some(((total - recent_count(requested, total) + 1) as u64, total)),
{
    let a = if requested <= total { requested } else { total };
    let n = if a <= MAX_PAGE_SIZE { a } else { MAX_PAGE_SIZE };
    if n == 0 {
        None
    } else {
        Some((total - n + 1, total))
    }
}

/// The start and length of a range query: the start defaults to the first
/// trade, the length to a page, and the length is capped at a batch.
pub fn trade_query(start_index: Option<u64>, limit: Option<u64>) -> (r: (u64, u64))
    ensures
        r.0 == (match start_index { Some(s) => s, None => 1 }),
        r.1 == min_u64(match limit { Some(l) => l, None => 100 }, MAX_BATCH_SIZE),
{
    let start = match start_index { Some(s) => s, None => 1 };
    let requested = match limit { Some(l) => l, None => 100 };
    (start, if requested <= MAX_BATCH_SIZE { requested } else { MAX_BATCH_SIZE })
}

/// The number after the last trade of a range query.
pub fn range_end(start_index: u64, limit: u64) -> (r: u64)
    requires
        start_index + limit <= u64::MAX,
    ensures
        r == start_index + limit,
{
    start_index + limit
}

/// The next trade number after the stored total (none stored counts as zero).
pub fn next_trade_number(current_total: Option<u64>) -> (r: u64)
    requires
        current_total != Some(u64::MAX),
    ensures
        r == (match current_total { Some(t) => t + 1, None => 1 }),
{
    match current_total {
        Some(t) => t + 1,
        None => 1,
    }
}

/// The text of the string member `key` of a JSON document, when the text is
/// JSON whose top level is an object holding a string under that key.
pub uninterp spec fn json_string_member(text: Seq<char>, key: Seq<char>) -> Option<Seq<char>>;

/// Parses `text` with `serde_json::from_str` into a `serde_json::Value`,
/// looks `key` up with `Value::get` and reads it with `Value::as_str`.
/// Claimed: the result depends on the text and the key alone and is the
/// named member; a text that does not parse gives `None`, as does a key that
/// is missing or does not hold a string.
#[verifier::external_body]
fn string_member(text: &str, key: &str) -> (r: Option<String>)
    ensures
        match r {
            Some(v) => json_string_member(text@, key@) == Some(v@),
            None => json_string_member(text@, key@) is None,
        },
{
    match serde_json::from_str::<serde_json::Value>(text) {
        Ok(value) => match value.get(key) {
            Some(member) => member.as_str().map(String::from),
            None => None,
        },
        Err(_) => None,
    }
}

/// How many bytes of a message a debug line shows.
pub const LOG_EXCERPT_BYTES: usize = 500;

/// What a debug line shows of a message: the message itself, or, when its
/// UTF-8 form is longer than the excerpt, its first bytes followed by
/// `...(truncated)`.
pub open spec fn log_excerpt(text: Seq<char>) -> Seq<char> {
    let bytes = encode_utf8(text);
    if bytes.len() > LOG_EXCERPT_BYTES {
        decode_utf8(bytes.subrange(0, LOG_EXCERPT_BYTES as int)) + "...(truncated)"@
    } else {
        text
    }
}

/// A message can be cut for a debug line: it is short enough, or its byte
/// where the excerpt ends starts a character.
pub open spec fn can_excerpt(text: Seq<char>) -> bool {
    encode_utf8(text).len() <= LOG_EXCERPT_BYTES || is_char_boundary(encode_utf8(text), LOG_EXCERPT_BYTES as int)
}

/// The debug line for a message of the given kind, given the `event` member
/// that the message holds (if it is JSON with one): nothing for an object
/// whose event is a routine one, a line that names the event for any other
/// object with an event, and a plain line otherwise.
pub open spec fn spec_debug_log_line(message_type: Seq<char>, text: Seq<char>, event: Option<Seq<char>>) -> Option<Seq<char>> {
    if message_type == "Object"@ && event is Some {
        if spec_is_routine_event(event->0) {
            None
        } else {
            Some("DEBUG: "@ + message_type + " message format (event="@ + event->0 + "): "@ + log_excerpt(text))
        }
    } else {
        Some("DEBUG: "@ + message_type + " message format: "@ + log_excerpt(text))
    }
}

/// The excerpt of a message that a debug line shows.
fn excerpt(text: &str) -> (r: String)
    requires
        can_excerpt(text@),
    ensures
        r@ == log_excerpt(text@),
{
    let byte_count = text.as_bytes().len();
    if byte_count > LOG_EXCERPT_BYTES {
        let (head, _rest) = text.split_at(LOG_EXCERPT_BYTES);
        proof {
            broadcast use vstd::utf8::encode_utf8_decode_utf8;
            assert(head.spec_bytes() == encode_utf8(head@));
            assert(encode_utf8(head@) =~= encode_utf8(text@).subrange(0, LOG_EXCERPT_BYTES as int));
            assert(decode_utf8(encode_utf8(head@)) == head@);
        }
        let mut line = String::from_str(head);
        push_str(&mut line, "...(truncated)");
        line
    } else {
        String::from_str(text)
    }
}

/// The debug line printed for a message of the feed, or `None` where a
/// routine event is passed over in silence.
pub fn debug_log_line(message_type: &str, text: &str) -> (r: Option<String>)
    requires
        can_excerpt(text@),
    ensures
        match r {
            Some(l) => spec_debug_log_line(message_type@, text@, json_string_member(text@, "event"@)) == Some(l@),
            None => spec_debug_log_line(message_type@, text@, json_string_member(text@, "event"@)) is None,
        },
{
    let shown = excerpt(text);
    let is_object = String::from_str(message_type) == String::from_str("Object");
    let event = if is_object { string_member(text, "event") } else { None };
    let mut line = String::from_str("DEBUG: ");
    push_str(&mut line, message_type);
    match event {
        Some(e) => {
            if is_routine_event(e.as_str()) {
                return None;
            }
            push_str(&mut line, " message format (event=");
            push_str(&mut line, e.as_str());
            push_str(&mut line, "): ");
        },
        None => {
            push_str(&mut line, " message format: ");
        },
    }
    push_str(&mut line, shown.as_str());
    Some(line)
}

} // verus!
