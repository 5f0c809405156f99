//! The prices of feeds that are recorded beside the pools.
use vstd::prelude::*;

use super::buffers::{epoch_suffix, suffix_of};
use super::config::PythFeedConfig;
use super::json::{json_of, parse_json, text_in, Json, JsonView};
use super::stream::Backoff;
use crate::bytes::str_eq;
use crate::text::{
    digits_value, i64_value, joined, parse_i64, parse_u64, text_views, trim_hex_prefix, u64_value, without_hex_prefix,
};

verus! {

/// Seconds between two writes of the prices.
pub const PRICE_FLUSH_SECS: u64 = 60;

/// A price of a feed.
#[derive(Debug)]
pub struct PythPriceRow {
    pub timestamp_ms: u64,
    pub feed_id: String,
    pub symbol: String,
    pub price: i64,
    pub conf: u64,
    pub expo: i32,
    pub publish_time: i64,
}

/// What a price says.
#[verifier::ext_equal]
pub struct PriceView {
    pub timestamp_ms: u64,
    pub feed_id: Seq<char>,
    pub symbol: Seq<char>,
    pub price: i64,
    pub conf: u64,
    pub expo: i32,
    pub publish_time: i64,
}

impl View for PythPriceRow {
    type V = PriceView;

    open spec fn view(&self) -> PriceView {
        PriceView {
            timestamp_ms: self.timestamp_ms,
            feed_id: self.feed_id@,
            symbol: self.symbol@,
            price: self.price,
            conf: self.conf,
            expo: self.expo,
            publish_time: self.publish_time,
        }
    }
}

/// What the prices of a list say.
pub open spec fn price_views(rows: Seq<PythPriceRow>) -> Seq<PriceView> {
    rows.map_values(|r: PythPriceRow| r@)
}

/// The price part of a message, each field as it was sent.
#[derive(Debug)]
pub struct PricePart {
    pub price: Option<String>,
    pub conf: Option<String>,
    pub expo: Option<i64>,
    pub publish_time: Option<i64>,
}

/// The feed part of a message.
#[derive(Debug)]
pub struct FeedPart {
    pub id: Option<String>,
    pub price: Option<PricePart>,
}

/// A message of a price stream.
#[derive(Debug)]
pub struct PriceMessage {
    pub kind: Option<String>,
    pub feed: Option<FeedPart>,
}

/// What the price part of a message says.
pub struct PartView {
    pub price: Option<Seq<char>>,
    pub conf: Option<Seq<char>>,
    pub expo: Option<i64>,
    pub publish_time: Option<i64>,
}

/// What the feed part of a message says.
pub struct FeedView {
    pub id: Option<Seq<char>>,
    pub price: Option<PartView>,
}

/// What a message says.
pub struct MessageView {
    pub kind: Option<Seq<char>>,
    pub feed: Option<FeedView>,
}

impl View for PricePart {
    type V = PartView;

    open spec fn view(&self) -> PartView {
        PartView {
            price: text_in(self.price),
            conf: text_in(self.conf),
            expo: self.expo,
            publish_time: self.publish_time,
        }
    }
}

impl View for FeedPart {
    type V = FeedView;

    open spec fn view(&self) -> FeedView {
        FeedView {
            id: text_in(self.id),
            price: match self.price {
                Some(p) => Some(p@),
                None => None,
            },
        }
    }
}

impl View for PriceMessage {
    type V = MessageView;

    open spec fn view(&self) -> MessageView {
        MessageView {
            kind: text_in(self.kind),
            feed: match self.feed {
                Some(f) => Some(f@),
                None => None,
            },
        }
    }
}

/// The price part that a JSON value holds.
pub open spec fn part_in(j: JsonView) -> PartView {
    PartView {
        price: j.text("price"@),
        conf: j.text("conf"@),
        expo: j.integer("expo"@),
        publish_time: j.integer("publish_time"@),
    }
}

/// The feed part that a JSON value holds.
pub open spec fn feed_in(j: JsonView) -> FeedView {
    FeedView {
        id: j.text("id"@),
        price: match j.field("price"@) {
            Some(p) => Some(part_in(p)),
            None => None,
        },
    }
}

/// The message that a JSON value holds. A field of another kind than expected
/// counts as missing.
pub open spec fn message_in(j: JsonView) -> MessageView {
    MessageView {
        kind: j.text("type"@),
        feed: match j.field("price_feed"@) {
            Some(f) => Some(feed_in(f)),
            None => None,
        },
    }
}

/// Reads the message that a JSON value holds.
pub fn message_of(json: &Json) -> (r: PriceMessage)
    ensures
        r@ == message_in(json@),
{
    PriceMessage {
        kind: json.get_text("type"),
        feed: match json.get("price_feed") {
            Some(feed) => Some(
                FeedPart {
                    id: feed.get_text("id"),
                    price: match feed.get("price") {
                        Some(p) => Some(
                            PricePart {
                                price: p.get_text("price"),
                                conf: p.get_text("conf"),
                                expo: p.get_integer("expo"),
                                publish_time: p.get_integer("publish_time"),
                            },
                        ),
                        None => None,
                    },
                },
            ),
            None => None,
        },
    }
}

/// The low 32 bits of a number, with a sign.
pub open spec fn low_i32(x: int) -> int {
    let w = x % 0x1_0000_0000;
    if w < 0x8000_0000 {
        w
    } else {
        w - 0x1_0000_0000
    }
}

fn to_i32(x: i64) -> (r: i32)
    ensures
        r == low_i32(x as int),
{
    let w: i128 = if x >= 0 {
        x as i128 % 0x1_0000_0000
    } else {
        (x as i128 + 0x1_0000_0000_0000_0000) % 0x1_0000_0000
    };
    proof {
        if x < 0 {
            vstd::arithmetic::div_mod::lemma_mod_multiples_vanish(0x1_0000_0000, x as int, 0x1_0000_0000);
        }
    }
    if w < 0x8000_0000 {
        w as i32
    } else {
        (w - 0x1_0000_0000) as i32
    }
}

/// A signed number of a text; zero where there is none.
pub open spec fn signed_or_zero(s: Option<Seq<char>>) -> int {
    match s {
        Some(s) => match i64_value(s) {
            Some(v) => v,
            None => 0,
        },
        None => 0,
    }
}

/// An unsigned number of a text; zero where there is none.
pub open spec fn unsigned_or_zero(s: Option<Seq<char>>) -> int {
    match s {
        Some(s) => match u64_value(s) {
            Some(v) => v,
            None => 0,
        },
        None => 0,
    }
}

/// The symbol of the first feed of an id, from `i` on; empty where there is
/// none.
pub open spec fn symbol_from(feeds: Seq<PythFeedConfig>, id: Seq<char>, i: int) -> Seq<char>
    decreases feeds.len() - i,
{
    if i >= feeds.len() {
        Seq::empty()
    } else if without_hex_prefix(feeds[i].feed_id@) == id {
        feeds[i].symbol@
    } else {
        symbol_from(feeds, id, i + 1)
    }
}

fn find_symbol(feeds: &Vec<PythFeedConfig>, id: &str) -> (r: String)
    ensures
        r@ == symbol_from(feeds@, id@, 0),
{
    let mut i: usize = 0;
    while i < feeds.len()
        invariant
            i <= feeds@.len(),
            symbol_from(feeds@, id@, i as int) == symbol_from(feeds@, id@, 0),
        decreases feeds@.len() - i,
    {
        let trimmed = trim_hex_prefix(feeds[i].feed_id.as_str());
        if str_eq(trimmed.as_str(), id) {
            return feeds[i].symbol.clone();
        }
        i = i + 1;
    }
    String::new()
}

/// The price that a message carries: a price update with a price. An id or a
/// field that is missing counts as empty or zero.
pub open spec fn price_of(m: MessageView, feeds: Seq<PythFeedConfig>, timestamp_ms: u64) -> Option<PriceView> {
    if m.kind is None || m.kind->0 != "price_update"@ || m.feed is None || m.feed->0.price is None {
        None
    } else {
        let feed = m.feed->0;
        let p = feed.price->0;
        let id = match feed.id {
            Some(id) => id,
            None => Seq::empty(),
        };
        Some(
            PriceView {
                timestamp_ms,
                feed_id: "0x"@ + id,
                symbol: symbol_from(feeds, id, 0),
                price: signed_or_zero(p.price) as i64,
                conf: unsigned_or_zero(p.conf) as u64,
                expo: match p.expo {
                    Some(e) => low_i32(e as int) as i32,
                    None => 0,
                },
                publish_time: match p.publish_time {
                    Some(t) => t,
                    None => 0,
                },
            },
        )
    }
}

pub fn read_price(m: &PriceMessage, feeds: &Vec<PythFeedConfig>, timestamp_ms: u64) -> (r: Option<PythPriceRow>)
    ensures
        r is Some == price_of(m@, feeds@, timestamp_ms) is Some,
        r is Some ==> r->0@ == price_of(m@, feeds@, timestamp_ms)->0,
{
    match &m.kind {
        Some(kind) => {
            if !str_eq(kind.as_str(), "price_update") {
                return None;
            }
        },
        None => return None,
    }
    let feed = match &m.feed {
        Some(f) => f,
        None => return None,
    };
    let p = match &feed.price {
        Some(p) => p,
        None => return None,
    };
    let id = match &feed.id {
        Some(id) => id.clone(),
        None => String::new(),
    };
    let price = match &p.price {
        Some(s) => match parse_i64(s.as_str()) {
            Some(v) => v,
            None => 0,
        },
        None => 0,
    };
    let conf = match &p.conf {
        Some(s) => match parse_u64(s.as_str()) {
            Some(v) => v,
            None => 0,
        },
        None => 0,
    };
    let expo = match p.expo {
        Some(e) => to_i32(e),
        None => 0,
    };
    let publish_time = match p.publish_time {
        Some(t) => t,
        None => 0,
    };
    Some(
        PythPriceRow {
            timestamp_ms,
            feed_id: joined("0x", id.as_str()),
            symbol: find_symbol(feeds, id.as_str()),
            price,
            conf,
            expo,
            publish_time,
        },
    )
}

/// The price that a text carries: the text is JSON, and its message has a
/// price.
pub open spec fn price_in_text(text: Seq<char>, feeds: Seq<PythFeedConfig>, timestamp_ms: u64) -> Option<PriceView> {
    match json_of(text) {
        Some(j) => price_of(message_in(j), feeds, timestamp_ms),
        None => None,
    }
}

/// Reads the price that a text carries.
pub fn read_price_text(text: &str, feeds: &Vec<PythFeedConfig>, timestamp_ms: u64) -> (r: Option<PythPriceRow>)
    ensures
        r is Some == price_in_text(text@, feeds@, timestamp_ms) is Some,
        r is Some ==> r->0@ == price_in_text(text@, feeds@, timestamp_ms)->0,
{
    match parse_json(text) {
        Some(json) => read_price(&message_of(&json), feeds, timestamp_ms),
        None => None,
    }
}

/// The ids to subscribe to.
pub open spec fn feed_ids(feeds: Seq<PythFeedConfig>) -> Seq<Seq<char>> {
    feeds.map_values(|f: PythFeedConfig| without_hex_prefix(f.feed_id@))
}

pub fn subscribe_ids(feeds: &Vec<PythFeedConfig>) -> (r: Vec<String>)
    ensures
        text_views(r@) == feed_ids(feeds@),
{
    let mut ids: Vec<String> = Vec::new();
    let mut i: usize = 0;
    while i < feeds.len()
        invariant
            i <= feeds@.len(),
            text_views(ids@) =~= feed_ids(feeds@).take(i as int),
        decreases feeds@.len() - i,
    {
        let ghost before = ids@;
        let id = trim_hex_prefix(feeds[i].feed_id.as_str());
        ids.push(id);
        proof {
            assert(text_views(ids@) =~= text_views(before).push(id@));
            assert(feed_ids(feeds@)[i as int] == id@);
        }
        i = i + 1;
    }
    assert(feed_ids(feeds@).take(i as int) =~= feed_ids(feeds@));
    ids
}

/// The name of a file of prices.
pub fn prices_file(suffix: &str) -> (r: String)
    ensures
        r@ == "pyth_prices"@ + suffix@ + ".parquet"@,
{
    let mut m = joined("pyth_prices", suffix);
    m.append(".parquet");
    m
}

/// Prices to write, and what their file's name ends in.
#[derive(Debug)]
pub struct PriceFlush {
    pub suffix: String,
    pub rows: Vec<PythPriceRow>,
}

/// What happened to a price stream.
#[derive(Debug)]
pub enum PriceEvent {
    /// The stream is opened, or a wait is over.
    Ready,
    ConnectFailed,
    Connected,
    SubscribeFailed,
    Subscribed,
    Text(String),
    Ping,
    /// Another message, or no message in time.
    Nothing,
    Failed,
    Closed,
}

/// What to do next with a price stream.
#[derive(Clone, Copy, Debug, PartialEq, Eq, Structural)]
pub enum PriceAction {
    Connect,
    Wait { secs: u64 },
    Subscribe,
    Read,
    AnswerPing,
    Stop,
}

/// The prices that wait for a write.
#[derive(Debug)]
pub struct PriceStream {
    pub records: Vec<PythPriceRow>,
    pub flush_epoch: u32,
    pub backoff: Backoff,
}

/// What follows an event. A stream that is shut down stops before the next
/// connection or message; a lost connection is made anew after a wait.
pub open spec fn next_price_action(b: Backoff, e: PriceEvent, shutdown: bool) -> PriceAction {
    match e {
        PriceEvent::Ready => if shutdown {
            PriceAction::Stop
        } else {
            PriceAction::Connect
        },
        PriceEvent::ConnectFailed | PriceEvent::SubscribeFailed => PriceAction::Wait { secs: b.secs },
        PriceEvent::Connected => PriceAction::Subscribe,
        PriceEvent::Failed | PriceEvent::Closed => if shutdown {
            PriceAction::Stop
        } else {
            PriceAction::Wait { secs: b.secs }
        },
        PriceEvent::Ping => PriceAction::AnswerPing,
        PriceEvent::Subscribed | PriceEvent::Text(_) | PriceEvent::Nothing => if shutdown {
            PriceAction::Stop
        } else {
            PriceAction::Read
        },
    }
}

/// The wait that is kept after an event.
pub open spec fn next_price_backoff(b: Backoff, e: PriceEvent, shutdown: bool) -> Backoff {
    match e {
        PriceEvent::Connected => Backoff { secs: 1 },
        _ => if next_price_action(b, e, shutdown) is Wait {
            b.doubled()
        } else {
            b
        },
    }
}

impl PriceStream {
    pub open spec fn wf(self) -> bool {
        self.backoff.wf()
    }

    pub fn new() -> (r: Self)
        ensures
            r.wf(),
            price_views(r.records@) == Seq::<PriceView>::empty(),
            r.flush_epoch == 0,
            r.backoff.secs == 1,
    {
        let r = PriceStream { records: Vec::new(), flush_epoch: 0, backoff: Backoff::new() };
        assert(price_views(r.records@) =~= Seq::empty());
        r
    }

    /// Decides what follows an event, and keeps the price that it brings.
    pub fn on_event(&mut self, e: PriceEvent, feeds: &Vec<PythFeedConfig>, timestamp_ms: u64, shutdown: bool) -> (r:
        PriceAction)
        requires
            old(self).wf(),
        ensures
            final(self).wf(),
            r == next_price_action(old(self).backoff, e, shutdown),
            final(self).backoff == next_price_backoff(old(self).backoff, e, shutdown),
            final(self).flush_epoch == old(self).flush_epoch,
            price_views(final(self).records@) == (match e {
                PriceEvent::Text(text) => match price_in_text(text@, feeds@, timestamp_ms) {
                    Some(p) => price_views(old(self).records@).push(p),
                    None => price_views(old(self).records@),
                },
                _ => price_views(old(self).records@),
            }),
    {
        match e {
            PriceEvent::Ready => if shutdown {
                PriceAction::Stop
            } else {
                PriceAction::Connect
            },
            PriceEvent::ConnectFailed => PriceAction::Wait { secs: self.backoff.wait() },
            PriceEvent::SubscribeFailed => PriceAction::Wait { secs: self.backoff.wait() },
            PriceEvent::Connected => {
                self.backoff = Backoff::new();
                PriceAction::Subscribe
            },
            PriceEvent::Failed => self.connection_lost(shutdown),
            PriceEvent::Closed => self.connection_lost(shutdown),
            PriceEvent::Ping => PriceAction::AnswerPing,
            PriceEvent::Text(text) => {
                if let Some(row) = read_price_text(text.as_str(), feeds, timestamp_ms) {
                    let ghost before = self.records@;
                    self.records.push(row);
                    assert(price_views(self.records@) =~= price_views(before).push(row@));
                }
                if shutdown {
                    PriceAction::Stop
                } else {
                    PriceAction::Read
                }
            },
            _ => if shutdown {
                PriceAction::Stop
            } else {
                PriceAction::Read
            },
        }
    }

    fn connection_lost(&mut self, shutdown: bool) -> (r: PriceAction)
        requires
            old(self).wf(),
        ensures
            final(self).wf(),
            r == next_price_action(old(self).backoff, PriceEvent::Closed, shutdown),
            final(self).backoff == next_price_backoff(old(self).backoff, PriceEvent::Closed, shutdown),
            final(self).records == old(self).records,
            final(self).flush_epoch == old(self).flush_epoch,
    {
        if shutdown {
            PriceAction::Stop
        } else {
            PriceAction::Wait { secs: self.backoff.wait() }
        }
    }

    /// The prices to write once the interval has passed since the last write,
    /// if there are any.
    pub fn maybe_flush(&mut self, elapsed_secs: u64) -> (r: Option<PriceFlush>)
        requires
            old(self).flush_epoch < u32::MAX,
        ensures
            r is Some == (elapsed_secs >= PRICE_FLUSH_SECS && old(self).records@.len() > 0),
            r is None ==> *final(self) == *old(self),
            final(self).backoff == old(self).backoff,
            r matches Some(f) ==> {
                &&& f.suffix@ == epoch_suffix(old(self).flush_epoch + 1)
                &&& f.rows == old(self).records
                &&& final(self).flush_epoch == old(self).flush_epoch + 1
                &&& final(self).records@.len() == 0
            },
    {
        if elapsed_secs < PRICE_FLUSH_SECS || self.records.len() == 0 {
            return None;
        }
        self.flush_epoch = self.flush_epoch + 1;
        let suffix = suffix_of(self.flush_epoch);
        let mut rows: Vec<PythPriceRow> = Vec::new();
        std::mem::swap(&mut self.records, &mut rows);
        Some(PriceFlush { suffix, rows })
    }

    /// The prices that are left at the end, if there are any; their file's name
    /// ends in nothing where no others were written before.
    pub fn finish(self) -> (r: Option<PriceFlush>)
        requires
            self.flush_epoch < u32::MAX,
        ensures
            r is Some == (self.records@.len() > 0),
            r matches Some(f) ==> f.rows == self.records && f.suffix@ == (if self.flush_epoch > 0 {
                epoch_suffix(self.flush_epoch + 1)
            } else {
                Seq::empty()
            }),
    {
        if self.records.len() == 0 {
            return None;
        }
        let suffix = if self.flush_epoch > 0 {
            suffix_of(self.flush_epoch + 1)
        } else {
            String::new()
        };
        Some(PriceFlush { suffix, rows: self.records })
    }
}

/// The symbol of a price is that of the first feed with its id, with or without
/// the mark of a hexadecimal number before it; a price of no feed has none.
pub proof fn law_symbol_is_the_feeds(feeds: Seq<PythFeedConfig>, id: Seq<char>, i: int, k: int)
    requires
        0 <= i <= k <= feeds.len(),
        forall|j: int| i <= j < k ==> without_hex_prefix((#[trigger] feeds[j]).feed_id@) != id,
        k < feeds.len() ==> without_hex_prefix(feeds[k].feed_id@) == id,
    ensures
        k < feeds.len() ==> symbol_from(feeds, id, i) == feeds[k].symbol@,
        k == feeds.len() ==> symbol_from(feeds, id, i).len() == 0,
    decreases k - i,
{
    if i < k {
        law_symbol_is_the_feeds(feeds, id, i + 1, k);
    }
}

/// A message is a price if and only if it says so and holds one, and the row
/// carries its numbers as they stand.
pub proof fn law_message_gives_its_price(m: MessageView, feeds: Seq<PythFeedConfig>, timestamp_ms: u64)
    ensures
        price_of(m, feeds, timestamp_ms) is Some <==> m.kind == Some("price_update"@) && m.feed is Some
            && m.feed->0.price is Some,
        price_of(m, feeds, timestamp_ms) matches Some(row) ==> {
            let p = m.feed->0.price->0;
            &&& row.timestamp_ms == timestamp_ms
            &&& p.price is Some && i64_value(p.price->0) is Some ==> Some(row.price as int) == i64_value(p.price->0)
            &&& p.conf is Some && u64_value(p.conf->0) is Some ==> Some(row.conf as int) == u64_value(p.conf->0)
            &&& p.expo matches Some(e) ==> i32::MIN <= e <= i32::MAX ==> row.expo == e
            &&& p.publish_time matches Some(t) ==> row.publish_time == t
            &&& m.feed->0.id matches Some(id) ==> row.feed_id == "0x"@ + id && row.symbol == symbol_from(feeds, id, 0)
        },
{
    if let Some(f) = m.feed {
        if let Some(p) = f.price {
            if p.price is Some {
                lemma_i64_fits(p.price->0);
            }
            if p.conf is Some {
                lemma_u64_fits(p.conf->0);
            }
        }
    }
}

proof fn lemma_i64_fits(s: Seq<char>)
    ensures
        i64_value(s) matches Some(v) ==> i64::MIN <= v <= i64::MAX,
{
    if s.len() > 0 && (s[0] == '-' || s[0] == '+') {
        lemma_digits_are_natural(s.skip(1));
    } else {
        lemma_digits_are_natural(s);
    }
}

proof fn lemma_u64_fits(s: Seq<char>)
    ensures
        u64_value(s) matches Some(v) ==> 0 <= v <= u64::MAX,
{
    if s.len() > 0 && s[0] == '+' {
        lemma_digits_are_natural(s.skip(1));
    } else {
        lemma_digits_are_natural(s);
    }
}

proof fn lemma_digits_are_natural(s: Seq<char>)
    ensures
        digits_value(s) matches Some(v) ==> v >= 0,
    decreases s.len(),
{
    if s.len() > 0 {
        lemma_digits_are_natural(s.drop_last());
    }
}

/// A stream that is shut down makes no new connection and reads no further
/// message; one that is not stops at nothing. A lost connection is made anew
/// after the wait, which is doubled up to a minute, and a connection that was
/// made starts it over.
pub proof fn law_stream_stops_only_when_asked(b: Backoff, e: PriceEvent)
    requires
        b.wf(),
    ensures
        !(next_price_action(b, e, false) is Stop),
        !(next_price_action(b, e, true) is Connect) && !(next_price_action(b, e, true) is Read),
        e is Failed || e is Closed || e is ConnectFailed || e is SubscribeFailed <==> next_price_action(b, e, false)
            is Wait,
        next_price_action(b, e, false) matches PriceAction::Wait { secs } ==> secs == b.secs
            && next_price_backoff(b, e, false).secs == (if b.secs <= 30 {
            (2 * b.secs) as u64
        } else {
            60
        }),
        e is Connected ==> next_price_backoff(b, e, false).secs == 1,
        !(e is Connected) && !(next_price_action(b, e, false) is Wait) ==> next_price_backoff(b, e, false) == b,
{
}

}
