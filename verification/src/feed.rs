//! The market-data feed's decisions: when to reconnect, what to subscribe
//! to, where a message goes, which coins make the universe, and how a tick
//! is written down.

use vstd::prelude::*;
use vstd::string::*;
use vstd::utf8::encode_utf8;
use crate::exchange::join;
use crate::ingestor::{
    book_levels, book_levels_of, level_views, pruned, L2BookSnapshot, L2Level, MarketContext,
    MarketDataBuffer, Trade, TradeView, UserFill, UserFillView,
};
use crate::json::{decimal_text_at, decimal_text_of, text_at, text_of, Json};
use crate::signing::{json_string, lit, push_bytes, push_json_string, push_lit};
use crate::text::str_eq;
use crate::wire::{dec_digits, fixed_text_spec, push_decimal, push_fixed};

verus! {

/// Seconds to wait before the first reconnect.
pub const INITIAL_RETRY_DELAY_SECS: u64 = 1;

/// Longest wait between reconnects, in seconds.
pub const MAX_RETRY_DELAY_SECS: u64 = 32;

/// Coins subscribed to in one batch.
pub const SUBSCRIBE_BATCH: usize = 20;

/// Milliseconds between two subscription batches.
pub const SUBSCRIBE_GAP_MS: u64 = 150;

/// Coins in the active universe.
pub const UNIVERSE_SIZE: usize = 100;

/// The wait after `delay`: twice as long, up to 32 seconds.
pub open spec fn next_delay(delay: u64) -> u64 {
    if 2 * delay >= MAX_RETRY_DELAY_SECS {
        MAX_RETRY_DELAY_SECS
    } else {
        (2 * delay) as u64
    }
}

/// Exponential backoff between reconnects.
#[derive(Clone, Copy, Debug)]
pub struct Reconnector {
    pub retry_delay_secs: u64,
}

impl Reconnector {
    /// A reconnector that waits one second first.
    pub fn new() -> (r: Self)
        ensures
            r.retry_delay_secs == INITIAL_RETRY_DELAY_SECS,
    {
        Reconnector { retry_delay_secs: INITIAL_RETRY_DELAY_SECS }
    }

    /// A successful connect resets the wait to one second.
    pub fn on_connected(&mut self)
        ensures
            final(self).retry_delay_secs == INITIAL_RETRY_DELAY_SECS,
    {
        self.retry_delay_secs = INITIAL_RETRY_DELAY_SECS;
    }

    /// A lost or failed connection: returns the seconds to wait before the
    /// next attempt, and doubles the wait for the one after, up to 32.
    pub fn on_disconnected(&mut self) -> (wait_secs: u64)
        ensures
            wait_secs == old(self).retry_delay_secs,
            final(self).retry_delay_secs == next_delay(old(self).retry_delay_secs),
    {
        let wait = self.retry_delay_secs;
        self.retry_delay_secs = if wait >= MAX_RETRY_DELAY_SECS / 2 {
            MAX_RETRY_DELAY_SECS
        } else {
            wait * 2
        };
        wait
    }
}

/// The coins of batch `j` of a subscription: at most twenty, in order.
pub open spec fn batch_of(coins: Seq<String>, j: int) -> Seq<String> {
    coins.subrange(
        j * SUBSCRIBE_BATCH,
        if (j + 1) * SUBSCRIBE_BATCH < coins.len() {
            (j + 1) * SUBSCRIBE_BATCH
        } else {
            coins.len() as int
        },
    )
}

/// Number of batches for a number of coins.
pub open spec fn batch_count(n: nat) -> nat {
    ((n + SUBSCRIBE_BATCH - 1) / (SUBSCRIBE_BATCH as int)) as nat
}

/// Splits the coins into subscription batches of at most twenty.
pub fn subscription_batches(coins: &Vec<String>) -> (batches: Vec<Vec<String>>)
    ensures
        batches@.len() == batch_count(coins@.len()),
        forall|j: int| 0 <= j < batches@.len() ==> (#[trigger] batches@[j])@ == batch_of(coins@, j),
{
    let mut batches: Vec<Vec<String>> = Vec::new();
    let n = coins.len();
    let mut start: usize = 0;
    while start < n
        invariant
            start <= n,
            n == coins@.len(),
            start == batches@.len() * SUBSCRIBE_BATCH || start == n,
            start == n ==> batches@.len() == batch_count(n as nat),
            start < n ==> start == batches@.len() * SUBSCRIBE_BATCH,
            forall|j: int|
                0 <= j < batches@.len() ==> (#[trigger] batches@[j])@ == batch_of(coins@, j),
        decreases n - start,
    {
        let end: usize = if n - start > SUBSCRIBE_BATCH {
            start + SUBSCRIBE_BATCH
        } else {
            n
        };
        let mut batch: Vec<String> = Vec::new();
        let mut i: usize = start;
        while i < end
            invariant
                start <= i <= end <= n,
                n == coins@.len(),
                batch@ == coins@.subrange(start as int, i as int),
            decreases end - i,
        {
            batch.push(coins[i].clone());
            proof {
                assert(batch@ =~= coins@.subrange(start as int, i as int + 1));
            }
            i += 1;
        }
        let ghost j = batches@.len() as int;
        proof {
            assert(batch@ == batch_of(coins@, j));
        }
        batches.push(batch);
        start = end;
    }
    batches
}

/// What a subscription asks for.
#[derive(Clone, Copy, Debug, PartialEq, Eq, Structural)]
pub enum Feed {
    L2Book,
    Trades,
    UserFills,
}

impl Feed {
    /// The feed's name on the wire.
    pub open spec fn name_spec(self) -> Seq<char> {
        match self {
            Feed::L2Book => "l2Book"@,
            Feed::Trades => "trades"@,
            Feed::UserFills => "userFills"@,
        }
    }

    /// The key under which the feed's subject stands: the user for private
    /// fills, the coin else.
    pub open spec fn subject_key_spec(self) -> Seq<char> {
        match self {
            Feed::UserFills => "user"@,
            _ => "coin"@,
        }
    }

    /// The feed's name on the wire.
    pub fn name(self) -> (r: &'static str)
        ensures
            r@ == self.name_spec(),
    {
        match self {
            Feed::L2Book => "l2Book",
            Feed::Trades => "trades",
            Feed::UserFills => "userFills",
        }
    }

    /// The key under which the feed's subject stands.
    pub fn subject_key(self) -> (r: &'static str)
        ensures
            r@ == self.subject_key_spec(),
    {
        match self {
            Feed::UserFills => "user",
            _ => "coin",
        }
    }
}

/// The subscribe message of a feed for a subject.
pub open spec fn subscribe_message_spec(feed: Feed, subject: Seq<char>) -> Seq<u8> {
    lit("{\"method\":\"subscribe\",\"subscription\":{\"type\":") + json_string(
        encode_utf8(feed.name_spec()),
    ) + lit(",") + json_string(encode_utf8(feed.subject_key_spec())) + lit(":") + json_string(
        encode_utf8(subject),
    ) + lit("}}")
}

/// Writes the subscribe message of a feed for a coin or a user, as UTF-8
/// bytes of JSON.
pub fn subscribe_message(feed: Feed, subject: &str) -> (out: Vec<u8>)
    ensures
        out@ == subscribe_message_spec(feed, subject@),
{
    let mut out: Vec<u8> = Vec::new();
    push_lit(&mut out, "{\"method\":\"subscribe\",\"subscription\":{\"type\":");
    let ghost acc = lit("{\"method\":\"subscribe\",\"subscription\":{\"type\":");
    assert(out@ =~= acc);
    push_json_string(&mut out, feed.name());
    let ghost acc = acc + json_string(encode_utf8(feed.name_spec()));
    push_lit(&mut out, ",");
    let ghost acc = acc + lit(",");
    push_json_string(&mut out, feed.subject_key());
    let ghost acc = acc + json_string(encode_utf8(feed.subject_key_spec()));
    push_lit(&mut out, ":");
    let ghost acc = acc + lit(":");
    push_json_string(&mut out, subject);
    let ghost acc = acc + json_string(encode_utf8(subject@));
    push_lit(&mut out, "}}");
    let ghost acc = acc + lit("}}");
    assert(out@ == acc);
    out
}

/// Where a message of a channel goes.
#[derive(Clone, Copy, Debug, PartialEq, Eq, Structural)]
pub enum Channel {
    L2Book,
    Trades,
    UserFills,
    /// `ping` and `pong`: only the heartbeat is noted.
    Heartbeat,
    /// Any other channel: the message is dropped.
    Other,
}

/// Routes a message by its channel name.
pub fn route_channel(channel: &str) -> (c: Channel)
    ensures
        c == (if channel@ == "l2Book"@ {
            Channel::L2Book
        } else if channel@ == "userFills"@ {
            Channel::UserFills
        } else if channel@ == "trades"@ {
            Channel::Trades
        } else if channel@ == "ping"@ || channel@ == "pong"@ {
            Channel::Heartbeat
        } else {
            Channel::Other
        }),
{
    if str_eq(channel, "l2Book") {
        Channel::L2Book
    } else if str_eq(channel, "userFills") {
        Channel::UserFills
    } else if str_eq(channel, "trades") {
        Channel::Trades
    } else if str_eq(channel, "ping") || str_eq(channel, "pong") {
        Channel::Heartbeat
    } else {
        Channel::Other
    }
}

/// A frame of the socket, by kind.
#[derive(Clone, Copy, Debug, PartialEq, Eq, Structural)]
pub enum Frame {
    Text,
    Ping,
    Close,
    /// The read failed.
    Failed,
    /// Binary, pong and raw frames.
    Other,
}

/// What the listener does with a frame.
#[derive(Clone, Copy, Debug, PartialEq, Eq, Structural)]
pub enum FrameAction {
    /// Parse the text and route it by channel.
    Route,
    /// Answer with a pong and note the heartbeat.
    Pong,
    /// Leave the message loop and reconnect.
    Reconnect,
    Ignore,
}

/// What the listener does with a frame of a kind.
pub fn frame_action(frame: Frame) -> (a: FrameAction)
    ensures
        a == (match frame {
            Frame::Text => FrameAction::Route,
            Frame::Ping => FrameAction::Pong,
            Frame::Close => FrameAction::Reconnect,
            Frame::Failed => FrameAction::Reconnect,
            Frame::Other => FrameAction::Ignore,
        }),
{
    match frame {
        Frame::Text => FrameAction::Route,
        Frame::Ping => FrameAction::Pong,
        Frame::Close => FrameAction::Reconnect,
        Frame::Failed => FrameAction::Reconnect,
        Frame::Other => FrameAction::Ignore,
    }
}

/// Whether a frame is an inbound message, which renews the time of the
/// last message whatever it holds: every frame that came is one; a read
/// that failed is none.
pub fn frame_is_message(frame: Frame) -> (r: bool)
    ensures
        r == !(frame is Failed),
{
    match frame {
        Frame::Failed => false,
        _ => true,
    }
}

/// Whether the fills of a private-fill message are taken in: those of a
/// snapshot are not.
pub fn accept_user_fills(is_snapshot: Option<bool>) -> (r: bool)
    ensures
        r == !(is_snapshot == Some(true)),
{
    match is_snapshot {
        Some(s) => !s,
        None => true,
    }
}

/// Takes a book message into the buffer; a message without a coin is
/// dropped. Returns whether it was taken.
pub fn ingest_l2(
    buffer: &mut MarketDataBuffer,
    coin: &str,
    bids: Vec<L2Level>,
    asks: Vec<L2Level>,
    received_at_ms: u64,
    now_ms: u64,
) -> (taken: bool)
    requires
        old(buffer).wf(),
    ensures
        final(buffer).wf(),
        taken == (coin@.len() > 0),
        !taken ==> *final(buffer) == *old(buffer),
        taken ==> {
            let snap = final(buffer).l2_books@[coin@];
            &&& final(buffer).last_ws_message_ms == now_ms
            &&& final(buffer).l2_books@ == old(buffer).l2_books@.insert(coin@, snap)
            &&& snap.coin@ == coin@
            &&& snap.bids == bids
            &&& snap.asks == asks
            &&& snap.received_at_ms == received_at_ms
            &&& final(buffer).trade_buffers == old(buffer).trade_buffers
            &&& final(buffer).contexts == old(buffer).contexts
            &&& final(buffer).user_fills == old(buffer).user_fills
            &&& match snap.mid_price_spec() {
                Some(mid) => final(buffer).history_of(coin@) == pruned(
                    old(buffer).history_of(coin@).push((now_ms, mid as i64)),
                    now_ms,
                ),
                None => final(buffer).price_histories == old(buffer).price_histories,
            }
        },
{
    if coin.unicode_len() == 0 {
        return false;
    }
    let snap = L2BookSnapshot { coin: String::from_str(coin), bids, asks, received_at_ms };
    buffer.update_l2(snap, now_ms);
    true
}

/// Whether the coin at `a` ranks before the coin at `b`: by larger volume,
/// and among equal volumes by earlier place.
pub open spec fn ranks_before(volumes: Seq<i64>, a: int, b: int) -> bool {
    volumes[a] > volumes[b] || (volumes[a] == volumes[b] && a < b)
}

/// Whether `picked` are the `limit` best-ranked places of `volumes`, best
/// first.
pub open spec fn is_ranking(volumes: Seq<i64>, picked: Seq<usize>, limit: int) -> bool {
    &&& picked.len() == (if volumes.len() < limit {
        volumes.len() as int
    } else {
        limit
    })
    &&& forall|t: int| 0 <= t < picked.len() ==> 0 <= #[trigger] picked[t] < volumes.len()
    &&& forall|s: int, t: int|
        0 <= s < t < picked.len() ==> ranks_before(
            volumes,
            (#[trigger] picked[s]) as int,
            (#[trigger] picked[t]) as int,
        )
    &&& forall|t: int, j: int|
        0 <= t < picked.len() && 0 <= j < volumes.len() && !picked.contains(j as usize)
            ==> #[trigger] ranks_before(volumes, picked[t] as int, j)
}

/// Where two rankings of the same volumes agree below a place and differ at
/// it, the second's entry there ranks before the first's.
proof fn lemma_ranking_step(volumes: Seq<i64>, p: Seq<usize>, q: Seq<usize>, limit: int, t: int)
    requires
        is_ranking(volumes, p, limit),
        is_ranking(volumes, q, limit),
        0 <= t < p.len(),
        forall|s: int| 0 <= s < t ==> p[s] == q[s],
        p[t] != q[t],
    ensures
        ranks_before(volumes, q[t] as int, p[t] as int),
{
    let j = p[t] as int;
    if q.contains(j as usize) {
        let u = choose|u: int| 0 <= u < q.len() && q[u] == j as usize;
        if u < t {
            assert(p[u] == q[u]);
            assert(ranks_before(volumes, p[u] as int, p[t] as int));
        } else {
            assert(u > t);
            assert(ranks_before(volumes, q[t] as int, q[u] as int));
        }
    } else {
        assert(ranks_before(volumes, q[t] as int, j));
    }
}

/// Two rankings of the same volumes hold the same place at each position.
proof fn lemma_ranking_agrees(volumes: Seq<i64>, p: Seq<usize>, q: Seq<usize>, limit: int, t: int)
    requires
        is_ranking(volumes, p, limit),
        is_ranking(volumes, q, limit),
        0 <= t < p.len(),
    ensures
        p[t] == q[t],
    decreases t,
{
    assert forall|s: int| 0 <= s < t implies p[s] == q[s] by {
        lemma_ranking_agrees(volumes, p, q, limit, s);
    }
    if p[t] != q[t] {
        lemma_ranking_step(volumes, p, q, limit, t);
        lemma_ranking_step(volumes, q, p, limit, t);
    }
}

/// The ranking of given volumes is one: two lists that both are their
/// `limit` best-ranked places, best first, are the same list.
pub proof fn lemma_ranking_unique(volumes: Seq<i64>, p: Seq<usize>, q: Seq<usize>, limit: int)
    requires
        is_ranking(volumes, p, limit),
        is_ranking(volumes, q, limit),
    ensures
        p == q,
{
    assert forall|t: int| 0 <= t < p.len() implies p[t] == q[t] by {
        lemma_ranking_agrees(volumes, p, q, limit, t);
    }
    assert(p =~= q);
}

/// Ranks places by volume: the `limit` places of largest volume, largest
/// first, equal volumes in their listed order.
pub fn rank_by_volume(volumes: &Vec<i64>, limit: usize) -> (picked: Vec<usize>)
    ensures
        is_ranking(volumes@, picked@, limit as int),
{
    let n = volumes.len();
    let mut taken: Vec<bool> = Vec::new();
    let mut k: usize = 0;
    while k < n
        invariant
            k <= n,
            taken@.len() == k,
            forall|j: int| 0 <= j < k ==> !(#[trigger] taken@[j]),
        decreases n - k,
    {
        taken.push(false);
        k += 1;
    }
    let mut picked: Vec<usize> = Vec::new();
    let target: usize = if n < limit {
        n
    } else {
        limit
    };
    while picked.len() < target
        invariant
            n == volumes@.len(),
            taken@.len() == n,
            target <= n,
            picked@.len() <= target,
            forall|t: int| 0 <= t < picked@.len() ==> 0 <= #[trigger] picked@[t] < n,
            forall|j: int| 0 <= j < n ==> (#[trigger] taken@[j] <==> picked@.contains(j as usize)),
            forall|s: int, t: int|
                0 <= s < t < picked@.len() ==> ranks_before(
                    volumes@,
                    (#[trigger] picked@[s]) as int,
                    (#[trigger] picked@[t]) as int,
                ),
            forall|t: int, j: int|
                0 <= t < picked@.len() && 0 <= j < n && !(#[trigger] taken@[j]) ==> ranks_before(
                    volumes@,
                    (#[trigger] picked@[t]) as int,
                    j,
                ),
            picked@.no_duplicates(),
        decreases target - picked@.len(),
    {
        // The best place not yet taken.
        let mut best: usize = 0;
        let mut found = false;
        let mut j: usize = 0;
        proof {
            lemma_some_untaken(taken@, picked@);
        }
        while j < n
            invariant
                j <= n,
                n == volumes@.len(),
                taken@.len() == n,
                found ==> best < j && !taken@[best as int],
                found ==> forall|i: int|
                    0 <= i < j && !(#[trigger] taken@[i]) && i != best ==> ranks_before(
                        volumes@,
                        best as int,
                        i,
                    ),
                !found ==> forall|i: int| 0 <= i < j ==> #[trigger] taken@[i],
            decreases n - j,
        {
            if !taken[j] {
                if !found || volumes[j] > volumes[best] {
                    best = j;
                    found = true;
                }
            }
            j += 1;
        }
        assert(found);
        let ghost before = picked@;
        let ghost taken_before = taken@;
        taken.set(best, true);
        picked.push(best);
        proof {
            assert forall|i: int| 0 <= i < n implies (#[trigger] taken@[i] <==> picked@.contains(
                i as usize,
            )) by {
                if i == best {
                    assert(picked@[picked@.len() - 1] == best);
                } else {
                    if taken_before[i] {
                        let t = choose|t: int| 0 <= t < before.len() && before[t] == i as usize;
                        assert(picked@[t] == i as usize);
                    }
                    if picked@.contains(i as usize) {
                        let t = choose|t: int| 0 <= t < picked@.len() && picked@[t] == i as usize;
                        assert(t < before.len());
                        assert(before[t] == i as usize);
                    }
                }
            }
            assert(picked@.no_duplicates()) by {
                assert forall|a: int, b: int|
                    0 <= a < picked@.len() && 0 <= b < picked@.len() && a != b implies picked@[a]
                    != picked@[b] by {
                    if a == picked@.len() - 1 {
                        assert(before[b] == picked@[b]);
                        assert(before.contains(picked@[b]));
                    } else if b == picked@.len() - 1 {
                        assert(before[a] == picked@[a]);
                        assert(before.contains(picked@[a]));
                    } else {
                        assert(before[a] == picked@[a] && before[b] == picked@[b]);
                    }
                }
            }
        }
    }
    proof {
        assert forall|t: int, j: int|
            0 <= t < picked@.len() && 0 <= j < n && !picked@.contains(
                j as usize,
            ) implies #[trigger] ranks_before(volumes@, picked@[t] as int, j) by {
            assert(!taken@[j]);
        }
    }
    picked
}

/// While fewer places are picked than there are, one is not taken.
pub proof fn lemma_some_untaken(taken: Seq<bool>, picked: Seq<usize>)
    requires
        picked.len() < taken.len(),
        taken.len() <= usize::MAX,
        picked.no_duplicates(),
        forall|t: int| 0 <= t < picked.len() ==> 0 <= #[trigger] picked[t] < taken.len(),
        forall|j: int| 0 <= j < taken.len() ==> (#[trigger] taken[j] <==> picked.contains(j as usize)),
    ensures
        exists|j: int| 0 <= j < taken.len() && !taken[j],
{
    if forall|j: int| 0 <= j < taken.len() ==> taken[j] {
        // Every place below `taken.len()` is picked, yet the picks are
        // fewer and distinct.
        let all = Set::new(|v: usize| 0 <= v < taken.len());
        let got = picked.to_set();
        assert(all.subset_of(got)) by {
            assert forall|v: usize| all.contains(v) implies got.contains(v) by {
                assert(taken[v as int]);
                assert(picked.contains(v));
            }
        }
        picked.unique_seq_to_set();
        lemma_usize_range_len(taken.len());
        vstd::set_lib::lemma_len_subset(all, got);
    }
}

/// There are `n` values of type `usize` below `n`.
pub proof fn lemma_usize_range_len(n: nat)
    requires
        n <= usize::MAX + 1,
    ensures
        Set::new(|v: usize| 0 <= v < n).finite(),
        Set::new(|v: usize| 0 <= v < n).len() == n,
    decreases n,
{
    let s = Set::new(|v: usize| 0 <= v < n);
    if n == 0 {
        assert(s =~= Set::<usize>::empty());
    } else {
        lemma_usize_range_len((n - 1) as nat);
        let prev = Set::new(|v: usize| 0 <= v < n - 1);
        assert(s =~= prev.insert((n - 1) as usize));
    }
}

/// Whether `chosen` are the names at the best-ranked places, best first.
pub open spec fn is_universe(names: Seq<String>, volumes: Seq<i64>, chosen: Seq<String>) -> bool {
    exists|picked: Seq<usize>| #[trigger]
        is_ranking(volumes, picked, UNIVERSE_SIZE as int) && chosen.len() == picked.len()
            && forall|t: int|
            0 <= t < chosen.len() ==> (#[trigger] chosen[t]) == names[picked[t] as int]
}

/// The universe of given names and volumes is one: two lists that both are
/// the names at the best-ranked places are the same list.
pub proof fn lemma_universe_unique(
    names: Seq<String>,
    volumes: Seq<i64>,
    a: Seq<String>,
    b: Seq<String>,
)
    requires
        is_universe(names, volumes, a),
        is_universe(names, volumes, b),
    ensures
        a == b,
{
    let p = choose|picked: Seq<usize>| #[trigger]
        is_ranking(volumes, picked, UNIVERSE_SIZE as int) && a.len() == picked.len()
            && forall|t: int| 0 <= t < a.len() ==> (#[trigger] a[t]) == names[picked[t] as int];
    let q = choose|picked: Seq<usize>| #[trigger]
        is_ranking(volumes, picked, UNIVERSE_SIZE as int) && b.len() == picked.len()
            && forall|t: int| 0 <= t < b.len() ==> (#[trigger] b[t]) == names[picked[t] as int];
    lemma_ranking_unique(volumes, p, q, UNIVERSE_SIZE as int);
    assert(a =~= b);
}

/// Selects the active universe: the hundred coins of largest day volume,
/// largest first, equal volumes in their listed order.
pub fn select_universe(names: &Vec<String>, volumes: &Vec<i64>) -> (chosen: Vec<String>)
    requires
        names@.len() == volumes@.len(),
    ensures
        is_universe(names@, volumes@, chosen@),
{
    let picked = rank_by_volume(volumes, UNIVERSE_SIZE);
    let mut out: Vec<String> = Vec::new();
    let mut t: usize = 0;
    while t < picked.len()
        invariant
            t <= picked@.len(),
            names@.len() == volumes@.len(),
            is_ranking(volumes@, picked@, UNIVERSE_SIZE as int),
            out@.len() == t,
            forall|s: int| 0 <= s < t ==> (#[trigger] out@[s]) == names@[picked@[s] as int],
        decreases picked@.len() - t,
    {
        out.push(names[picked[t]].clone());
        t += 1;
    }
    proof {
        assert(is_ranking(volumes@, picked@, UNIVERSE_SIZE as int));
    }
    out
}

/// The text of the best price of one side: its first level's price, or
/// `0` where the side is empty.
pub open spec fn best_text(levels: Seq<L2Level>) -> Seq<u8> {
    if levels.len() == 0 {
        lit("0")
    } else {
        encode_utf8(levels[0].px@)
    }
}

/// One line of the tick file: receipt time, coin, best bid, best ask, mid
/// with six decimals and spread in basis points with four, separated by
/// commas. A mid or spread that cannot be had is written as zero.
pub open spec fn tick_csv_row_spec(snap: L2BookSnapshot) -> Seq<u8> {
    dec_digits(snap.received_at_ms as nat) + lit(",") + encode_utf8(snap.coin@) + lit(",")
        + best_text(snap.bids@) + lit(",") + best_text(snap.asks@) + lit(",") + fixed_text_spec(
        match snap.mid_price_spec() {
            Some(m) => m,
            None => 0,
        },
        6,
    ) + lit(",") + fixed_text_spec(
        match snap.spread_bps_spec() {
            Some(s) => s,
            None => 0,
        },
        4,
    ) + lit("\n")
}

/// Writes the tick-file line of a book snapshot.
pub fn tick_csv_row(snap: &L2BookSnapshot) -> (out: Vec<u8>)
    ensures
        out@ == tick_csv_row_spec(*snap),
{
    let mid: i64 = match snap.mid_price() {
        Some(m) => m,
        None => 0,
    };
    let spread: i64 = match snap.spread_bps() {
        Some(s) => s,
        None => 0,
    };
    let mut out: Vec<u8> = Vec::new();
    push_decimal(&mut out, snap.received_at_ms);
    let ghost acc = dec_digits(snap.received_at_ms as nat);
    assert(out@ =~= acc);
    push_lit(&mut out, ",");
    let ghost acc = acc + lit(",");
    push_bytes(&mut out, snap.coin.as_str().as_bytes());
    let ghost acc = acc + encode_utf8(snap.coin@);
    push_lit(&mut out, ",");
    let ghost acc = acc + lit(",");
    if snap.bids.len() == 0 {
        push_lit(&mut out, "0");
    } else {
        push_bytes(&mut out, snap.bids[0].px.as_str().as_bytes());
    }
    let ghost acc = acc + best_text(snap.bids@);
    push_lit(&mut out, ",");
    let ghost acc = acc + lit(",");
    if snap.asks.len() == 0 {
        push_lit(&mut out, "0");
    } else {
        push_bytes(&mut out, snap.asks[0].px.as_str().as_bytes());
    }
    let ghost acc = acc + best_text(snap.asks@);
    push_lit(&mut out, ",");
    let ghost acc = acc + lit(",");
    push_fixed(&mut out, mid, 6);
    let ghost acc = acc + fixed_text_spec(mid as int, 6);
    push_lit(&mut out, ",");
    let ghost acc = acc + lit(",");
    push_fixed(&mut out, spread, 4);
    let ghost acc = acc + fixed_text_spec(spread as int, 4);
    push_lit(&mut out, "\n");
    let ghost acc = acc + lit("\n");
    assert(out@ == acc);
    out
}

/// The directory of a coin's tick files.
pub fn tick_csv_dir(coin: &str) -> (r: String)
    ensures
        r@ == "data/ticks/"@ + coin@,
{
    join("data/ticks/", coin)
}

/// The tick file of a coin for a day, the day written as `YYYY-MM-DD`.
pub fn tick_csv_path(coin: &str, day: &str) -> (r: String)
    ensures
        r@ == "data/ticks/"@ + coin@ + "/"@ + day@ + ".csv"@,
{
    join("data/ticks/", coin).concat("/").concat(day).concat(".csv")
}

/// What a message of the feed brings.
#[derive(Debug)]
pub enum FeedEvent {
    /// A book of a coin.
    Book { coin: String, bids: Vec<L2Level>, asks: Vec<L2Level> },
    Trades(Vec<Trade>),
    /// Private fills that are no snapshot.
    Fills(Vec<UserFill>),
    Heartbeat,
    Nothing,
}

/// A feed event as plain values.
pub enum FeedEventView {
    Book {
        coin: Seq<char>,
        bids: Seq<(Seq<char>, Seq<char>, u64)>,
        asks: Seq<(Seq<char>, Seq<char>, u64)>,
    },
    Trades(Seq<TradeView>),
    Fills(Seq<UserFillView>),
    Heartbeat,
    Nothing,
}

/// The trades of a list as plain values.
pub open spec fn trade_views(s: Seq<Trade>) -> Seq<TradeView> {
    Seq::new(s.len(), |i: int| s[i]@)
}

/// The fills of a list as plain values.
pub open spec fn user_fill_views(s: Seq<UserFill>) -> Seq<UserFillView> {
    Seq::new(s.len(), |i: int| s[i]@)
}

impl FeedEvent {
    pub open spec fn view(&self) -> FeedEventView {
        match self {
            FeedEvent::Book { coin, bids, asks } => FeedEventView::Book {
                coin: coin@,
                bids: level_views(bids@),
                asks: level_views(asks@),
            },
            FeedEvent::Trades(t) => FeedEventView::Trades(trade_views(t@)),
            FeedEvent::Fills(f) => FeedEventView::Fills(user_fill_views(f@)),
            FeedEvent::Heartbeat => FeedEventView::Heartbeat,
            FeedEvent::Nothing => FeedEventView::Nothing,
        }
    }
}

/// The trades that the items of a list stand for; items that are no trade
/// are left out.
pub open spec fn trades_in(items: Seq<Json>) -> Seq<TradeView>
    decreases items.len(),
{
    if items.len() == 0 {
        Seq::empty()
    } else {
        match Trade::of_json(items.last()) {
            Some(t) => trades_in(items.drop_last()).push(t),
            None => trades_in(items.drop_last()),
        }
    }
}

/// The fills that the items of a list stand for; items that are no fill
/// are left out.
pub open spec fn fills_in(items: Seq<Json>) -> Seq<UserFillView>
    decreases items.len(),
{
    if items.len() == 0 {
        Seq::empty()
    } else {
        match UserFill::of_json(items.last()) {
            Some(f) => fills_in(items.drop_last()).push(f),
            None => fills_in(items.drop_last()),
        }
    }
}

/// The channel name of a message; empty where it has none.
pub open spec fn channel_of(message: Json) -> Seq<char> {
    match text_of(message.member("channel"@)) {
        Some(c) => c,
        None => Seq::empty(),
    }
}

/// The channel that a name stands for.
pub open spec fn channel_for(name: Seq<char>) -> Channel {
    if name == "l2Book"@ {
        Channel::L2Book
    } else if name == "userFills"@ {
        Channel::UserFills
    } else if name == "trades"@ {
        Channel::Trades
    } else if name == "ping"@ || name == "pong"@ {
        Channel::Heartbeat
    } else {
        Channel::Other
    }
}

/// What a book message brings: the book of its coin, or nothing without
/// data or without a coin.
pub open spec fn book_event_of(message: Json) -> FeedEventView {
    match message.member("data"@) {
        Some(data) => {
            let coin = match text_of(data.member("coin"@)) {
                Some(c) => c,
                None => Seq::empty(),
            };
            if coin.len() == 0 {
                FeedEventView::Nothing
            } else {
                FeedEventView::Book {
                    coin,
                    bids: book_levels_of(data.member("levels"@)).0,
                    asks: book_levels_of(data.member("levels"@)).1,
                }
            }
        },
        None => FeedEventView::Nothing,
    }
}

/// What a private-fill message brings: its fills, or nothing where it is a
/// snapshot or carries no list of fills.
pub open spec fn fills_event_of(message: Json) -> FeedEventView {
    match message.member("data"@) {
        Some(data) => {
            let snapshot = match data.member("isSnapshot"@) {
                Some(v) => v.boolean() == Some(true),
                None => false,
            };
            match data.member("fills"@) {
                Some(list) => match list.items() {
                    Some(items) => if snapshot {
                        FeedEventView::Nothing
                    } else {
                        FeedEventView::Fills(fills_in(items))
                    },
                    None => FeedEventView::Nothing,
                },
                None => FeedEventView::Nothing,
            }
        },
        None => FeedEventView::Nothing,
    }
}

/// What a trade message brings: its trades, or nothing where its data is
/// no list.
pub open spec fn trades_event_of(message: Json) -> FeedEventView {
    match message.member("data"@) {
        Some(data) => match data.items() {
            Some(items) => FeedEventView::Trades(trades_in(items)),
            None => FeedEventView::Nothing,
        },
        None => FeedEventView::Nothing,
    }
}

/// What a message brings, by its channel.
pub open spec fn event_of(message: Json) -> FeedEventView {
    match channel_for(channel_of(message)) {
        Channel::L2Book => book_event_of(message),
        Channel::UserFills => fills_event_of(message),
        Channel::Trades => trades_event_of(message),
        Channel::Heartbeat => FeedEventView::Heartbeat,
        Channel::Other => FeedEventView::Nothing,
    }
}

/// Reads the trades of a list.
pub fn read_trades(items: &Vec<Json>) -> (r: Vec<Trade>)
    ensures
        trade_views(r@) == trades_in(items@),
{
    let mut out: Vec<Trade> = Vec::new();
    let mut i: usize = 0;
    assert(items@.subrange(0, 0) =~= Seq::<Json>::empty());
    assert(trade_views(out@) =~= trades_in(items@.subrange(0, 0)));
    while i < items.len()
        invariant
            i <= items@.len(),
            trade_views(out@) == trades_in(items@.subrange(0, i as int)),
        decreases items@.len() - i,
    {
        proof {
            let next = items@.subrange(0, i as int + 1);
            assert(next.drop_last() =~= items@.subrange(0, i as int));
            assert(next.last() == items@[i as int]);
        }
        match Trade::from_json(&items[i]) {
            Some(trade) => {
                let ghost prior = out@;
                out.push(trade);
                proof {
                    assert(trade_views(out@) =~= trade_views(prior).push(trade@));
                }
            },
            None => {},
        }
        i += 1;
    }
    proof {
        assert(items@.subrange(0, items@.len() as int) =~= items@);
    }
    out
}

/// Reads the fills of a list.
pub fn read_fills(items: &Vec<Json>) -> (r: Vec<UserFill>)
    ensures
        user_fill_views(r@) == fills_in(items@),
{
    let mut out: Vec<UserFill> = Vec::new();
    let mut i: usize = 0;
    assert(items@.subrange(0, 0) =~= Seq::<Json>::empty());
    assert(user_fill_views(out@) =~= fills_in(items@.subrange(0, 0)));
    while i < items.len()
        invariant
            i <= items@.len(),
            user_fill_views(out@) == fills_in(items@.subrange(0, i as int)),
        decreases items@.len() - i,
    {
        proof {
            let next = items@.subrange(0, i as int + 1);
            assert(next.drop_last() =~= items@.subrange(0, i as int));
            assert(next.last() == items@[i as int]);
        }
        match UserFill::from_json(&items[i]) {
            Some(fill) => {
                let ghost prior = out@;
                out.push(fill);
                proof {
                    assert(user_fill_views(out@) =~= user_fill_views(prior).push(fill@));
                }
            },
            None => {},
        }
        i += 1;
    }
    proof {
        assert(items@.subrange(0, items@.len() as int) =~= items@);
    }
    out
}

/// Reads a message of the feed: routes it by its channel and takes out
/// what it brings.
pub fn read_message(message: &Json) -> (event: FeedEvent)
    ensures
        event@ == event_of(*message),
{
    proof {
        reveal_strlit("");
        assert(""@ =~= Seq::<char>::empty());
    }
    let channel = match text_at(message, "channel") {
        Some(c) => c,
        None => "",
    };
    match route_channel(channel) {
        Channel::L2Book => {
            match message.get("data") {
                Some(data) => {
                    let coin = match text_at(data, "coin") {
                        Some(c) => c,
                        None => "",
                    };
                    if coin.unicode_len() == 0 {
                        FeedEvent::Nothing
                    } else {
                        let (bids, asks) = book_levels(data.get("levels"));
                        FeedEvent::Book { coin: String::from_str(coin), bids, asks }
                    }
                },
                None => FeedEvent::Nothing,
            }
        },
        Channel::UserFills => {
            match message.get("data") {
                Some(data) => {
                    let snapshot = match data.get("isSnapshot") {
                        Some(v) => match v.as_bool() {
                            Some(b) => b,
                            None => false,
                        },
                        None => false,
                    };
                    match data.get("fills") {
                        Some(list) => match list.as_array() {
                            Some(items) => if !accept_user_fills(Some(snapshot)) {
                                FeedEvent::Nothing
                            } else {
                                FeedEvent::Fills(read_fills(items))
                            },
                            None => FeedEvent::Nothing,
                        },
                        None => FeedEvent::Nothing,
                    }
                },
                None => FeedEvent::Nothing,
            }
        },
        Channel::Trades => {
            match message.get("data") {
                Some(data) => match data.as_array() {
                    Some(items) => FeedEvent::Trades(read_trades(items)),
                    None => FeedEvent::Nothing,
                },
                None => FeedEvent::Nothing,
            }
        },
        Channel::Heartbeat => FeedEvent::Heartbeat,
        Channel::Other => FeedEvent::Nothing,
    }
}

/// A coin and its context.
#[derive(Debug)]
pub struct CoinContext {
    pub coin: String,
    pub context: MarketContext,
}

/// The names of the assets of a universe list; assets without a name are
/// left out.
pub open spec fn names_in(universe: Seq<Json>) -> Seq<Seq<char>>
    decreases universe.len(),
{
    if universe.len() == 0 {
        Seq::empty()
    } else {
        match text_of(universe.last().member("name"@)) {
            Some(name) => names_in(universe.drop_last()).push(name),
            None => names_in(universe.drop_last()),
        }
    }
}

/// The quantity under a key of a context; zero where it is no decimal text.
pub open spec fn context_amount(ctx: Json, key: Seq<char>) -> int {
    match decimal_text_of(ctx.member(key)) {
        Some(v) => v,
        None => 0,
    }
}

/// The context that a JSON object stands for, stamped with a time.
pub open spec fn context_of(ctx: Json, ts: u64) -> MarketContext {
    MarketContext {
        funding_rate: context_amount(ctx, "funding"@) as i64,
        open_interest: context_amount(ctx, "openInterest"@) as i64,
        oracle_px: context_amount(ctx, "oraclePx"@) as i64,
        day_ntl_vlm: context_amount(ctx, "dayNtlVlm"@) as i64,
        last_update: ts,
    }
}

/// Whether `contexts` pair the names with the contexts of a list, place by
/// place, as far as both reach.
pub open spec fn pairs_contexts(
    contexts: Seq<CoinContext>,
    names: Seq<Seq<char>>,
    ctxs: Seq<Json>,
    ts: u64,
) -> bool {
    &&& contexts.len() == (if ctxs.len() < names.len() {
        ctxs.len()
    } else {
        names.len()
    })
    &&& forall|i: int|
        0 <= i < contexts.len() ==> (#[trigger] contexts[i]).coin@ == names[i] && contexts[i].context
            == context_of(ctxs[i], ts)
}

/// The universe list and the context list of the venue's answer: its first
/// item's `universe` and its second item, where it has both.
pub open spec fn universe_parts(resp: Json) -> Option<(Seq<Json>, Seq<Json>)> {
    match resp.items() {
        Some(arr) => if arr.len() >= 2 {
            match (arr[0].member("universe"@), arr[1].items()) {
                (Some(u), Some(ctxs)) => match u.items() {
                    Some(universe) => Some((universe, ctxs)),
                    None => Some((Seq::empty(), ctxs)),
                },
                (None, Some(ctxs)) => Some((Seq::empty(), ctxs)),
                _ => None,
            }
        } else {
            None
        },
        None => None,
    }
}

/// Reads the names of a universe list.
pub fn read_names(universe: &Vec<Json>) -> (r: Vec<String>)
    ensures
        crate::text::name_views(r@) == names_in(universe@),
{
    let mut out: Vec<String> = Vec::new();
    let mut i: usize = 0;
    assert(universe@.subrange(0, 0) =~= Seq::<Json>::empty());
    assert(crate::text::name_views(out@) =~= names_in(universe@.subrange(0, 0)));
    while i < universe.len()
        invariant
            i <= universe@.len(),
            crate::text::name_views(out@) == names_in(universe@.subrange(0, i as int)),
        decreases universe@.len() - i,
    {
        proof {
            let next = universe@.subrange(0, i as int + 1);
            assert(next.drop_last() =~= universe@.subrange(0, i as int));
            assert(next.last() == universe@[i as int]);
        }
        match text_at(&universe[i], "name") {
            Some(name) => {
                let ghost prior = out@;
                out.push(String::from_str(name));
                proof {
                    assert(crate::text::name_views(out@) =~= crate::text::name_views(prior).push(
                        name@,
                    ));
                }
            },
            None => {},
        }
        i += 1;
    }
    proof {
        assert(universe@.subrange(0, universe@.len() as int) =~= universe@);
    }
    out
}

/// Reads one context, stamped with a time.
pub fn read_context(ctx: &Json, ts: u64) -> (r: MarketContext)
    ensures
        r == context_of(*ctx, ts),
{
    let funding_rate: i64 = match decimal_text_at(ctx, "funding") {
        Some(v) => v,
        None => 0,
    };
    let open_interest: i64 = match decimal_text_at(ctx, "openInterest") {
        Some(v) => v,
        None => 0,
    };
    let oracle_px: i64 = match decimal_text_at(ctx, "oraclePx") {
        Some(v) => v,
        None => 0,
    };
    let day_ntl_vlm: i64 = match decimal_text_at(ctx, "dayNtlVlm") {
        Some(v) => v,
        None => 0,
    };
    MarketContext { funding_rate, open_interest, oracle_px, day_ntl_vlm, last_update: ts }
}

/// Reads the venue's answer to the universe request: each named asset with
/// the context at its place, stamped with a time. Nothing where the answer
/// has not both lists.
pub fn read_contexts(resp: &Json, ts: u64) -> (r: Vec<CoinContext>)
    ensures
        match universe_parts(*resp) {
            Some((universe, ctxs)) => pairs_contexts(r@, names_in(universe), ctxs, ts),
            None => r@.len() == 0,
        },
{
    let mut out: Vec<CoinContext> = Vec::new();
    let arr = match resp.as_array() {
        Some(a) => a,
        None => {
            return out;
        },
    };
    if arr.len() < 2 {
        return out;
    }
    let names: Vec<String> = match arr[0].get("universe") {
        Some(u) => match u.as_array() {
            Some(universe) => read_names(universe),
            None => Vec::new(),
        },
        None => Vec::new(),
    };
    let ctxs = match arr[1].as_array() {
        Some(c) => c,
        None => {
            return out;
        },
    };
    let ghost wanted = crate::text::name_views(names@);
    proof {
        assert(universe_parts(*resp) matches Some((universe, c)) && c == ctxs@ && names_in(universe)
            == wanted) by {
            assert(crate::text::name_views(Seq::<String>::empty()) =~= Seq::<Seq<char>>::empty());
        }
    }
    let mut i: usize = 0;
    while i < ctxs.len() && i < names.len()
        invariant
            i <= ctxs@.len(),
            i <= names@.len(),
            wanted == crate::text::name_views(names@),
            out@.len() == i,
            forall|k: int|
                0 <= k < i ==> (#[trigger] out@[k]).coin@ == wanted[k] && out@[k].context
                    == context_of(ctxs@[k], ts),
        decreases ctxs@.len() - i,
    {
        out.push(CoinContext { coin: names[i].clone(), context: read_context(&ctxs[i], ts) });
        i += 1;
    }
    out
}

/// The names of coins with their contexts, in their order.
pub open spec fn coin_names(contexts: Seq<CoinContext>) -> Seq<String> {
    Seq::new(contexts.len(), |i: int| contexts[i].coin)
}

/// The day volumes of coins with their contexts, in their order.
pub open spec fn day_volumes(contexts: Seq<CoinContext>) -> Seq<i64> {
    Seq::new(contexts.len(), |i: int| contexts[i].context.day_ntl_vlm)
}

/// The active universe among coins with their contexts: the hundred of
/// largest day volume, largest first, equal volumes in their listed order.
pub fn universe_of(contexts: &Vec<CoinContext>) -> (chosen: Vec<String>)
    ensures
        is_universe(coin_names(contexts@), day_volumes(contexts@), chosen@),
{
    let mut names: Vec<String> = Vec::new();
    let mut volumes: Vec<i64> = Vec::new();
    let mut i: usize = 0;
    while i < contexts.len()
        invariant
            i <= contexts@.len(),
            names@.len() == i,
            volumes@.len() == i,
            forall|k: int|
                0 <= k < i ==> names@[k] == (#[trigger] contexts@[k]).coin && volumes@[k]
                    == contexts@[k].context.day_ntl_vlm,
        decreases contexts@.len() - i,
    {
        names.push(contexts[i].coin.clone());
        volumes.push(contexts[i].context.day_ntl_vlm);
        i += 1;
    }
    proof {
        assert(names@ =~= coin_names(contexts@));
        assert(volumes@ =~= day_volumes(contexts@));
    }
    select_universe(&names, &volumes)
}

} // verus!
