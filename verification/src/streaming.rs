//! The streaming side: daily bar arithmetic and the registry of subscriptions
//! that the stream feeds.

use vstd::prelude::*;
use crate::table::{ChannelTable, distinct_keys, has_key, inserted, key_position, lemma_lookup_inserted, lookup};
use crate::types::{Bar, flat_bar};

verus! {

/// Milliseconds in one day.
pub const DAY_MILLIS: u64 = 86_400_000;

/// The opening time, in milliseconds, of the daily bar that follows the one
/// opened at `bar_time`: the whole second of `bar_time`, one day later.
pub open spec fn next_daily_bar_time_spec(bar_time: u64) -> int {
    (bar_time / 1000 + 86_400) * 1000
}

/// The latest bar time whose next daily bar time fits in a `u64`.
pub const MAX_DAILY_BAR_TIME: u64 = 18_446_744_073_623_151_999;

/// The next daily bar time can be computed exactly for the bar times up to
/// `MAX_DAILY_BAR_TIME`.
pub proof fn lemma_next_daily_bar_time_fits(bar_time: u64)
    ensures
        next_daily_bar_time_spec(bar_time) <= u64::MAX <==> bar_time <= MAX_DAILY_BAR_TIME,
{
}

/// The next daily bar opens one day after the current one: exactly one day later
/// for a time in whole seconds, and never more than a day later.
pub proof fn lemma_next_daily_bar_one_day(bar_time: u64)
    ensures
        DAY_MILLIS - 1000 < next_daily_bar_time_spec(bar_time) - bar_time <= DAY_MILLIS,
        bar_time % 1000 == 0 ==> next_daily_bar_time_spec(bar_time) - bar_time == DAY_MILLIS,
{
}

/// The timestamp of the next daily bar: one day after `bar_time`, both in
/// milliseconds since the epoch, at whole-second precision.
pub fn get_next_daily_bar_time(bar_time: u64) -> (next: u64)
    requires
        bar_time <= MAX_DAILY_BAR_TIME,
    ensures
        next == next_daily_bar_time_spec(bar_time),
        next == (bar_time / 1000 + 86_400) * 1000,
{
    (bar_time / 1000 + 86_400) * 1000
}

/// What a trade does to the current daily bar.
#[derive(Clone, Copy, Debug)]
pub enum DailyBarStep<P> {
    /// The trade opens a new daily bar, which it fills alone.
    Open(Bar<P>),
    /// The trade falls in the current bar: its high, low and close take the price.
    Extend,
}

/// Decides, for a trade at `trade_time_secs` (seconds since the epoch, as the
/// stream gives it) with price `price`, whether it opens the next daily bar after
/// `last` or extends `last`. The trade opens the next bar when its time in
/// milliseconds reaches the next bar's opening time.
pub fn next_daily_bar<P: Copy>(last: &Bar<P>, trade_time_secs: u64, price: P) -> (step: DailyBarStep<P>)
    requires
        last.time <= MAX_DAILY_BAR_TIME,
    ensures
        trade_time_secs * 1000 >= next_daily_bar_time_spec(last.time) ==> step == DailyBarStep::Open(
            flat_bar(next_daily_bar_time_spec(last.time) as u64, price),
        ),
        trade_time_secs * 1000 < next_daily_bar_time_spec(last.time) ==> step is Extend,
        step matches DailyBarStep::Open(bar) ==> {
            &&& trade_time_secs * 1000 >= (last.time / 1000 + 86_400) * 1000
            &&& bar.time == (last.time / 1000 + 86_400) * 1000
            &&& bar.open == price
            &&& bar.high == price
            &&& bar.low == price
            &&& bar.close == price
        },
        step is Extend ==> trade_time_secs * 1000 < (last.time / 1000 + 86_400) * 1000,
{
    let next = get_next_daily_bar_time(last.time);
    // `next` is a whole number of seconds, so comparing in seconds decides the
    // comparison in milliseconds without computing a product that may overflow.
    if trade_time_secs >= next / 1000 {
        DailyBarStep::Open(Bar { time: next, low: price, high: price, open: price, close: price })
    } else {
        DailyBarStep::Extend
    }
}

/// A receiver of bar updates, known by its id.
#[derive(Clone, Debug)]
pub struct Handler<C> {
    /// Unique identifier for this handler.
    pub id: String,
    /// Where bar updates are sent.
    pub callback: C,
}

/// A subscription to a symbol at a resolution.
#[derive(Clone, Debug)]
pub struct Subscription<P, C> {
    /// Unique identifier for the subscriber.
    pub subscriber_uid: String,
    /// Time resolution (e.g. "1D", "1H", "15m").
    pub resolution: String,
    /// The last daily bar of this subscription.
    pub last_daily_bar: Bar<P>,
    /// The handlers that receive updates for this subscription.
    pub handlers: Vec<Handler<C>>,
}

/// The subscriptions by channel (symbol).
pub type SubscriptionTable<P, C> = ChannelTable<Subscription<P, C>>;

/// A subscription as `subscribe_on_stream` makes it: one handler, whose id is the
/// subscriber's.
pub open spec fn fresh_subscription<P, C>(
    sub: Subscription<P, C>,
    subscriber_uid: Seq<char>,
    resolution: Seq<char>,
    last_daily_bar: Bar<P>,
    callback: C,
) -> bool {
    &&& sub.subscriber_uid@ == subscriber_uid
    &&& sub.resolution@ == resolution
    &&& sub.last_daily_bar == last_daily_bar
    &&& sub.handlers@.len() == 1
    &&& sub.handlers@[0].id@ == subscriber_uid
    &&& sub.handlers@[0].callback == callback
}

/// Registers a subscription to `symbol` with one handler for `subscriber_uid`,
/// replacing any subscription that the symbol had.
pub fn subscribe_on_stream<P, C>(
    symbol: String,
    resolution: String,
    subscriber_uid: String,
    last_daily_bar: Bar<P>,
    subscriptions: &mut SubscriptionTable<P, C>,
    callback: C,
)
    ensures
        exists|sub: Subscription<P, C>|
            fresh_subscription(sub, subscriber_uid@, resolution@, last_daily_bar, callback)
            && final(subscriptions)@ == inserted(old(subscriptions)@, symbol@, sub),
        lookup(final(subscriptions)@, symbol@) matches Some(sub) && {
            &&& sub.last_daily_bar == last_daily_bar
            &&& sub.subscriber_uid@ == subscriber_uid@
            &&& sub.resolution@ == resolution@
            &&& sub.handlers@.len() == 1
            &&& sub.handlers@[0].id@ == subscriber_uid@
            &&& sub.handlers@[0].callback == callback
        },
        forall|other: Seq<char>| other != symbol@
            ==> #[trigger] lookup(final(subscriptions)@, other) == lookup(old(subscriptions)@, other),
{
    let handler = Handler { id: subscriber_uid.clone(), callback };
    let mut handlers = Vec::new();
    handlers.push(handler);
    let sub = Subscription { subscriber_uid, resolution, last_daily_bar, handlers };
    let ghost kept = sub;
    let ghost key = symbol@;
    subscriptions.insert(symbol, sub);
    assert(fresh_subscription(kept, subscriber_uid@, resolution@, last_daily_bar, callback));
    proof {
        lemma_lookup_inserted(old(subscriptions)@, key, kept, key);
        assert forall|other: Seq<char>| other != key
            implies #[trigger] lookup(subscriptions@, other) == lookup(old(subscriptions)@, other) by {
            lemma_lookup_inserted(old(subscriptions)@, key, kept, other);
        }
    }
}

/// Some handler of `sub` has the id `uid`.
pub open spec fn has_handler<P, C>(sub: Subscription<P, C>, uid: Seq<char>) -> bool {
    exists|h: int| #![trigger sub.handlers@[h]] 0 <= h < sub.handlers@.len() && sub.handlers@[h].id@ == uid
}

/// Entry `i` is the first whose subscription has a handler with id `uid`.
pub open spec fn first_with_handler<P, C>(
    entries: Seq<(Seq<char>, Subscription<P, C>)>,
    uid: Seq<char>,
    i: int,
) -> bool {
    &&& 0 <= i < entries.len()
    &&& has_handler(entries[i].1, uid)
    &&& forall|j: int| 0 <= j < i ==> !has_handler(#[trigger] entries[j].1, uid)
}

/// Whether `sub` has a handler with id `uid`.
fn handles(sub: &Subscription<impl Sized, impl Sized>, uid: &str) -> (found: bool)
    ensures
        found == has_handler(*sub, uid@),
{
    let n = sub.handlers.len();
    let mut h: usize = 0;
    while h < n
        invariant
            n == sub.handlers@.len(),
            h <= n,
            forall|g: int| 0 <= g < h ==> sub.handlers@[g].id@ != uid@,
        decreases n - h,
    {
        if <str as PartialEq>::eq(sub.handlers[h].id.as_str(), uid) {
            return true;
        }
        h = h + 1;
    }
    false
}

/// Removes the first subscription, in table order, that has a handler with id
/// `subscriber_uid`, and gives back its channel; where none has, changes nothing.
pub fn unsubscribe_from_stream<P, C>(
    subscriber_uid: &str,
    subscriptions: &mut SubscriptionTable<P, C>,
) -> (channel: Option<String>)
    ensures
        channel matches Some(ch) ==> exists|i: int|
            first_with_handler(old(subscriptions)@, subscriber_uid@, i)
            && ch@ == old(subscriptions)@[i].0
            && final(subscriptions)@ == old(subscriptions)@.remove(i),
        channel is None ==> {
            &&& forall|i: int| 0 <= i < old(subscriptions)@.len()
                ==> !has_handler(#[trigger] old(subscriptions)@[i].1, subscriber_uid@)
            &&& final(subscriptions)@ == old(subscriptions)@
        },
{
    let n = subscriptions.len();
    let mut i: usize = 0;
    while i < n
        invariant
            n == subscriptions@.len(),
            i <= n,
            subscriptions@ == old(subscriptions)@,
            forall|j: int| 0 <= j < i ==> !has_handler(#[trigger] subscriptions@[j].1, subscriber_uid@),
        decreases n - i,
    {
        if handles(subscriptions.value_at(i), subscriber_uid) {
            let (channel, _sub) = subscriptions.remove_at(i);
            assert(first_with_handler(old(subscriptions)@, subscriber_uid@, i as int));
            return Some(channel);
        }
        i = i + 1;
    }
    None
}

/// Stores `bar` as the last daily bar of the subscription to `channel`, if there
/// is one; says whether there was.
pub fn record_daily_bar<P, C>(
    subscriptions: &mut SubscriptionTable<P, C>,
    channel: &str,
    bar: Bar<P>,
) -> (found: bool)
    ensures
        found == has_key(old(subscriptions)@, channel@),
        found ==> {
            let i = key_position(old(subscriptions)@, channel@);
            let sub = old(subscriptions)@[i].1;
            final(subscriptions)@ == old(subscriptions)@.update(
                i,
                (channel@, Subscription { last_daily_bar: bar, ..sub }),
            )
        },
        !found ==> final(subscriptions)@ == old(subscriptions)@,
{
    match subscriptions.position(channel) {
        Some(i) => {
            let ghost before = subscriptions@;
            let (key, mut sub) = subscriptions.remove_at(i);
            proof {
                assert forall|j: int| 0 <= j < subscriptions@.len() implies #[trigger] subscriptions@[j].0 != key@ by {
                    let j0 = if j < i { j } else { j + 1 };
                    assert(subscriptions@[j] == before[j0]);
                    assert(before[j0].0 != before[i as int].0);
                }
            }
            sub.last_daily_bar = bar;
            subscriptions.insert_at(i, key, sub);
            proof {
                assert(subscriptions@ =~= before.update(
                    i as int,
                    (channel@, Subscription { last_daily_bar: bar, ..before[i as int].1 }),
                ));
            }
            true
        }
        None => false,
    }
}

/// A subscription as `subscribe_on_stream` makes it has a handler for its subscriber.
pub proof fn lemma_fresh_has_handler<P, C>(
    sub: Subscription<P, C>,
    subscriber_uid: Seq<char>,
    resolution: Seq<char>,
    last_daily_bar: Bar<P>,
    callback: C,
)
    requires
        fresh_subscription(sub, subscriber_uid, resolution, last_daily_bar, callback),
    ensures
        has_handler(sub, subscriber_uid),
{
    assert(sub.handlers@[0].id@ == subscriber_uid);
}

/// A subscription as `subscribe_on_stream` makes it keeps the bar it was given,
/// every price in its place, and the subscriber's id and resolution.
pub proof fn lemma_fresh_subscription_keeps_its_bar<P, C>(
    sub: Subscription<P, C>,
    subscriber_uid: Seq<char>,
    resolution: Seq<char>,
    last_daily_bar: Bar<P>,
    callback: C,
)
    requires
        fresh_subscription(sub, subscriber_uid, resolution, last_daily_bar, callback),
    ensures
        sub.last_daily_bar.time == last_daily_bar.time,
        sub.last_daily_bar.low == last_daily_bar.low,
        sub.last_daily_bar.high == last_daily_bar.high,
        sub.last_daily_bar.open == last_daily_bar.open,
        sub.last_daily_bar.close == last_daily_bar.close,
        sub.subscriber_uid@ == subscriber_uid,
        sub.resolution@ == resolution,
{
}

/// Unsubscribing undoes subscribing: where `symbol` had no subscription and no
/// subscription had a handler for `subscriber_uid`, subscribing `symbol` for it and
/// then unsubscribing `subscriber_uid` removes exactly the new subscription and
/// gives back the table as it was.
pub proof fn lemma_unsubscribe_undoes_subscribe<P, C>(
    entries: Seq<(Seq<char>, Subscription<P, C>)>,
    symbol: Seq<char>,
    sub: Subscription<P, C>,
    subscriber_uid: Seq<char>,
    i: int,
)
    requires
        distinct_keys(entries),
        !has_key(entries, symbol),
        forall|j: int| 0 <= j < entries.len() ==> !has_handler(#[trigger] entries[j].1, subscriber_uid),
        has_handler(sub, subscriber_uid),
        first_with_handler(inserted(entries, symbol, sub), subscriber_uid, i),
    ensures
        i == entries.len(),
        inserted(entries, symbol, sub)[i].0 == symbol,
        inserted(entries, symbol, sub).remove(i) == entries,
{
    let after = inserted(entries, symbol, sub);
    assert(after == entries.push((symbol, sub)));
    if i < entries.len() {
        assert(after[i] == entries[i]);
    }
    assert(after.remove(i) =~= entries);
}

} // verus!
