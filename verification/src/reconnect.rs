//! The reconnection policy of the price stream: how long to wait after the
//! connection fails or ends, with exponential backoff, never giving up.

use vstd::prelude::*;

verus! {

/// Waits with backoff before the counter runs out.
pub const MAX_RETRIES: u32 = 3;

/// The first wait after a successful connection, in seconds.
pub const INITIAL_DELAY_SECS: u64 = 3;

/// The first wait once the retries have run out, in seconds.
pub const RESET_DELAY_SECS: u64 = 30;

/// The states the policy can be in: a retry counter of at most three, and a delay
/// that started at 3 or 30 seconds and doubled once for each retry spent.
pub open spec fn reachable_state(retries: u32, delay_secs: u64) -> bool {
    ||| retries == 3 && (delay_secs == 3 || delay_secs == 30)
    ||| retries == 2 && (delay_secs == 6 || delay_secs == 60)
    ||| retries == 1 && (delay_secs == 12 || delay_secs == 120)
    ||| retries == 0 && (delay_secs == 24 || delay_secs == 240)
}

/// One disconnection: with retries left, wait the current delay, spend a retry
/// and double the delay; with none left, reconnect at once and start a new round
/// of retries from the longer delay.
pub open spec fn disconnect_step(state: (u32, u64)) -> ((u32, u64), Option<u64>) {
    if state.0 > 0 {
        (((state.0 - 1) as u32, (state.1 * 2) as u64), Some(state.1))
    } else {
        ((MAX_RETRIES, RESET_DELAY_SECS), None)
    }
}

/// The waits that `n` disconnections in a row produce, from `state`.
pub open spec fn waits_after(state: (u32, u64), n: nat) -> Seq<Option<u64>>
    decreases n,
{
    if n == 0 {
        Seq::empty()
    } else {
        let (next, wait) = disconnect_step(state);
        seq![wait] + waits_after(next, (n - 1) as nat)
    }
}

/// The retry counter and the current delay of the stream's reconnection loop.
pub struct ReconnectPolicy {
    retries: u32,
    delay_secs: u64,
}

impl View for ReconnectPolicy {
    type V = (u32, u64);

    closed spec fn view(&self) -> (u32, u64) {
        (self.retries, self.delay_secs)
    }
}

impl ReconnectPolicy {
    #[verifier::type_invariant]
    closed spec fn reachable(self) -> bool {
        reachable_state(self.retries, self.delay_secs)
    }

    /// The state before the first connection: three retries, three seconds.
    pub fn new() -> (policy: Self)
        ensures
            policy@ == (MAX_RETRIES, INITIAL_DELAY_SECS),
    {
        ReconnectPolicy { retries: MAX_RETRIES, delay_secs: INITIAL_DELAY_SECS }
    }

    /// The retries left.
    pub fn retries(&self) -> (retries: u32)
        ensures
            retries == self@.0,
            reachable_state(self@.0, self@.1),
    {
        proof {
            use_type_invariant(self);
        }
        self.retries
    }

    /// The wait, in seconds, before the next reconnection.
    pub fn delay_secs(&self) -> (delay: u64)
        ensures
            delay == self@.1,
            reachable_state(self@.0, self@.1),
    {
        proof {
            use_type_invariant(self);
        }
        self.delay_secs
    }

    /// A connection succeeded: the retries and the delay start over.
    pub fn on_connected(&mut self)
        ensures
            final(self)@ == (MAX_RETRIES, INITIAL_DELAY_SECS),
    {
        *self = ReconnectPolicy::new();
    }

    /// The connection failed or the stream ended: gives the seconds to wait before
    /// reconnecting, or `None` to reconnect at once.
    pub fn on_disconnected(&mut self) -> (wait: Option<u64>)
        ensures
            (final(self)@, wait) == disconnect_step(old(self)@),
            reachable_state(final(self)@.0, final(self)@.1),
            wait matches Some(secs) ==> INITIAL_DELAY_SECS <= secs <= 120,
            old(self)@.0 > 0 ==> {
                &&& wait == Some(old(self)@.1)
                &&& final(self)@.0 == old(self)@.0 - 1
                &&& final(self)@.1 == old(self)@.1 * 2
            },
            old(self)@.0 == 0 ==> wait is None && final(self)@ == (3u32, 30u64),
    {
        proof {
            use_type_invariant(&*self);
        }
        if self.retries > 0 {
            let wait = self.delay_secs;
            *self = ReconnectPolicy { retries: self.retries - 1, delay_secs: self.delay_secs * 2 };
            Some(wait)
        } else {
            *self = ReconnectPolicy { retries: MAX_RETRIES, delay_secs: RESET_DELAY_SECS };
            None
        }
    }
}

/// Every state the policy reaches keeps the delay between 3 and 240 seconds and
/// the retries at three or fewer, and one disconnection leads to a state it can
/// reach again.
pub proof fn lemma_disconnect_stays_reachable(state: (u32, u64))
    requires
        reachable_state(state.0, state.1),
    ensures
        state.0 <= MAX_RETRIES,
        INITIAL_DELAY_SECS <= state.1 <= 240,
        reachable_state(disconnect_step(state).0.0, disconnect_step(state).0.1),
{
}

/// The stream never gives up, and never waits more than three times in a row:
/// among any four disconnections in a row, at least one reconnects at once.
pub proof fn lemma_reconnects_within_four(state: (u32, u64))
    requires
        reachable_state(state.0, state.1),
    ensures
        waits_after(state, 4).contains(None),
{
    reveal_with_fuel(waits_after, 5);
    let s1 = disconnect_step(state).0;
    let s2 = disconnect_step(s1).0;
    let s3 = disconnect_step(s2).0;
    let w = waits_after(state, 4);
    if state.0 == 0 {
        assert(w[0] == None::<u64>);
    } else if state.0 == 1 {
        assert(w[1] == None::<u64>);
    } else if state.0 == 2 {
        assert(w[2] == None::<u64>);
    } else {
        assert(w[3] == None::<u64>);
    }
}

/// After a successful connection, failures wait 3, 6 and 12 seconds, doubling
/// each time, and the fourth reconnects at once.
pub proof fn lemma_backoff_after_connect()
    ensures
        waits_after((MAX_RETRIES, INITIAL_DELAY_SECS), 4)
            == seq![Some(3u64), Some(6u64), Some(12u64), None::<u64>],
{
    reveal_with_fuel(waits_after, 5);
    assert(waits_after((MAX_RETRIES, INITIAL_DELAY_SECS), 4)
        =~= seq![Some(3u64), Some(6u64), Some(12u64), None::<u64>]);
}

/// Once the retries have run out, each further round waits 30, 60 and 120 seconds
/// and then reconnects at once.
pub proof fn lemma_backoff_after_reset()
    ensures
        waits_after((MAX_RETRIES, RESET_DELAY_SECS), 4)
            == seq![Some(30u64), Some(60u64), Some(120u64), None::<u64>],
{
    reveal_with_fuel(waits_after, 5);
    assert(waits_after((MAX_RETRIES, RESET_DELAY_SECS), 4)
        =~= seq![Some(30u64), Some(60u64), Some(120u64), None::<u64>]);
}

} // verus!
