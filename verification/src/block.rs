//! Building blocks: the number and time of the next block, the order of the
//! solutions it considers, which of them it keeps, and the state that the
//! block state solution writes.
use core::time::Duration;
use vstd::prelude::*;

verus! {

/// Interval at which the main loop runs, in seconds, unless configured otherwise.
pub const RUN_LOOP_FREQUENCY_SECS: u64 = 10;

/// Failed solutions older than this many seconds are pruned (one week).
pub const PRUNE_FAILED_STORAGE_OLDER_THAN_SECS: u64 = 604800;

/// The whole seconds of a duration, as `Duration::as_secs` gives them.
pub uninterp spec fn duration_secs_of(d: Duration) -> u64;

/// The nanoseconds of a duration beyond its whole seconds, as
/// `Duration::subsec_nanos` gives them.
pub uninterp spec fn duration_nanos_of(d: Duration) -> u32;

/// `Duration::from_secs`.
///
/// Trusted: as std documents it, the duration is the given number of whole
/// seconds, with no nanoseconds beyond them.
#[verifier::external_body]
fn duration_from_secs(secs: u64) -> (d: Duration)
    ensures
        duration_secs_of(d) == secs,
        duration_nanos_of(d) == 0,
{
    Duration::from_secs(secs)
}

/// A duration of `secs` whole seconds.
pub fn duration_secs(secs: u64) -> (d: Duration)
    ensures
        duration_secs_of(d) == secs,
        duration_nanos_of(d) == 0,
{
    duration_from_secs(secs)
}

/// Server configuration.
#[derive(Debug)]
pub struct Config {
    /// Interval at which to run the main loop.
    pub run_loop_interval: Duration,
}

impl Default for Config {
    fn default() -> (c: Config)
        ensures
            duration_secs_of(c.run_loop_interval) == RUN_LOOP_FREQUENCY_SECS,
            duration_nanos_of(c.run_loop_interval) == 0,
    {
        Config { run_loop_interval: duration_from_secs(RUN_LOOP_FREQUENCY_SECS) }
    }
}

/// A point in time since the Unix epoch: seconds and nanoseconds.
#[derive(Debug, PartialEq, Eq, Clone, Copy)]
pub struct Timestamp {
    pub secs: u64,
    pub nanos: u32,
}

/// The nanoseconds in a second.
pub const NANOS_PER_SEC: u32 = 1_000_000_000;

impl Timestamp {
    /// The nanoseconds of a timestamp are below a second.
    pub open spec fn wf(self) -> bool {
        self.nanos < NANOS_PER_SEC
    }

    /// The timestamp as a number of nanoseconds.
    pub open spec fn spec_nanos(self) -> int {
        self.secs * 1_000_000_000 + self.nanos
    }

    /// The latest time there is: what adding to a time saturates at.
    pub open spec fn spec_max() -> Timestamp {
        Timestamp { secs: u64::MAX, nanos: 999_999_999 }
    }
}

/// A timestamp one second later, or the latest time where that overflows.
pub open spec fn spec_add_one_sec(t: Timestamp) -> Timestamp {
    if t.secs == u64::MAX {
        Timestamp::spec_max()
    } else {
        Timestamp { secs: (t.secs + 1) as u64, nanos: t.nanos }
    }
}

/// The later of two timestamps.
pub open spec fn spec_later(a: Timestamp, b: Timestamp) -> Timestamp {
    if a.secs > b.secs || (a.secs == b.secs && a.nanos >= b.nanos) {
        a
    } else {
        b
    }
}

/// The time of the next block: after a block, one second after it or the
/// current time, whichever is later (one second after it where the clock
/// cannot be read); for the first block, the current time, or the epoch.
pub open spec fn spec_next_block_timestamp(latest: Option<Timestamp>, now: Option<Timestamp>) -> Timestamp {
    match latest {
        Some(t) => {
            let monotonic = spec_add_one_sec(t);
            match now {
                Some(n) => spec_later(monotonic, n),
                None => monotonic,
            }
        },
        None => match now {
            Some(n) => n,
            None => Timestamp { secs: 0, nanos: 0 },
        },
    }
}

/// The time of the next block, given the time of the latest block (if any)
/// and the current time (if the clock could be read).
pub fn next_block_timestamp(latest: Option<Timestamp>, now: Option<Timestamp>) -> (r: Timestamp)
    ensures
        r == spec_next_block_timestamp(latest, now),
{
    match latest {
        Some(t) => {
            let monotonic = if t.secs == u64::MAX {
                Timestamp { secs: u64::MAX, nanos: 999_999_999 }
            } else {
                Timestamp { secs: t.secs + 1, nanos: t.nanos }
            };
            match now {
                Some(n) => if monotonic.secs > n.secs || (monotonic.secs == n.secs && monotonic.nanos
                    >= n.nanos) {
                    monotonic
                } else {
                    n
                },
                None => monotonic,
            }
        },
        None => match now {
            Some(n) => n,
            None => Timestamp { secs: 0, nanos: 0 },
        },
    }
}

/// The number of the next block: one after the latest block (saturating), or
/// zero for the first block.
pub fn next_block_number(latest: Option<u64>) -> (r: u64)
    ensures
        r == match latest {
            Some(n) => if n == u64::MAX {
                u64::MAX
            } else {
                (n + 1) as u64
            },
            None => 0,
        },
{
    match latest {
        Some(n) => n.saturating_add(1),
        None => 0,
    }
}

/// Block times never go back: the next block's time is later than the latest
/// block's (where that is not already the latest time there is), whatever the
/// clock says.
pub proof fn lemma_block_time_advances(t: Timestamp, now: Option<Timestamp>)
    requires
        t.wf(),
        t.secs < u64::MAX,
    ensures
        spec_next_block_timestamp(Some(t), now).spec_nanos() >= t.spec_nanos() + 1_000_000_000,
{
}

/// The solutions a block considers, in order: the block state solution first
/// where there is one, then the pool's solutions in pool order.
pub fn block_solutions<S>(block_state: Option<S>, pool: Vec<S>) -> (r: Vec<S>)
    ensures
        r@ == match block_state {
            Some(s) => seq![s] + pool@,
            None => pool@,
        },
{
    match block_state {
        Some(s) => {
            let mut v: Vec<S> = Vec::new();
            v.push(s);
            let mut pool = pool;
            let ghost p = pool@;
            v.append(&mut pool);
            assert(v@ =~= seq![s] + p);
            v
        },
        None => pool,
    }
}

/// The outcome of considering the solutions of a block in order: the valid
/// ones and the failed ones, each in the order considered.
pub struct BlockBuilder<V, F> {
    enable_time: bool,
    valid: Vec<V>,
    failed: Vec<F>,
}

impl<V, F> BlockBuilder<V, F> {
    /// Whether the block begins with the block state solution.
    pub closed spec fn spec_enable_time(&self) -> bool {
        self.enable_time
    }

    /// The valid solutions so far.
    pub closed spec fn spec_valid(&self) -> Seq<V> {
        self.valid@
    }

    /// The failed solutions so far.
    pub closed spec fn spec_failed(&self) -> Seq<F> {
        self.failed@
    }

    /// Starts a block; `enable_time` where it begins with the block state solution.
    pub fn new(enable_time: bool) -> (b: Self)
        ensures
            b.spec_enable_time() == enable_time,
            b.spec_valid().len() == 0,
            b.spec_failed().len() == 0,
    {
        BlockBuilder { enable_time, valid: Vec::new(), failed: Vec::new() }
    }

    /// A solution passed its checks.
    pub fn push_valid(&mut self, v: V)
        ensures
            final(self).spec_enable_time() == old(self).spec_enable_time(),
            final(self).spec_valid() == old(self).spec_valid().push(v),
            final(self).spec_failed() == old(self).spec_failed(),
    {
        self.valid.push(v);
    }

    /// A solution failed its checks.
    pub fn push_failed(&mut self, f: F)
        ensures
            final(self).spec_enable_time() == old(self).spec_enable_time(),
            final(self).spec_valid() == old(self).spec_valid(),
            final(self).spec_failed() == old(self).spec_failed().push(f),
    {
        self.failed.push(f);
    }

    /// The valid and failed solutions of the block. Where the block began with
    /// the block state solution and it is the only valid one, the block has no
    /// valid solutions.
    pub fn finish(self) -> (r: (Vec<V>, Vec<F>))
        ensures
            r.1@ == self.spec_failed(),
            r.0@ == if self.spec_enable_time() && self.spec_valid().len() == 1 {
                Seq::<V>::empty()
            } else {
                self.spec_valid()
            },
    {
        let mut valid = self.valid;
        if valid.len() == 1 && self.enable_time {
            valid.clear();
        }
        (valid, self.failed)
    }
}

/// The state that the block state solution writes: the block number at key
/// `[0]` and the block time in seconds at key `[1]`.
pub fn block_state_mutations(number: u64, timestamp_secs: u64) -> (r: Vec<(Vec<i64>, Vec<i64>)>)
    requires
        number <= i64::MAX,
        timestamp_secs <= i64::MAX,
    ensures
        r@.len() == 2,
        r@[0].0@ == seq![0i64],
        r@[0].1@ == seq![number as i64],
        r@[1].0@ == seq![1i64],
        r@[1].1@ == seq![timestamp_secs as i64],
{
    let mut k0: Vec<i64> = Vec::new();
    k0.push(0);
    let mut v0: Vec<i64> = Vec::new();
    v0.push(number as i64);
    let mut k1: Vec<i64> = Vec::new();
    k1.push(1);
    let mut v1: Vec<i64> = Vec::new();
    v1.push(timestamp_secs as i64);
    let mut r: Vec<(Vec<i64>, Vec<i64>)> = Vec::new();
    r.push((k0, v0));
    r.push((k1, v1));
    assert(r@[0].0@ =~= seq![0i64]);
    assert(r@[0].1@ =~= seq![number as i64]);
    assert(r@[1].0@ =~= seq![1i64]);
    assert(r@[1].1@ =~= seq![timestamp_secs as i64]);
    r
}

} // verus!
