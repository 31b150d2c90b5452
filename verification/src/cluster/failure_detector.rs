//! The heartbeat statistics behind a phi-accrual failure detector
//! (Hayashibara, Défago, Yared and Katayama, 2004).
//!
//! Every time a peer gossips with the running node, the heartbeat it
//! carries is recorded, and the intervals between its last heartbeats are
//! kept in a bounded window. From their mean and standard deviation the
//! embedding program estimates how likely it is that the peer has failed.
//!
//! Instants and intervals are whole nanoseconds. Instants count from an
//! origin that the embedding program chooses, and none is later than
//! `MAX_INSTANT`.

use crate::node::NodeId;
use crate::node_map::NodeMap;
use std::collections::VecDeque;
use vstd::prelude::*;

verus! {

/// The number of heartbeat intervals that are kept for each peer.
pub const HEARTBEAT_INTERVALS_WINDOW_SIZE: usize = 100;

/// The latest instant that can be recorded, in nanoseconds: some 36 years
/// after the origin. It keeps the sums of the statistics within 128 bits.
pub const MAX_INSTANT: u64 = 0x1000_0000_0000_0000;

/// The sum of the intervals in `window`.
pub open spec fn total(window: Seq<u64>) -> nat
    decreases window.len(),
{
    if window.len() == 0 {
        0
    } else {
        total(window.drop_last()) + window.last() as nat
    }
}

/// The mean of the intervals in `window`, rounded down.
pub open spec fn mean_of(window: Seq<u64>) -> nat
    recommends
        window.len() > 0,
{
    total(window) / window.len()
}

/// The sum, over the intervals in `window`, of the square of the distance
/// between the interval and `mean`.
pub open spec fn squared_deviations(window: Seq<u64>, mean: nat) -> nat
    decreases window.len(),
{
    if window.len() == 0 {
        0
    } else {
        squared_deviations(window.drop_last(), mean) + ((mean - window.last()) * (mean - window.last())) as nat
    }
}

/// The variance of the intervals in `window` around their mean, rounded
/// down.
pub open spec fn variance_of(window: Seq<u64>) -> nat
    recommends
        window.len() > 0,
{
    squared_deviations(window, mean_of(window)) / window.len()
}

/// Whether `root` is the square root of `n`, rounded down.
pub open spec fn is_floor_sqrt(root: nat, n: nat) -> bool {
    root * root <= n < (root + 1) * (root + 1)
}

/// The square root of `n`, rounded down.
pub open spec fn floor_sqrt(n: nat) -> nat {
    choose|root: nat| is_floor_sqrt(root, n)
}

/// The standard deviation of the intervals in `window`, rounded down.
pub open spec fn std_dev_of(window: Seq<u64>) -> nat
    recommends
        window.len() > 0,
{
    floor_sqrt(variance_of(window))
}

/// Whether every interval in `window` is `interval`.
pub open spec fn steady(window: Seq<u64>, interval: u64) -> bool {
    forall|i: int| 0 <= i < window.len() ==> window[i] == interval
}

/// The lesser of `bound`, if there is one, and `interval`.
pub open spec fn least(bound: Option<u64>, interval: u64) -> u64 {
    match bound {
        Some(b) => if b <= interval {
            b
        } else {
            interval
        },
        None => interval,
    }
}

/// The greater of `bound`, if there is one, and `interval`.
pub open spec fn greatest(bound: Option<u64>, interval: u64) -> u64 {
    match bound {
        Some(b) => if b >= interval {
            b
        } else {
            interval
        },
        None => interval,
    }
}

/// The number of heartbeats between heartbeat `from` and the later
/// heartbeat `to`, as it is counted: in 32 bits.
pub open spec fn heartbeats_between(from: u64, to: u64) -> nat {
    ((to - from) % 0x1_0000_0000) as nat
}

/// The time from `earlier` to `later`, or none if `later` is not later.
pub open spec fn elapsed_between(earlier: u64, later: u64) -> u64 {
    if later >= earlier {
        (later - earlier) as u64
    } else {
        0
    }
}

/// No number has two square roots.
pub proof fn lemma_floor_sqrt_is_unique(a: nat, b: nat, n: nat)
    requires
        is_floor_sqrt(a, n),
        is_floor_sqrt(b, n),
    ensures
        a == b,
{
    if a < b {
        assert((a + 1) * (a + 1) <= b * b) by (nonlinear_arith)
            requires
                a + 1 <= b,
        ;
    } else if b < a {
        assert((b + 1) * (b + 1) <= a * a) by (nonlinear_arith)
            requires
                b + 1 <= a,
        ;
    }
}

/// A number that meets the definition of the square root is the square
/// root.
pub proof fn lemma_floor_sqrt(root: nat, n: nat)
    requires
        is_floor_sqrt(root, n),
    ensures
        floor_sqrt(n) == root,
{
    lemma_floor_sqrt_is_unique(root, floor_sqrt(n), n);
}

/// The sum of a window whose intervals stay under a bound stays under as
/// many times the bound.
proof fn lemma_total_bound(window: Seq<u64>, bound: nat)
    requires
        forall|i: int| 0 <= i < window.len() ==> window[i] <= bound,
    ensures
        total(window) <= window.len() * bound,
    decreases window.len(),
{
    if window.len() > 0 {
        lemma_total_bound(window.drop_last(), bound);
        assert(window.len() * bound == (window.len() - 1) * bound + bound) by (nonlinear_arith);
    }
}

/// The squared deviations of a window whose intervals, like the mean, stay
/// under a bound stay under as many times the square of the bound.
proof fn lemma_squared_deviations_bound(window: Seq<u64>, mean: nat, bound: nat)
    requires
        forall|i: int| 0 <= i < window.len() ==> window[i] <= bound,
        mean <= bound,
    ensures
        squared_deviations(window, mean) <= window.len() * (bound * bound),
    decreases window.len(),
{
    if window.len() > 0 {
        lemma_squared_deviations_bound(window.drop_last(), mean, bound);
        let x = window.last() as int;
        assert(0 <= (mean - x) * (mean - x) <= bound * bound) by (nonlinear_arith)
            requires
                0 <= x <= bound,
                0 <= mean <= bound,
        ;
        assert(window.len() * (bound * bound) == (window.len() - 1) * (bound * bound) + bound * bound)
            by (nonlinear_arith);
    }
}

/// The mean and the standard deviation of a window whose intervals stay
/// under a bound stay under it too.
pub proof fn lemma_statistics_bound(window: Seq<u64>, bound: nat)
    requires
        window.len() > 0,
        forall|i: int| 0 <= i < window.len() ==> window[i] <= bound,
    ensures
        mean_of(window) <= bound,
        variance_of(window) <= bound * bound,
        is_floor_sqrt(std_dev_of(window), variance_of(window)),
        std_dev_of(window) <= bound,
{
    lemma_total_bound(window, bound);
    let count = window.len();
    assert(total(window) / count <= bound) by (nonlinear_arith)
        requires
            total(window) <= count * bound,
            count > 0,
    ;
    lemma_squared_deviations_bound(window, mean_of(window), bound);
    let squares = squared_deviations(window, mean_of(window));
    assert(squares / count <= bound * bound) by (nonlinear_arith)
        requires
            squares <= count * (bound * bound),
            count > 0,
    ;
    lemma_floor_sqrt_exists(variance_of(window));
    let root = std_dev_of(window);
    if root > bound {
        assert(root * root > bound * bound) by (nonlinear_arith)
            requires
                root > bound,
        ;
    }
}

/// Every number has a square root.
proof fn lemma_floor_sqrt_exists(n: nat)
    ensures
        is_floor_sqrt(floor_sqrt(n), n),
    decreases n,
{
    if n == 0 {
        assert(is_floor_sqrt(0, 0)) by (nonlinear_arith);
    } else {
        lemma_floor_sqrt_exists((n - 1) as nat);
        let r = floor_sqrt((n - 1) as nat);
        if (r + 1) * (r + 1) <= n {
            assert(n < (r + 2) * (r + 2)) by (nonlinear_arith)
                requires
                    n - 1 < (r + 1) * (r + 1),
            ;
            assert(is_floor_sqrt(r + 1, n));
        } else {
            assert(is_floor_sqrt(r, n));
        }
    }
}

/// The square root of `n`, rounded down.
pub fn integer_sqrt(n: u128) -> (root: u64)
    ensures
        root == floor_sqrt(n as nat),
        is_floor_sqrt(root as nat, n as nat),
{
    let mut low: u128 = 0;
    let mut high: u128 = 0x1_0000_0000_0000_0000;
    while high - low > 1
        invariant
            low < high <= 0x1_0000_0000_0000_0000,
            low * low <= n,
            n < high * high,
        decreases high - low,
    {
        let middle: u128 = low + (high - low) / 2;
        assert(middle * middle <= 0xFFFF_FFFF_FFFF_FFFF * 0xFFFF_FFFF_FFFF_FFFF) by (nonlinear_arith)
            requires
                0 <= middle <= 0xFFFF_FFFF_FFFF_FFFF,
        ;
        if middle * middle <= n {
            low = middle;
        } else {
            high = middle;
        }
    }
    proof {
        lemma_floor_sqrt(low as nat, n as nat);
    }
    low as u64
}

/// What a `FailureDetectorMember` stands for.
pub struct HeartbeatRecord {
    pub last_heartbeat: u64,
    pub last_heartbeat_received_at: u64,
    pub intervals: Seq<u64>,
    pub mean: Option<u64>,
    pub std_dev: Option<u64>,
    pub min: Option<u64>,
    pub max: Option<u64>,
}

impl HeartbeatRecord {
    /// Whether the window holds no more intervals than it may, and none
    /// longer than `MAX_INSTANT`.
    pub open spec fn valid(self) -> bool {
        &&& self.intervals.len() <= HEARTBEAT_INTERVALS_WINDOW_SIZE
        &&& forall|i: int| 0 <= i < self.intervals.len() ==> self.intervals[i] <= MAX_INSTANT
    }

    /// The record of a peer whose heartbeat `last_heartbeat` was received
    /// at `now`, the first that was heard of it.
    pub open spec fn first(last_heartbeat: u64, now: u64) -> HeartbeatRecord {
        HeartbeatRecord {
            last_heartbeat,
            last_heartbeat_received_at: now,
            intervals: Seq::empty(),
            mean: None,
            std_dev: None,
            min: None,
            max: None,
        }
    }

    /// The record after `interval` entered the window: at its end, and in
    /// place of the oldest interval if the window was full.
    pub open spec fn with_interval(self, interval: u64) -> HeartbeatRecord {
        HeartbeatRecord {
            intervals: if self.intervals.len() == HEARTBEAT_INTERVALS_WINDOW_SIZE {
                self.intervals.drop_first().push(interval)
            } else {
                self.intervals.push(interval)
            },
            min: Some(least(self.min, interval)),
            max: Some(greatest(self.max, interval)),
            ..self
        }
    }

    /// The record after `interval` entered the window `count` times.
    pub open spec fn with_intervals(self, interval: u64, count: nat) -> HeartbeatRecord
        decreases count,
    {
        if count == 0 {
            self
        } else {
            self.with_intervals(interval, (count - 1) as nat).with_interval(interval)
        }
    }

    /// The record with the mean and the standard deviation of its window,
    /// or with neither if the window is empty.
    pub open spec fn with_stats(self) -> HeartbeatRecord {
        if self.intervals.len() > 0 {
            HeartbeatRecord {
                mean: Some(mean_of(self.intervals) as u64),
                std_dev: Some(std_dev_of(self.intervals) as u64),
                ..self
            }
        } else {
            HeartbeatRecord { mean: None, std_dev: None, ..self }
        }
    }

    /// The record after heartbeat `last_heartbeat`, later than the last one,
    /// was received at `now`. The time since the last heartbeat is split
    /// evenly over the heartbeats that have passed, and one interval enters
    /// the window for each of them.
    pub open spec fn with_heartbeat(self, last_heartbeat: u64, now: u64) -> HeartbeatRecord {
        let count = heartbeats_between(self.last_heartbeat, last_heartbeat);
        let interval = (elapsed_between(self.last_heartbeat_received_at, now) / (count as u64)) as u64;
        let pushed = self.with_intervals(interval, count);
        (HeartbeatRecord { last_heartbeat, last_heartbeat_received_at: now, ..pushed }).with_stats()
    }

    /// Whether the window is full of `interval`, which lies between the
    /// least and the greatest interval that was ever seen: from then on,
    /// entering `interval` once more changes nothing.
    pub open spec fn full_of(self, interval: u64) -> bool {
        &&& self.intervals.len() == HEARTBEAT_INTERVALS_WINDOW_SIZE
        &&& steady(self.intervals, interval)
        &&& self.min matches Some(min) && min <= interval
        &&& self.max matches Some(max) && max >= interval
    }

    /// After an interval entered the window `count` times, it is the one
    /// that the window ends with, as many times, as far as the window
    /// reaches.
    proof fn lemma_with_intervals_ends_steady(self, interval: u64, count: nat)
        requires
            self.intervals.len() <= HEARTBEAT_INTERVALS_WINDOW_SIZE,
        ensures
            ({
                let after = self.with_intervals(interval, count);
                &&& after.intervals.len() <= HEARTBEAT_INTERVALS_WINDOW_SIZE
                &&& after.intervals.len() >= count || after.intervals.len() == HEARTBEAT_INTERVALS_WINDOW_SIZE
                &&& forall|i: int|
                    0 <= i < after.intervals.len() && after.intervals.len() - i <= count
                        ==> after.intervals[i] == interval
                &&& count > 0 ==> (after.min matches Some(min) && min <= interval)
                &&& count > 0 ==> (after.max matches Some(max) && max >= interval)
            }),
        decreases count,
    {
        if count > 0 {
            self.lemma_with_intervals_ends_steady(interval, (count - 1) as nat);
        }
    }

    /// Once an interval has filled the window, entering it more often
    /// changes nothing.
    pub proof fn lemma_with_intervals_saturates(self, interval: u64, count: nat)
        requires
            self.intervals.len() <= HEARTBEAT_INTERVALS_WINDOW_SIZE,
            count >= HEARTBEAT_INTERVALS_WINDOW_SIZE,
        ensures
            self.with_intervals(interval, count) == self.with_intervals(
                interval,
                HEARTBEAT_INTERVALS_WINDOW_SIZE as nat,
            ),
            self.with_intervals(interval, count).full_of(interval),
        decreases count,
    {
        if count == HEARTBEAT_INTERVALS_WINDOW_SIZE {
            self.lemma_with_intervals_ends_steady(interval, count);
        } else {
            self.lemma_with_intervals_saturates(interval, (count - 1) as nat);
            let full = self.with_intervals(interval, (count - 1) as nat);
            assert(full.with_interval(interval).intervals =~= full.intervals);
        }
    }
}

/// The intervals of a steady window add up to as many times the interval,
/// and none of them deviates from it.
proof fn lemma_steady_sums(window: Seq<u64>, interval: u64)
    requires
        steady(window, interval),
    ensures
        total(window) == window.len() * interval,
        squared_deviations(window, interval as nat) == 0,
    decreases window.len(),
{
    if window.len() > 0 {
        lemma_steady_sums(window.drop_last(), interval);
        assert(window.len() * interval == (window.len() - 1) * interval + interval) by (nonlinear_arith);
        assert(window.last() == interval);
    }
}

/// Where all heartbeats were equally spaced, the mean of the intervals is
/// their spacing, and there is no deviation.
pub proof fn lemma_steady_statistics(window: Seq<u64>, interval: u64)
    requires
        window.len() > 0,
        steady(window, interval),
    ensures
        mean_of(window) == interval,
        variance_of(window) == 0,
        std_dev_of(window) == 0,
{
    lemma_steady_sums(window, interval);
    let count = window.len();
    assert((count * interval) as nat / count == interval) by (nonlinear_arith)
        requires
            count > 0,
            interval >= 0,
    ;
    assert(is_floor_sqrt(0, 0)) by (nonlinear_arith);
    lemma_floor_sqrt(0, 0);
}

impl HeartbeatRecord {
    /// Entering an interval into a steady window of the same interval
    /// keeps it steady.
    pub proof fn lemma_with_intervals_steady(self, interval: u64, count: nat)
        requires
            steady(self.intervals, interval),
        ensures
            steady(self.with_intervals(interval, count).intervals, interval),
            count > 0 ==> self.with_intervals(interval, count).intervals.len() > 0,
        decreases count,
    {
        if count > 0 {
            self.lemma_with_intervals_steady(interval, (count - 1) as nat);
        }
    }

    /// A heartbeat that comes when it is due keeps the statistics steady:
    /// where the intervals so far were all `interval`, and the heartbeats
    /// that have passed since the last one took `interval` each, the mean
    /// is `interval` and there is no deviation.
    pub proof fn lemma_equally_spaced_heartbeat(self, last_heartbeat: u64, now: u64, interval: u64)
        requires
            steady(self.intervals, interval),
            self.last_heartbeat < last_heartbeat,
            heartbeats_between(self.last_heartbeat, last_heartbeat) != 0,
            now == self.last_heartbeat_received_at + heartbeats_between(self.last_heartbeat, last_heartbeat)
                * interval,
        ensures
            steady(self.with_heartbeat(last_heartbeat, now).intervals, interval),
            self.with_heartbeat(last_heartbeat, now).mean == Some(interval),
            self.with_heartbeat(last_heartbeat, now).std_dev == Some(0u64),
    {
        let count = heartbeats_between(self.last_heartbeat, last_heartbeat);
        assert((count * interval) / (count as int) == interval) by (nonlinear_arith)
            requires
                count > 0,
        ;
        self.lemma_with_intervals_steady(interval, count);
        let window = self.with_intervals(interval, count).intervals;
        lemma_steady_statistics(window, interval);
    }
}

/// What is known of the heartbeats of one peer.
#[derive(Debug)]
pub struct FailureDetectorMember {
    pub last_heartbeat: u64,
    /// When the last heartbeat was received.
    pub last_heartbeat_received_at: u64,
    heartbeats_intervals: VecDeque<u64>,
    pub heartbeats_intervals_mean: Option<u64>,
    pub hearbeats_interval_std_dev: Option<u64>,
    pub heartbeats_min_interval: Option<u64>,
    pub heartbeats_max_interval: Option<u64>,
}

impl View for FailureDetectorMember {
    type V = HeartbeatRecord;

    closed spec fn view(&self) -> HeartbeatRecord {
        HeartbeatRecord {
            last_heartbeat: self.last_heartbeat,
            last_heartbeat_received_at: self.last_heartbeat_received_at,
            intervals: self.heartbeats_intervals@,
            mean: self.heartbeats_intervals_mean,
            std_dev: self.hearbeats_interval_std_dev,
            min: self.heartbeats_min_interval,
            max: self.heartbeats_max_interval,
        }
    }
}

impl Clone for FailureDetectorMember {
    fn clone(&self) -> (copy: FailureDetectorMember)
        ensures
            copy@ == self@,
    {
        let heartbeats_intervals = self.heartbeats_intervals.clone();
        FailureDetectorMember {
            last_heartbeat: self.last_heartbeat,
            last_heartbeat_received_at: self.last_heartbeat_received_at,
            heartbeats_intervals,
            heartbeats_intervals_mean: self.heartbeats_intervals_mean,
            hearbeats_interval_std_dev: self.hearbeats_interval_std_dev,
            heartbeats_min_interval: self.heartbeats_min_interval,
            heartbeats_max_interval: self.heartbeats_max_interval,
        }
    }
}

impl FailureDetectorMember {
    /// The member of a peer whose heartbeat `last_heartbeat` was received
    /// at `now`, the first that was heard of it.
    pub fn new(last_heartbeat: u64, now: u64) -> (member: FailureDetectorMember)
        ensures
            member@ == HeartbeatRecord::first(last_heartbeat, now),
            member@.valid(),
    {
        FailureDetectorMember {
            last_heartbeat,
            last_heartbeat_received_at: now,
            heartbeats_intervals: VecDeque::new(),
            hearbeats_interval_std_dev: None,
            heartbeats_intervals_mean: None,
            heartbeats_min_interval: None,
            heartbeats_max_interval: None,
        }
    }

    /// The intervals in the window, oldest first.
    pub fn intervals(&self) -> (intervals: Vec<u64>)
        ensures
            intervals@ == self@.intervals,
    {
        let mut intervals: Vec<u64> = Vec::new();
        let mut next: usize = 0;
        while next < self.heartbeats_intervals.len()
            invariant
                next <= self.heartbeats_intervals@.len(),
                intervals@ == self.heartbeats_intervals@.take(next as int),
            decreases self.heartbeats_intervals@.len() - next,
        {
            intervals.push(self.heartbeats_intervals[next]);
            next += 1;
        }
        intervals
    }

    /// Computes the mean and the standard deviation of the window anew.
    pub fn refresh_stats(&mut self)
        requires
            old(self)@.valid(),
        ensures
            final(self)@ == old(self)@.with_stats(),
            final(self)@.valid(),
    {
        let count = self.heartbeats_intervals.len();
        if count > 0 {
            let ghost window = self.heartbeats_intervals@;
            let mut sum: u128 = 0;
            let mut next: usize = 0;
            while next < count
                invariant
                    next <= count,
                    count == window.len(),
                    count <= HEARTBEAT_INTERVALS_WINDOW_SIZE,
                    window == self.heartbeats_intervals@,
                    forall|i: int| 0 <= i < window.len() ==> window[i] <= MAX_INSTANT,
                    sum == total(window.take(next as int)),
                    sum <= next * MAX_INSTANT,
                decreases count - next,
            {
                let interval = self.heartbeats_intervals[next];
                assert(window.take(next + 1).drop_last() =~= window.take(next as int));
                sum = sum + interval as u128;
                next += 1;
            }
            proof {
                assert(window.take(count as int) =~= window);
                lemma_statistics_bound(window, MAX_INSTANT as nat);
            }
            let mean: u64 = (sum / (count as u128)) as u64;
            let mut squares: u128 = 0;
            let mut next: usize = 0;
            while next < count
                invariant
                    next <= count,
                    count == window.len(),
                    count <= HEARTBEAT_INTERVALS_WINDOW_SIZE,
                    window == self.heartbeats_intervals@,
                    forall|i: int| 0 <= i < window.len() ==> window[i] <= MAX_INSTANT,
                    mean <= MAX_INSTANT,
                    squares == squared_deviations(window.take(next as int), mean as nat),
                    squares <= next * (MAX_INSTANT * MAX_INSTANT),
                decreases count - next,
            {
                let interval = self.heartbeats_intervals[next];
                let distance: u128 = if mean >= interval {
                    (mean - interval) as u128
                } else {
                    (interval - mean) as u128
                };
                proof {
                    assert(window.take(next + 1).drop_last() =~= window.take(next as int));
                    assert(distance * distance == (mean - interval) * (mean - interval)) by (nonlinear_arith)
                        requires
                            distance == mean - interval || distance == interval - mean,
                    ;
                    assert(distance * distance <= MAX_INSTANT * MAX_INSTANT) by (nonlinear_arith)
                        requires
                            0 <= distance <= MAX_INSTANT,
                    ;
                    assert((next + 1) * (MAX_INSTANT * MAX_INSTANT) == next * (MAX_INSTANT * MAX_INSTANT)
                        + MAX_INSTANT * MAX_INSTANT) by (nonlinear_arith);
                }
                squares = squares + distance * distance;
                next += 1;
            }
            let variance: u128 = squares / (count as u128);
            let std_dev = integer_sqrt(variance);
            self.heartbeats_intervals_mean = Some(mean);
            self.hearbeats_interval_std_dev = Some(std_dev);
        } else {
            self.heartbeats_intervals_mean = None;
            self.hearbeats_interval_std_dev = None;
        }
    }

    /// Enters `interval` into the window, in place of the oldest interval
    /// if the window is full.
    pub fn insert_interval(&mut self, interval: u64)
        requires
            old(self)@.valid(),
            interval <= MAX_INSTANT,
        ensures
            final(self)@ == old(self)@.with_interval(interval),
            final(self)@.valid(),
    {
        if self.heartbeats_intervals.len() == HEARTBEAT_INTERVALS_WINDOW_SIZE {
            let _ = self.heartbeats_intervals.pop_front();
        }
        let min = match self.heartbeats_min_interval {
            Some(min) => if min <= interval {
                min
            } else {
                interval
            },
            None => interval,
        };
        let max = match self.heartbeats_max_interval {
            Some(max) => if max >= interval {
                max
            } else {
                interval
            },
            None => interval,
        };
        self.heartbeats_min_interval = Some(min);
        self.heartbeats_max_interval = Some(max);
        self.heartbeats_intervals.push_back(interval);
    }

    /// Records that heartbeat `last_heartbeat`, later than the last one,
    /// was received at `now`.
    pub fn record_heartbeat(&mut self, last_heartbeat: u64, now: u64)
        requires
            old(self)@.valid(),
            now <= MAX_INSTANT,
            old(self)@.last_heartbeat < last_heartbeat,
            heartbeats_between(old(self)@.last_heartbeat, last_heartbeat) != 0,
        ensures
            final(self)@ == old(self)@.with_heartbeat(last_heartbeat, now),
            final(self)@.valid(),
    {
        let elapsed_time: u64 = if now >= self.last_heartbeat_received_at {
            now - self.last_heartbeat_received_at
        } else {
            0
        };
        let received_heartbeats_since_last_record: u32 = ((last_heartbeat - self.last_heartbeat)
            % 0x1_0000_0000) as u32;
        let mean_heartbeat_time: u64 = elapsed_time / (received_heartbeats_since_last_record as u64);
        // Once the interval has filled the window, entering it more often
        // would change nothing.
        let to_enter: usize = if received_heartbeats_since_last_record as usize
            >= HEARTBEAT_INTERVALS_WINDOW_SIZE {
            proof {
                old(self)@.lemma_with_intervals_saturates(
                    mean_heartbeat_time,
                    received_heartbeats_since_last_record as nat,
                );
            }
            HEARTBEAT_INTERVALS_WINDOW_SIZE
        } else {
            received_heartbeats_since_last_record as usize
        };
        let mut entered: usize = 0;
        while entered < to_enter
            invariant
                entered <= to_enter,
                mean_heartbeat_time <= MAX_INSTANT,
                self@.valid(),
                self@ == old(self)@.with_intervals(mean_heartbeat_time, entered as nat),
            decreases to_enter - entered,
        {
            self.insert_interval(mean_heartbeat_time);
            entered += 1;
        }
        self.last_heartbeat = last_heartbeat;
        self.last_heartbeat_received_at = now;
        self.refresh_stats();
    }
}

/// What a `FailureDetector` stands for: the record of each peer heard of.
pub open spec fn heartbeat_records(members: Map<NodeId, FailureDetectorMember>) -> Map<NodeId, HeartbeatRecord> {
    members.map_values(|member: FailureDetectorMember| member@)
}

/// Whether every record in `records` is valid.
pub open spec fn records_valid(records: Map<NodeId, HeartbeatRecord>) -> bool {
    forall|id: NodeId| records.contains_key(id) ==> (#[trigger] records[id]).valid()
}

/// Whether recording heartbeat `last_heartbeat` of `node_id` would split
/// the time since its last heartbeat over no heartbeats at all: it is later
/// than the last one by a multiple of 2^32.
pub open spec fn splits_over_nothing(
    records: Map<NodeId, HeartbeatRecord>,
    this_node_id: NodeId,
    node_id: NodeId,
    last_heartbeat: u64,
) -> bool {
    &&& node_id != this_node_id
    &&& records.contains_key(node_id)
    &&& records[node_id].last_heartbeat < last_heartbeat
    &&& heartbeats_between(records[node_id].last_heartbeat, last_heartbeat) == 0
}

/// The records after node `this_node_id` was told at `now` that the last
/// heartbeat of `node_id` is `last_heartbeat`.
///
/// Nothing is recorded of the node itself. A peer not heard of before gets
/// its first record. A heartbeat later than the last one is recorded, and
/// any other is ignored.
pub open spec fn recorded_heartbeat(
    records: Map<NodeId, HeartbeatRecord>,
    this_node_id: NodeId,
    node_id: NodeId,
    last_heartbeat: u64,
    now: u64,
) -> Map<NodeId, HeartbeatRecord> {
    if node_id == this_node_id {
        records
    } else if !records.contains_key(node_id) {
        records.insert(node_id, HeartbeatRecord::first(last_heartbeat, now))
    } else if records[node_id].last_heartbeat < last_heartbeat {
        records.insert(node_id, records[node_id].with_heartbeat(last_heartbeat, now))
    } else {
        records
    }
}

/// Records the heartbeats of the peers of a node.
#[derive(Debug)]
pub struct FailureDetector {
    this_node_id: NodeId,
    members: NodeMap<FailureDetectorMember>,
}

impl View for FailureDetector {
    type V = Map<NodeId, HeartbeatRecord>;

    closed spec fn view(&self) -> Map<NodeId, HeartbeatRecord> {
        heartbeat_records(self.members@)
    }
}

impl Clone for FailureDetector {
    fn clone(&self) -> (copy: FailureDetector)
        ensures
            self.wf() ==> copy.wf() && copy@ == self@ && copy.node() == self.node(),
    {
        let copy = FailureDetector { this_node_id: self.this_node_id, members: self.members.clone() };
        proof {
            if self.wf() {
                assert(copy@ =~= self@);
            }
        }
        copy
    }
}

impl FailureDetector {
    /// The representation invariant of the detector; it includes that every
    /// record is valid.
    pub closed spec fn wf(&self) -> bool {
        &&& self.members.wf()
        &&& records_valid(heartbeat_records(self.members@))
    }

    /// The node that runs the detector.
    pub closed spec fn node(&self) -> NodeId {
        self.this_node_id
    }

    /// A detector for node `this_node_id`, which has heard of no peer yet.
    pub fn new(this_node_id: NodeId) -> (detector: FailureDetector)
        ensures
            detector.wf(),
            detector.node() == this_node_id,
            detector@ == Map::<NodeId, HeartbeatRecord>::empty(),
    {
        FailureDetector { this_node_id, members: NodeMap::new() }
    }

    /// The node that runs the detector.
    pub fn this_node_id(&self) -> (id: NodeId)
        ensures
            id == self.node(),
    {
        self.this_node_id
    }

    /// Whether the detector could not record heartbeat `last_heartbeat` of
    /// `node_id`, because it is later than the last one by a multiple of
    /// 2^32.
    pub fn cannot_record(&self, node_id: NodeId, last_heartbeat: u64) -> (refused: bool)
        requires
            self.wf(),
        ensures
            refused == splits_over_nothing(self@, self.node(), node_id, last_heartbeat),
    {
        if node_id == self.this_node_id {
            return false;
        }
        match self.members.get(&node_id) {
            Some(member) => member.last_heartbeat < last_heartbeat && (last_heartbeat
                - member.last_heartbeat) % 0x1_0000_0000 == 0,
            None => false,
        }
    }

    /// Records at `now` that the last heartbeat of `node_id` is
    /// `last_heartbeat`.
    pub fn record_heartbeat(&mut self, node_id: NodeId, last_heartbeat: u64, now: u64)
        requires
            old(self).wf(),
            now <= MAX_INSTANT,
            !splits_over_nothing(old(self)@, old(self).node(), node_id, last_heartbeat),
        ensures
            final(self).wf(),
            final(self).node() == old(self).node(),
            final(self)@ == recorded_heartbeat(old(self)@, old(self).node(), node_id, last_heartbeat, now),
    {
        if node_id == self.this_node_id {
            return;
        }
        match self.members.get_mut(&node_id) {
            Some(member) => {
                if member.last_heartbeat < last_heartbeat {
                    member.record_heartbeat(last_heartbeat, now);
                }
            },
            None => {
                self.members.insert(node_id, FailureDetectorMember::new(last_heartbeat, now));
            },
        }
        assert(self@ =~= recorded_heartbeat(old(self)@, self.this_node_id, node_id, last_heartbeat, now));
    }

    /// The peers heard of, each with what is known of its heartbeats.
    pub fn members(&self) -> (members: &NodeMap<FailureDetectorMember>)
        requires
            self.wf(),
        ensures
            members.wf(),
            heartbeat_records(members@) == self@,
    {
        &self.members
    }
}

} // verus!
