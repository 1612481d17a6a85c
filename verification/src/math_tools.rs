//! Streaming rolling-window anomaly detection.
//!
//! One fixed-capacity FIFO window of recent readings is kept per monitored
//! frequency, together with the running sum of their powers.  While a
//! window is still filling no reading is evaluated; once it holds
//! `capacity` readings, each incoming reading evicts the oldest one and is
//! judged against the rolling mean of the updated window.  Powers are
//! milli-decibel integers, so the running sum is exactly the sum of the
//! queue's contents at all times.

use vstd::prelude::*;
use crate::sql_tools::TSData;
use crate::sql_tools::valid_power;
use crate::sql_tools::POWER_BOUND;

verus! {

/// Default number of readings retained per frequency window.
pub const CAPACITY: usize = 500;

/// Default flagging threshold: a reading is anomalous when it sits at
/// least this far (in milli-decibels) above the rolling mean.
pub const MAX_DELTA: i64 = 2_000;

/// Largest capacity a window may be built with; keeps the rolling sum of
/// bounded powers inside `i64`.
pub const CAPACITY_BOUND: usize = 1_000_000;

/// Sum of the `rssi` fields of a sequence of readings.
pub open spec fn sum_powers(s: Seq<TSData>) -> int
    decreases s.len(),
{
    if s.len() == 0 {
        0
    } else {
        sum_powers(s.drop_last()) + s.last().rssi
    }
}

/// The queue contents after one reading arrives: appended while the window
/// is filling, the oldest evicted first once it is full.
pub open spec fn queue_after(q: Seq<TSData>, cap: int, r: TSData) -> Seq<TSData> {
    if q.len() < cap {
        q.push(r)
    } else {
        q.drop_first().push(r)
    }
}

/// The running sum used when a full window evaluates reading `r`: the
/// oldest power has been subtracted and `r`'s power added.
pub open spec fn steady_sum(q: Seq<TSData>, r: TSData) -> int {
    sum_powers(q) - q.first().rssi + r.rssi
}

/// Whether reading `r` is flagged as anomalous against window contents `q`.
/// A window still filling never flags.  A full window flags exactly when
/// `r.rssi - steady_sum / cap >= threshold`, written multiplied through by
/// `cap` so the comparison is exact rather than rounded.
pub open spec fn flags(q: Seq<TSData>, cap: int, threshold: int, r: TSData) -> bool {
    &&& q.len() >= cap
    &&& r.rssi * cap - steady_sum(q, r) >= threshold * cap
}

/// One rolling window: the most recent `capacity` readings of a single
/// monitored frequency and the running sum of their powers.
pub struct RollingWindow {
    pub capacity: usize,
    pub queue: Vec<TSData>,
    pub rolling_sum: i64,
}

impl RollingWindow {
    /// Well-formedness: the queue never outgrows the capacity, every held
    /// power is bounded, and the running sum is exactly the sum of the
    /// queue's powers.
    pub open spec fn wf(self) -> bool {
        &&& 1 <= self.capacity <= CAPACITY_BOUND
        &&& self.queue.len() <= self.capacity
        &&& forall|i: int|
            0 <= i < self.queue.len() ==> valid_power(#[trigger] self.queue[i].rssi)
        &&& self.rolling_sum == sum_powers(self.queue@)
    }

    /// An empty window for a fresh frequency key.
    pub fn new(capacity: usize) -> (w: RollingWindow)
        requires
            1 <= capacity <= CAPACITY_BOUND,
        ensures
            w.wf(),
            w.capacity == capacity,
            w.queue@ == Seq::<TSData>::empty(),
            w.rolling_sum == 0,
    {
        RollingWindow { capacity, queue: Vec::new(), rolling_sum: 0 }
    }

    /// Ingests one reading: updates the queue and running sum as
    /// `queue_after` says and reports whether the reading is flagged as
    /// anomalous, exactly as `flags` says.
    pub fn push(&mut self, r: TSData, threshold: i64) -> (flagged: bool)
        requires
            old(self).wf(),
            valid_power(r.rssi),
        ensures
            final(self).wf(),
            final(self).capacity == old(self).capacity,
            final(self).queue@ == queue_after(old(self).queue@, old(self).capacity as int, r),
            flagged == flags(
                old(self).queue@,
                old(self).capacity as int,
                threshold as int,
                r,
            ),
    {
        proof {
            lemma_sum_powers_bound(self.queue@);
        }
        if self.queue.len() < self.capacity {
            proof {
                lemma_sum_push(self.queue@, r);
            }
            self.rolling_sum = self.rolling_sum + r.rssi;
            self.queue.push(r);
            false
        } else {
            let oldest = self.queue.remove(0);
            proof {
                lemma_sum_drop_first(old(self).queue@);
                lemma_sum_push(old(self).queue@.drop_first(), r);
                lemma_mul_bounded(
                    r.rssi as int,
                    old(self).capacity as int,
                    POWER_BOUND as int,
                    CAPACITY_BOUND as int,
                );
                lemma_mul_bounded(
                    threshold as int,
                    old(self).capacity as int,
                    0x8000_0000_0000_0000,
                    CAPACITY_BOUND as int,
                );
            }
            self.rolling_sum = self.rolling_sum - oldest.rssi + r.rssi;
            let lhs: i128 = (r.rssi as i128) * (self.capacity as i128) - (self.rolling_sum as i128);
            let rhs: i128 = (threshold as i128) * (self.capacity as i128);
            let flagged = lhs >= rhs;
            self.queue.push(r);
            flagged
        }
    }
}

/// True when some window in `ws` is keyed by frequency `k`.
pub open spec fn has_key(ws: Seq<(i64, RollingWindow)>, k: i64) -> bool {
    exists|i: int| 0 <= i < ws.len() && (#[trigger] ws[i]).0 == k
}

/// Index of the window keyed by `k`; meaningful only when `has_key` holds.
pub open spec fn key_index(ws: Seq<(i64, RollingWindow)>, k: i64) -> int {
    choose|i: int| 0 <= i < ws.len() && (#[trigger] ws[i]).0 == k
}

/// The whole detector: one rolling window per monitored frequency, all
/// sharing one capacity and one flagging threshold.  Windows are created
/// lazily, on the first reading of a new frequency, and never destroyed.
pub struct Detector {
    pub capacity: usize,
    pub threshold: i64,
    pub windows: Vec<(i64, RollingWindow)>,
}

impl Detector {
    /// Well-formedness: every window is well formed with the shared
    /// capacity, and no frequency keys two windows.
    pub open spec fn wf(self) -> bool {
        &&& 1 <= self.capacity <= CAPACITY_BOUND
        &&& forall|i: int|
            0 <= i < self.windows.len() ==> (#[trigger] self.windows[i]).1.wf()
                && self.windows[i].1.capacity == self.capacity
        &&& forall|i: int, j: int|
            0 <= i < j < self.windows.len() ==> (#[trigger] self.windows[i]).0 != (
            #[trigger] self.windows[j]).0
    }

    /// A detector with no windows yet.
    pub fn new(capacity: usize, threshold: i64) -> (d: Detector)
        requires
            1 <= capacity <= CAPACITY_BOUND,
        ensures
            d.wf(),
            d.capacity == capacity,
            d.threshold == threshold,
            d.windows@ == Seq::<(i64, RollingWindow)>::empty(),
    {
        Detector { capacity, threshold, windows: Vec::new() }
    }

    /// Index of the window keyed by `k`, if one exists.
    fn find_index(windows: &Vec<(i64, RollingWindow)>, k: i64) -> (idx: Option<usize>)
        ensures
            match idx {
                Some(i) => i < windows@.len() && windows@[i as int].0 == k,
                None => !has_key(windows@, k),
            },
    {
        let mut i: usize = 0;
        while i < windows.len()
            invariant
                i <= windows@.len(),
                forall|j: int| 0 <= j < i ==> (#[trigger] windows@[j]).0 != k,
            decreases windows@.len() - i,
        {
            if windows[i].0 == k {
                return Some(i);
            }
            i = i + 1;
        }
        None
    }

    /// Consumes one reading.  The window keyed by the reading's frequency
    /// is created if absent, updated as `queue_after` says, and the
    /// result reports -- exactly as `flags` says -- whether the reading
    /// must be forwarded to persistence as anomalous.  All other windows
    /// are untouched.
    pub fn ingest(&mut self, r: TSData) -> (flagged: bool)
        requires
            old(self).wf(),
            valid_power(r.rssi),
        ensures
            final(self).wf(),
            final(self).capacity == old(self).capacity,
            final(self).threshold == old(self).threshold,
            has_key(final(self).windows@, r.frequency),
            !has_key(old(self).windows@, r.frequency) ==> {
                &&& final(self).windows@.len() == old(self).windows@.len() + 1
                &&& final(self).windows@.last().0 == r.frequency
                &&& final(self).windows@.last().1.queue@ == seq![r]
                &&& forall|j: int|
                    0 <= j < old(self).windows@.len() ==> #[trigger] final(self).windows@[j]
                        == old(self).windows@[j]
                &&& !flagged
            },
            has_key(old(self).windows@, r.frequency) ==> ({
                let i = key_index(old(self).windows@, r.frequency);
                &&& final(self).windows@.len() == old(self).windows@.len()
                &&& forall|j: int|
                    0 <= j < old(self).windows@.len() && j != i
                        ==> #[trigger] final(self).windows@[j] == old(self).windows@[j]
                &&& final(self).windows@[i].0 == r.frequency
                &&& final(self).windows@[i].1.queue@ == queue_after(
                    old(self).windows@[i].1.queue@,
                    old(self).capacity as int,
                    r,
                )
                &&& flagged == flags(
                    old(self).windows@[i].1.queue@,
                    old(self).capacity as int,
                    old(self).threshold as int,
                    r,
                )
            }),
    {
        match Self::find_index(&self.windows, r.frequency) {
            Some(i) => {
                proof {
                    let ki = key_index(old(self).windows@, r.frequency);
                    assert(0 <= ki < old(self).windows@.len() && old(self).windows@[ki].0
                        == r.frequency);
                    assert(ki == i as int);
                }
                let mut entry = self.windows.remove(i);
                let flagged = entry.1.push(r, self.threshold);
                self.windows.insert(i, entry);
                proof {
                    assert(final(self).windows@ =~= old(self).windows@.update(
                        i as int,
                        (r.frequency, final(self).windows@[i as int].1),
                    ));
                }
                flagged
            },
            None => {
                let mut w = RollingWindow::new(self.capacity);
                let flagged = w.push(r, self.threshold);
                self.windows.push((r.frequency, w));
                proof {
                    assert(final(self).windows@.last().1.queue@ =~= seq![r]);
                    assert(has_key(final(self).windows@, r.frequency)) by {
                        assert(final(self).windows@[old(self).windows@.len() as int].0
                            == r.frequency);
                    }
                }
                flagged
            },
        }
    }
}

/// Folding a whole sequence of readings, oldest first, into a window's
/// queue.
pub open spec fn queue_after_all(q: Seq<TSData>, cap: int, rs: Seq<TSData>) -> Seq<TSData>
    decreases rs.len(),
{
    if rs.len() == 0 {
        q
    } else {
        queue_after_all(queue_after(q, cap, rs.first()), cap, rs.drop_first())
    }
}

/// However many readings are ingested, a window's queue grows one reading
/// at a time up to `cap` and then stays at exactly `cap`.
pub proof fn lemma_queue_growth(q: Seq<TSData>, cap: int, rs: Seq<TSData>)
    requires
        q.len() <= cap,
        1 <= cap,
    ensures
        queue_after_all(q, cap, rs).len() == if q.len() + rs.len() <= cap {
            q.len() + rs.len() as int
        } else {
            cap
        },
    decreases rs.len(),
{
    if rs.len() > 0 {
        lemma_queue_growth(queue_after(q, cap, rs.first()), cap, rs.drop_first());
    }
}

/// Law: the window never outgrows its capacity, no matter how many
/// readings are ingested.
pub proof fn lemma_capacity_never_exceeded(q: Seq<TSData>, cap: int, rs: Seq<TSData>)
    requires
        q.len() <= cap,
        1 <= cap,
    ensures
        queue_after_all(q, cap, rs).len() <= cap,
{
    lemma_queue_growth(q, cap, rs);
}

/// Law: starting from an empty window, none of the first `cap` readings
/// is ever evaluated for anomalies; the reading ingested once the window
/// holds `cap` readings is the first that can be flagged.
pub proof fn lemma_no_flag_while_filling(cap: int, threshold: int, rs: Seq<TSData>, k: int)
    requires
        1 <= cap,
        0 <= k < rs.len(),
        k < cap,
    ensures
        !flags(queue_after_all(Seq::<TSData>::empty(), cap, rs.take(k)), cap, threshold, rs[k]),
{
    lemma_queue_growth(Seq::<TSData>::empty(), cap, rs.take(k));
}

/// Law: once `cap` readings have been ingested for a key its window is
/// full, so the very next reading -- and every one after it -- is
/// evaluated: whether it is flagged is decided solely by the threshold
/// comparison against the rolling mean.
pub proof fn lemma_evaluation_begins_at_capacity(
    cap: int,
    threshold: int,
    rs: Seq<TSData>,
    k: int,
)
    requires
        1 <= cap,
        cap <= k < rs.len(),
    ensures
        ({
            let q = queue_after_all(Seq::<TSData>::empty(), cap, rs.take(k));
            flags(q, cap, threshold, rs[k]) == (rs[k].rssi * cap - steady_sum(q, rs[k])
                >= threshold * cap)
        }),
{
    lemma_queue_growth(Seq::<TSData>::empty(), cap, rs.take(k));
}

/// Law: the flagging boundary is exact.  When the rolling mean over the
/// updated window is exactly `avg`, a reading whose power reaches
/// `avg + threshold` is flagged, and one below that is not.
pub proof fn lemma_threshold_boundary(q: Seq<TSData>, cap: int, threshold: int, r: TSData, avg: int)
    requires
        q.len() == cap,
        1 <= cap,
        steady_sum(q, r) == cap * avg,
    ensures
        r.rssi >= avg + threshold ==> flags(q, cap, threshold, r),
        r.rssi < avg + threshold ==> !flags(q, cap, threshold, r),
{
    assert(r.rssi * cap - cap * avg - threshold * cap == (r.rssi - avg - threshold) * cap)
        by (nonlinear_arith);
    assert(((r.rssi - avg - threshold) * cap >= 0) == (r.rssi - avg - threshold >= 0))
        by (nonlinear_arith)
        requires
            1 <= cap,
    ;
}

/// A product of values bounded in magnitude is bounded by the product of
/// the bounds.
pub proof fn lemma_mul_bounded(a: int, b: int, ab: int, bb: int)
    by (nonlinear_arith)
    requires
        -ab <= a <= ab,
        0 <= b <= bb,
    ensures
        -(ab * bb) <= a * b <= ab * bb,
{
}

/// Appending one reading adds its power to the sum.
pub proof fn lemma_sum_push(q: Seq<TSData>, r: TSData)
    ensures
        sum_powers(q.push(r)) == sum_powers(q) + r.rssi,
{
    assert(q.push(r).drop_last() =~= q);
    assert(q.push(r).last() == r);
}

/// Dropping the oldest reading removes its power from the sum.
pub proof fn lemma_sum_drop_first(q: Seq<TSData>)
    requires
        q.len() > 0,
    ensures
        sum_powers(q) == q.first().rssi + sum_powers(q.drop_first()),
    decreases q.len(),
{
    if q.len() == 1 {
        assert(q.drop_first() =~= Seq::<TSData>::empty());
        assert(q.drop_last() =~= Seq::<TSData>::empty());
    } else {
        lemma_sum_drop_first(q.drop_last());
        assert(q.drop_last().first() == q.first());
        assert(q.drop_last().drop_first() =~= q.drop_first().drop_last());
        assert(q.drop_first().last() == q.last());
        assert(sum_powers(q.drop_first()) == sum_powers(q.drop_first().drop_last())
            + q.drop_first().last().rssi);
        assert(sum_powers(q) == sum_powers(q.drop_last()) + q.last().rssi);
    }
}

/// With every power bounded, the sum is bounded by the length times the
/// power bound.
pub proof fn lemma_sum_powers_bound(q: Seq<TSData>)
    requires
        forall|i: int| 0 <= i < q.len() ==> valid_power(#[trigger] q[i].rssi),
    ensures
        -(q.len() * POWER_BOUND) <= sum_powers(q) <= q.len() * POWER_BOUND,
    decreases q.len(),
{
    if q.len() > 0 {
        lemma_sum_powers_bound(q.drop_last());
    }
}

} // verus!
