//! Measure transfer speed
use crate::time::Duration;
use std::collections::VecDeque;
use std::time::Instant;
use vstd::prelude::*;

verus! {

/// A reading of the clock that only goes forward.
#[verifier::external_type_specification]
#[verifier::external_body]
pub struct ExInstant(Instant);

/// Entries into the queue.
#[derive(Debug)]
pub struct Entry {
    /// Nanoseconds since the speedometer was made.
    pub timestamp: u128,
    pub value: usize,
}

/// Measure speed in bytes/second.
#[derive(Debug)]
pub struct Speedometer {
    /// Size of the window over which we measure entries.
    pub window_size: Duration,
    pub queue: VecDeque<Entry>,
    pub total_value: usize,
    pub origin: Instant,
}

/// Calls `Instant::now`. Nothing can be said of what the clock shows.
#[verifier::external_body]
fn instant_now() -> (r: Instant) {
    Instant::now()
}

/// Calls `Instant::elapsed` and hands out nanoseconds. Nothing can be said of how long ago it was.
#[verifier::external_body]
fn elapsed_nanos(since: &Instant) -> (r: u128) {
    since.elapsed().as_nanos()
}

/// A data point: when it was entered, in nanoseconds, and its value.
pub type DataPoint = (nat, nat);

/// The sum of the values.
pub open spec fn total(points: Seq<DataPoint>) -> nat
    decreases points.len(),
{
    if points.len() == 0 {
        0
    } else {
        total(points.drop_last()) + points.last().1
    }
}

/// Whether a data point is older than the window.
pub open spec fn is_expired(point: DataPoint, now: nat, window: nat) -> bool {
    point.0 + window < now
}

/// The data points from the first one on that is not older than the window.
pub open spec fn recent(points: Seq<DataPoint>, now: nat, window: nat) -> Seq<DataPoint>
    decreases points.len(),
{
    if points.len() == 0 {
        points
    } else if is_expired(points[0], now, window) {
        recent(points.drop_first(), now, window)
    } else {
        points
    }
}

/// The average of the values, and zero where there are none.
pub open spec fn average(points: Seq<DataPoint>) -> nat {
    if points.len() == 0 {
        0
    } else {
        total(points) / points.len()
    }
}

proof fn lemma_total_first(points: Seq<DataPoint>)
    requires
        points.len() > 0,
    ensures
        total(points) == points[0].1 + total(points.drop_first()),
    decreases points.len(),
{
    if points.len() > 1 {
        lemma_total_first(points.drop_last());
        assert(points.drop_last().drop_first() =~= points.drop_first().drop_last());
    } else {
        assert(points.drop_first() =~= Seq::<DataPoint>::empty());
        assert(points.drop_last() =~= Seq::<DataPoint>::empty());
        assert(total(points.drop_last()) == 0);
    }
}

impl Speedometer {
    /// The data points that are held, oldest first.
    pub open spec fn points(self) -> Seq<DataPoint> {
        self.queue@.map_values(|entry: Entry| (entry.timestamp as nat, entry.value as nat))
    }

    /// The size of the window.
    pub open spec fn window(self) -> Duration {
        self.window_size
    }

    /// The window in nanoseconds.
    pub open spec fn window_nanos(self) -> nat {
        self.window().secs as nat * 1_000_000_000 + self.window().nanos as nat
    }

    /// The total that is kept is the sum of the values.
    pub open spec fn wf(self) -> bool {
        self.total_value == total(self.points())
    }

    /// Create a new instance.
    pub fn new(window_size: Duration) -> (r: Speedometer)
        ensures
            r.wf(),
            r.points().len() == 0,
            r.window() == window_size,
    {
        Speedometer { total_value: 0, queue: VecDeque::new(), window_size, origin: instant_now() }
    }

    /// Create a new instance with a queue of `capacity`.
    pub fn with_capacity(window_size: Duration, capacity: usize) -> (r: Speedometer)
        ensures
            r.wf(),
            r.points().len() == 0,
            r.window() == window_size,
    {
        Speedometer {
            total_value: 0,
            queue: VecDeque::with_capacity(capacity),
            window_size,
            origin: instant_now(),
        }
    }

    /// Create a new instance with a new queue. Useful if you have prior knowledge
    /// of how big the allocation for the queue should be.
    pub fn with_queue(window_size: Duration, queue: VecDeque<Entry>) -> (r: Speedometer)
        requires
            queue@.len() == 0,
        ensures
            r.wf(),
            r.points().len() == 0,
            r.window() == window_size,
    {
        Speedometer { total_value: 0, queue, window_size, origin: instant_now() }
    }

    /// Enter a data point at a time.
    pub fn entry_at(&mut self, value: usize, now: u128)
        requires
            old(self).wf(),
            total(old(self).points()) + value <= usize::MAX,
        ensures
            final(self).wf(),
            final(self).points() == old(self).points().push((now as nat, value as nat)),
            final(self).window() == old(self).window(),
    {
        self.total_value = self.total_value + value;
        self.queue.push_back(Entry { timestamp: now, value });
        assert(self.points() =~= old(self).points().push((now as nat, value as nat)));
        assert(self.points().drop_last() =~= old(self).points());
    }

    /// Enter a data point into the speedometer.
    pub fn entry(&mut self, value: usize)
        requires
            old(self).wf(),
            total(old(self).points()) + value <= usize::MAX,
        ensures
            final(self).wf(),
            final(self).window() == old(self).window(),
            final(self).points().len() == old(self).points().len() + 1,
            final(self).points().drop_last() == old(self).points(),
            final(self).points().last().1 == value,
    {
        let now = elapsed_nanos(&self.origin);
        self.entry_at(value, now);
        assert(self.points().drop_last() =~= old(self).points());
    }

    /// Measure the speed at a time: drops the data points that are older than the window and gives
    /// the average of the others.
    pub fn measure_at(&mut self, now: u128) -> (r: usize)
        requires
            old(self).wf(),
        ensures
            final(self).wf(),
            final(self).points() == recent(old(self).points(), now as nat, old(self).window_nanos()),
            r == average(final(self).points()),
            final(self).window() == old(self).window(),
    {
        let window: u128 = self.window_size.secs as u128 * 1_000_000_000
            + self.window_size.nanos as u128;
        while self.queue.len() > 0
            invariant
                self.wf(),
                window == self.window_nanos(),
                self.window_size == old(self).window_size,
                recent(self.points(), now as nat, window as nat) == recent(
                    old(self).points(),
                    now as nat,
                    window as nat,
                ),
            ensures
                self.wf(),
                window == self.window_nanos(),
                self.window_size == old(self).window_size,
                self.points() == recent(old(self).points(), now as nat, window as nat),
            decreases self.queue@.len(),
        {
            assert(self.points()[0] == (
                self.queue@[0].timestamp as nat,
                self.queue@[0].value as nat,
            ));
            if now < self.queue[0].timestamp || now - self.queue[0].timestamp <= window {
                break;
            }
            let ghost before = self.points();
            proof {
                lemma_total_first(before);
            }
            match self.queue.pop_front() {
                Some(entry) => {
                    assert(self.points() =~= before.drop_first());
                    self.total_value = self.total_value - entry.value;
                },
                None => {},
            }
        }
        if self.queue.len() == 0 {
            0
        } else {
            self.total_value / self.queue.len()
        }
    }

    /// Measure the speed.
    pub fn measure(&mut self) -> (r: usize)
        requires
            old(self).wf(),
        ensures
            final(self).wf(),
            final(self).window() == old(self).window(),
            exists|now: nat|
                final(self).points() == #[trigger] recent(
                    old(self).points(),
                    now,
                    old(self).window_nanos(),
                ),
            r == average(final(self).points()),
    {
        let now = elapsed_nanos(&self.origin);
        self.measure_at(now)
    }
}

impl Default for Speedometer {
    fn default() -> (r: Speedometer)
        ensures
            r.wf(),
            r.points().len() == 0,
            r.window() == (Duration { secs: 5, nanos: 0 }),
    {
        Speedometer::new(Duration { secs: 5, nanos: 0 })
    }
}

/// Once the window has passed since every data point, the speed is zero.
pub proof fn law_idle_speed_is_zero(points: Seq<DataPoint>, now: nat, window: nat)
    requires
        forall|i: int| 0 <= i < points.len() ==> is_expired(#[trigger] points[i], now, window),
    ensures
        average(recent(points, now, window)) == 0,
    decreases points.len(),
{
    if points.len() > 0 {
        assert(is_expired(points[0], now, window));
        let rest = points.drop_first();
        assert forall|i: int| 0 <= i < rest.len() implies is_expired(#[trigger] rest[i], now, window) by {
            assert(rest[i] == points[i + 1]);
        }
        law_idle_speed_is_zero(rest, now, window);
    }
}

/// What is measured is what was entered within the window, no more and no less, where data points
/// were entered in the order of their times.
pub proof fn law_window_decides_what_counts(
    points: Seq<DataPoint>,
    now: nat,
    window: nat,
    point: DataPoint,
)
    requires
        forall|i: int, j: int|
            0 <= i < j < points.len() ==> (#[trigger] points[i]).0 <= (#[trigger] points[j]).0,
    ensures
        recent(points, now, window).contains(point) == (points.contains(point) && now <= point.0
            + window),
        exists|k: int|
            0 <= k <= points.len() && recent(points, now, window) == #[trigger] points.skip(k),
    decreases points.len(),
{
    if points.len() == 0 {
        assert(points.skip(0) =~= points);
    } else if points[0].0 + window < now {
        let rest = points.drop_first();
        assert forall|i: int, j: int| 0 <= i < j < rest.len() implies (#[trigger] rest[i]).0 <= (
        #[trigger] rest[j]).0 by {
            assert(rest[i] == points[i + 1] && rest[j] == points[j + 1]);
        }
        law_window_decides_what_counts(rest, now, window, point);
        let k = choose|k: int| 0 <= k <= rest.len() && recent(rest, now, window) == #[trigger] rest.skip(k);
        assert(rest.skip(k) =~= points.skip(k + 1));
        if rest.contains(point) {
            let i = choose|i: int| 0 <= i < rest.len() && rest[i] == point;
            assert(points[i + 1] == point);
        }
        if points.contains(point) && now <= point.0 + window {
            let i = choose|i: int| 0 <= i < points.len() && points[i] == point;
            assert(rest[i - 1] == point);
        }
    } else {
        assert(points.skip(0) =~= points);
        assert forall|i: int| 0 <= i < points.len() implies points[0].0 <= (#[trigger] points[i]).0 by {
            if i > 0 {
                assert(points[0].0 <= points[i].0);
            }
        }
    }
}

/// The speed is the mean of what counts: as often as there are data points, it makes up their sum but
/// for less than one each.
pub proof fn law_speed_is_the_mean(points: Seq<DataPoint>, more: Seq<DataPoint>, point: DataPoint)
    ensures
        total(points + more) == total(points) + total(more),
        total(seq![point]) == point.1,
        points.len() > 0 ==> average(points) * points.len() <= total(points) < (average(points) + 1)
            * points.len(),
        average(seq![point]) == point.1,
    decreases more.len(),
{
    let one = seq![point];
    assert(one.drop_last() =~= Seq::<DataPoint>::empty());
    assert(total(one.drop_last()) == 0);
    assert(one.last() == point);
    if points.len() > 0 {
        let sum = total(points) as int;
        let n = points.len() as int;
        vstd::arithmetic::div_mod::lemma_fundamental_div_mod(sum, n);
        vstd::arithmetic::div_mod::lemma_mod_bound(sum, n);
        let mean = sum / n;
        assert(mean * n <= sum < (mean + 1) * n) by (nonlinear_arith)
            requires
                sum == n * mean + sum % n,
                0 <= sum % n < n,
        ;
    }
    if more.len() == 0 {
        assert(points + more =~= points);
    } else {
        law_speed_is_the_mean(points, more.drop_last(), point);
        assert((points + more).drop_last() =~= points + more.drop_last());
        assert((points + more).last() == more.last());
    }
}

} // verus!
