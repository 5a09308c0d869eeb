//! Tick timing and health metrics.
//!
//! The game runs on a fixed 20 Hz clock. What matters operationally is not the
//! average but the tail: one 300 ms tick is felt by every player, while a
//! slightly raised mean is not. The metrics here therefore keep a window of
//! recent samples so percentiles can be reported, rather than a running mean
//! that hides spikes.

use std::collections::VecDeque;

use vstd::prelude::*;

use crate::protocol::json;
use crate::protocol::types;
use crate::protocol::types::Float64;

verus! {

/// A span of time in whole nanoseconds.
#[derive(Debug, Clone, Copy, PartialEq, Eq, Structural)]
pub struct Duration {
    pub nanos: u128,
}

impl Duration {
    #[must_use]
    pub fn from_millis(millis: u64) -> (span: Self)
        ensures
            span.nanos == millis * 1_000_000,
    {
        Duration { nanos: millis as u128 * 1_000_000 }
    }

    #[must_use]
    pub fn as_millis(&self) -> (millis: u128)
        ensures
            millis == self.nanos / 1_000_000,
    {
        self.nanos / 1_000_000
    }

    #[must_use]
    pub fn as_nanos(&self) -> (nanos: u128)
        ensures
            nanos == self.nanos,
    {
        self.nanos
    }
}

/// Rolling tick-time statistics.
#[derive(Debug)]
pub struct TickMetrics {
    window: VecDeque<Duration>,
    capacity: usize,
    target: Duration,
    total_ticks: u64,
    overrun_ticks: u64,
}

/// The last samples, `capacity` of them at most.
pub open spec fn recent(samples: Seq<Duration>, capacity: int) -> Seq<Duration> {
    if samples.len() <= capacity {
        samples
    } else {
        samples.skip(samples.len() - capacity)
    }
}

/// How many overruns a tick is: one where it took longer than it should.
pub open spec fn overruns(elapsed: Duration, goal: Duration) -> int {
    if elapsed.nanos > goal.nanos {
        1
    } else {
        0
    }
}

/// Whether ticks of that mean keep up with the time that they should take.
pub open spec fn keeps_up(samples: Seq<Duration>, mean: Float64, target: Float64) -> bool {
    samples.len() == 0 || types::at_most64(mean.bits, target.bits)
}

/// The longest of some spans, none of them being the empty one.
pub open spec fn is_longest(samples: Seq<Duration>, longest: Duration) -> bool {
    &&& samples.contains(longest)
    &&& forall|i: int| 0 <= i < samples.len() ==> (#[trigger] samples[i]).nanos <= longest.nanos
}

/// How many samples are no longer than `limit`.
pub open spec fn count_up_to(samples: Seq<Duration>, limit: Duration) -> nat
    decreases samples.len(),
{
    if samples.len() == 0 {
        0
    } else {
        count_up_to(samples.drop_last(), limit) + if samples.last().nanos <= limit.nanos {
            1nat
        } else {
            0nat
        }
    }
}

/// The sample at a rank: one that as many samples as the rank are no longer
/// than, and the shortest such.
pub open spec fn has_rank(samples: Seq<Duration>, rank: int, sample: Duration) -> bool {
    &&& samples.contains(sample)
    &&& count_up_to(samples, sample) >= rank
    &&& forall|i: int|
        0 <= i < samples.len() && count_up_to(samples, #[trigger] samples[i]) >= rank
            ==> sample.nanos <= samples[i].nanos
}

/// The one-line report, given the rate and the times as text.
pub open spec fn summary_text(
    tps: Seq<char>,
    mean: Seq<char>,
    p95: Seq<char>,
    max: Seq<char>,
    overruns: u64,
    ticks: u64,
) -> Seq<char> {
    "TPS "@ + tps + " | MSPT mean "@ + mean + " p95 "@ + p95 + " max "@ + max + " | "@
        + json::decimal(overruns as int) + " overruns of "@ + json::decimal(ticks as int)
        + " ticks"@
}

/// A rank among `len` samples: no less than the first, and no more than the
/// last.
pub open spec fn clamped_rank(rank: int, len: int) -> int {
    if rank < 1 {
        1
    } else if rank > len {
        len
    } else {
        rank
    }
}

impl TickMetrics {
    /// The samples in the window, oldest first.
    pub closed spec fn samples_kept(&self) -> Seq<Duration> {
        self.window@
    }

    /// How many samples the window holds at most.
    pub closed spec fn room(&self) -> usize {
        self.capacity
    }

    /// The duration that a tick should take.
    pub closed spec fn goal(&self) -> Duration {
        self.target
    }

    /// Ticks recorded over the whole life of the metrics.
    pub closed spec fn recorded(&self) -> u64 {
        self.total_ticks
    }

    /// Recorded ticks that took longer than the goal.
    pub closed spec fn overran(&self) -> u64 {
        self.overrun_ticks
    }

    /// The window holds something, never more than its room, and never more
    /// than was recorded.
    pub open spec fn wf(&self) -> bool {
        &&& self.room() > 0
        &&& self.samples_kept().len() <= self.room()
        &&& self.samples_kept().len() <= self.recorded()
        &&& self.overran() <= self.recorded()
    }

    /// Keeps `capacity` recent samples. At 20 Hz, 1200 samples is one minute.
    #[must_use]
    pub fn new(target: Duration, capacity: usize) -> (metrics: Self)
        requires
            capacity > 0,
        ensures
            metrics.wf(),
            metrics.samples_kept() == Seq::<Duration>::empty(),
            metrics.room() == capacity,
            metrics.goal() == target,
            metrics.recorded() == 0,
            metrics.overran() == 0,
    {
        TickMetrics {
            window: VecDeque::with_capacity(capacity),
            capacity,
            target,
            total_ticks: 0,
            overrun_ticks: 0,
        }
    }

    /// Records how long one tick's work took.
    pub fn record(&mut self, elapsed: Duration)
        requires
            old(self).wf(),
            old(self).recorded() < u64::MAX,
        ensures
            final(self).wf(),
            final(self).room() == old(self).room(),
            final(self).goal() == old(self).goal(),
            final(self).samples_kept() == recent(
                old(self).samples_kept().push(elapsed),
                old(self).room() as int,
            ),
            final(self).recorded() == old(self).recorded() + 1,
            final(self).overran() == old(self).overran() + if elapsed.nanos > old(
                self,
            ).goal().nanos {
                1int
            } else {
                0int
            },
            final(self).overran() == old(self).overran() + overruns(elapsed, old(self).goal()),
    {
        if self.window.len() == self.capacity {
            let _ = self.window.pop_front();
        }
        self.window.push_back(elapsed);
        self.total_ticks = self.total_ticks + 1;
        if elapsed.nanos > self.target.nanos {
            self.overrun_ticks = self.overrun_ticks + 1;
        }
        assert(self.samples_kept() =~= recent(
            old(self).samples_kept().push(elapsed),
            old(self).room() as int,
        ));
    }

    #[must_use]
    pub fn total_ticks(&self) -> (ticks: u64)
        ensures
            ticks == self.recorded(),
    {
        self.total_ticks
    }

    /// Ticks that took longer than the target duration.
    #[must_use]
    pub fn overrun_ticks(&self) -> (ticks: u64)
        ensures
            ticks == self.overran(),
    {
        self.overrun_ticks
    }

    #[must_use]
    pub fn samples(&self) -> (samples: usize)
        ensures
            samples == self.samples_kept().len(),
    {
        self.window.len()
    }

    /// The duration that a tick should take.
    #[must_use]
    pub fn target(&self) -> (target: Duration)
        ensures
            target == self.goal(),
    {
        self.target
    }

    /// The samples in the window, oldest first.
    #[must_use]
    pub fn window(&self) -> (samples: Vec<Duration>)
        ensures
            samples@ == self.samples_kept(),
    {
        let mut samples: Vec<Duration> = Vec::with_capacity(self.window.len());
        let mut i: usize = 0;
        while i < self.window.len()
            invariant
                i <= self.window@.len(),
                samples@ == self.window@.take(i as int),
            decreases self.window@.len() - i,
        {
            samples.push(self.window[i]);
            assert(samples@ =~= self.window@.take(i + 1));
            i += 1;
        }
        assert(self.window@.take(i as int) =~= self.window@);
        samples
    }

    /// The longest sample in the window.
    #[must_use]
    pub fn max_sample(&self) -> (longest: Option<Duration>)
        ensures
            longest is None <==> self.samples_kept().len() == 0,
            longest matches Some(d) ==> is_longest(self.samples_kept(), d),
    {
        if self.window.len() == 0 {
            return None;
        }
        let mut longest: Duration = self.window[0];
        let mut i: usize = 1;
        while i < self.window.len()
            invariant
                1 <= i <= self.window@.len(),
                self.window@.contains(longest),
                forall|k: int| 0 <= k < i ==> (#[trigger] self.window@[k]).nanos <= longest.nanos,
            decreases self.window@.len() - i,
        {
            let sample: Duration = self.window[i];
            if sample.nanos > longest.nanos {
                longest = sample;
            }
            i += 1;
        }
        Some(longest)
    }

    /// The sample at a nearest rank: the shortest that at least `rank` samples
    /// are no longer than. Ranks outside the window are moved to its ends.
    #[must_use]
    pub fn sample_at_rank(&self, rank: usize) -> (sample: Option<Duration>)
        ensures
            sample is None <==> self.samples_kept().len() == 0,
            sample matches Some(d) ==> has_rank(
                self.samples_kept(),
                clamped_rank(rank as int, self.samples_kept().len() as int),
                d,
            ),
    {
        let len: usize = self.window.len();
        if len == 0 {
            return None;
        }
        let rank: usize = if rank < 1 {
            1
        } else if rank > len {
            len
        } else {
            rank
        };
        let ghost all = self.window@;
        let mut best: Option<Duration> = None;
        let mut i: usize = 0;
        while i < len
            invariant
                i <= len,
                len == self.window@.len(),
                all == self.window@,
                best matches Some(d) ==> all.contains(d) && count_up_to(all, d) >= rank,
                forall|k: int|
                    0 <= k < i && count_up_to(all, #[trigger] all[k]) >= rank ==> (best is Some
                        && best->0.nanos <= all[k].nanos),
            decreases len - i,
        {
            let sample: Duration = self.window[i];
            let count: usize = self.count_no_longer(sample);
            if count >= rank {
                match best {
                    Some(found) => {
                        if sample.nanos < found.nanos {
                            best = Some(sample);
                        }
                    },
                    None => {
                        best = Some(sample);
                    },
                }
            }
            i += 1;
        }
        proof {
            let longest = choose|j: int|
                0 <= j < all.len() && is_longest(all, #[trigger] all[j]);
            lemma_longest_exists(all);
            lemma_all_counted(all, all[longest]);
        }
        best
    }

    /// Whether the server is currently keeping up: whether the mean over the
    /// window is within the duration that a tick should take, both given in
    /// milliseconds. With nothing in the window it is.
    #[must_use]
    pub fn is_healthy(&self, mean_mspt: Float64, target_mspt: Float64) -> (healthy: bool)
        ensures
            healthy == (self.samples_kept().len() == 0 || types::at_most64(
                mean_mspt.bits,
                target_mspt.bits,
            )),
            healthy == keeps_up(self.samples_kept(), mean_mspt, target_mspt),
    {
        self.window.len() == 0 || mean_mspt.at_most(target_mspt)
    }

    /// One-line summary for logs, given the rate and the times as text.
    #[must_use]
    pub fn summary(&self, tps: &str, mean: &str, p95: &str, max: &str) -> (line: String)
        ensures
            line@ == summary_text(tps@, mean@, p95@, max@, self.overran(), self.recorded()),
    {
        let mut line = "TPS ".to_owned();
        line.append(tps);
        line.append(" | MSPT mean ");
        line.append(mean);
        line.append(" p95 ");
        line.append(p95);
        line.append(" max ");
        line.append(max);
        line.append(" | ");
        line.append(json::number(self.overrun_ticks as i128).as_str());
        line.append(" overruns of ");
        line.append(json::number(self.total_ticks as i128).as_str());
        line.append(" ticks");
        line
    }

    /// How many samples are no longer than `limit`.
    fn count_no_longer(&self, limit: Duration) -> (count: usize)
        ensures
            count == count_up_to(self.samples_kept(), limit),
    {
        let mut count: usize = 0;
        let mut i: usize = 0;
        assert(self.window@.take(0) =~= Seq::<Duration>::empty());
        while i < self.window.len()
            invariant
                i <= self.window@.len(),
                count <= i,
                count == count_up_to(self.window@.take(i as int), limit),
            decreases self.window@.len() - i,
        {
            assert(self.window@.take(i + 1).drop_last() =~= self.window@.take(i as int));
            if self.window[i].nanos <= limit.nanos {
                count += 1;
            }
            i += 1;
        }
        assert(self.window@.take(i as int) =~= self.window@);
        count
    }
}

/// Among some samples there is a longest one.
proof fn lemma_longest_exists(samples: Seq<Duration>)
    requires
        samples.len() > 0,
    ensures
        exists|j: int| 0 <= j < samples.len() && is_longest(samples, #[trigger] samples[j]),
    decreases samples.len(),
{
    if samples.len() == 1 {
        assert(is_longest(samples, samples[0]));
    } else {
        let before = samples.drop_last();
        lemma_longest_exists(before);
        let j = choose|j: int| 0 <= j < before.len() && is_longest(before, #[trigger] before[j]);
        let last = samples.len() - 1;
        assert(before[j] == samples[j]);
        assert forall|i: int| 0 <= i < before.len() implies (#[trigger] samples[i]).nanos
            <= samples[j].nanos by {
            assert(before[i] == samples[i]);
        }
        if samples[last].nanos > samples[j].nanos {
            assert(is_longest(samples, samples[last]));
        } else {
            assert(is_longest(samples, samples[j]));
        }
    }
}

/// Every sample is no longer than the longest.
proof fn lemma_all_counted(samples: Seq<Duration>, limit: Duration)
    requires
        forall|i: int| 0 <= i < samples.len() ==> (#[trigger] samples[i]).nanos <= limit.nanos,
    ensures
        count_up_to(samples, limit) == samples.len(),
    decreases samples.len(),
{
    if samples.len() > 0 {
        lemma_all_counted(samples.drop_last(), limit);
    }
}

/// The window keeps the latest samples in the order in which they came: as many
/// as there are, up to its room.
pub proof fn law_window_is_latest(samples: Seq<Duration>, room: int, i: int)
    requires
        room > 0,
    ensures
        recent(samples, room).len() == if samples.len() < room {
            samples.len() as int
        } else {
            room
        },
        0 <= i < recent(samples, room).len() ==> recent(samples, room)[recent(samples, room).len()
            - 1 - i] == samples[samples.len() - 1 - i],
{
}

/// A tick that took as long as it should, or less, is no overrun; one that took
/// any longer is.
pub proof fn law_overruns(goal: Duration, elapsed: Duration)
    ensures
        elapsed.nanos <= goal.nanos <==> overruns(elapsed, goal) == 0,
        elapsed.nanos >= goal.nanos + 1 <==> overruns(elapsed, goal) == 1,
{
}

/// A server without a sample is healthy, whatever its mean. With one it is where
/// the mean is the target, or of a smaller pattern than it, both without a sign;
/// a mean that is no number is not.
pub proof fn law_health(samples: Seq<Duration>, mean: Float64, target: Float64)
    ensures
        samples.len() == 0 ==> keeps_up(samples, mean, target),
        samples.len() > 0 && mean.bits <= 0x7FF0_0000_0000_0000 && target.bits
            <= 0x7FF0_0000_0000_0000 ==> (keeps_up(samples, mean, target) <==> mean.bits
            <= target.bits),
        samples.len() > 0 && 0x7FF0_0000_0000_0000 < mean.bits < 0x8000_0000_0000_0000
            ==> !keeps_up(samples, mean, target),
{
    types::law_order_of_doubles(mean.bits, target.bits);
}

/// How many samples are shorter than `limit`.
pub open spec fn count_below(samples: Seq<Duration>, limit: Duration) -> nat
    decreases samples.len(),
{
    if samples.len() == 0 {
        0
    } else {
        count_below(samples.drop_last(), limit) + if samples.last().nanos < limit.nanos {
            1nat
        } else {
            0nat
        }
    }
}

/// The longest of the samples that are shorter than `limit`, where there are
/// any.
proof fn lemma_longest_below(samples: Seq<Duration>, limit: Duration) -> (found: int)
    requires
        count_below(samples, limit) > 0,
    ensures
        0 <= found < samples.len(),
        samples[found].nanos < limit.nanos,
        forall|i: int|
            0 <= i < samples.len() && (#[trigger] samples[i]).nanos < limit.nanos
                ==> samples[i].nanos <= samples[found].nanos,
    decreases samples.len(),
{
    let rest = samples.drop_last();
    let last = samples.len() - 1;
    if count_below(rest, limit) == 0 {
        lemma_none_below(rest, limit);
        assert forall|i: int|
            0 <= i < samples.len() && (#[trigger] samples[i]).nanos
                < limit.nanos implies samples[i].nanos <= samples[last].nanos by {
            if i < last {
                assert(rest[i] == samples[i]);
            }
        }
        last
    } else {
        let found = lemma_longest_below(rest, limit);
        assert(rest[found] == samples[found]);
        assert forall|i: int|
            0 <= i < last && (#[trigger] samples[i]).nanos < limit.nanos implies samples[i].nanos
            <= samples[found].nanos by {
            assert(rest[i] == samples[i]);
        }
        if samples[found].nanos < samples[last].nanos < limit.nanos {
            last
        } else {
            found
        }
    }
}

proof fn lemma_none_below(samples: Seq<Duration>, limit: Duration)
    requires
        count_below(samples, limit) == 0,
    ensures
        forall|i: int| 0 <= i < samples.len() ==> (#[trigger] samples[i]).nanos >= limit.nanos,
    decreases samples.len(),
{
    if samples.len() > 0 {
        let rest = samples.drop_last();
        lemma_none_below(rest, limit);
        assert forall|i: int| 0 <= i < samples.len() implies (#[trigger] samples[i]).nanos
            >= limit.nanos by {
            if i < rest.len() {
                assert(rest[i] == samples[i]);
            }
        }
    }
}

/// Samples shorter than `limit` are no longer than the longest of them.
proof fn lemma_below_counted(samples: Seq<Duration>, limit: Duration, longest: Duration)
    requires
        longest.nanos < limit.nanos,
        forall|i: int|
            0 <= i < samples.len() && (#[trigger] samples[i]).nanos < limit.nanos
                ==> samples[i].nanos <= longest.nanos,
    ensures
        count_below(samples, limit) == count_up_to(samples, longest),
    decreases samples.len(),
{
    if samples.len() > 0 {
        let rest = samples.drop_last();
        assert forall|i: int|
            0 <= i < rest.len() && (#[trigger] rest[i]).nanos < limit.nanos implies rest[i].nanos
            <= longest.nanos by {
            assert(rest[i] == samples[i]);
        }
        lemma_below_counted(rest, limit, longest);
        assert(samples[samples.len() - 1] == samples.last());
    }
}

/// In the order of their length, the sample at a rank has fewer samples than the
/// rank before it, and with it and its equals there are at least as many.
pub proof fn law_rank_counts(samples: Seq<Duration>, rank: int, sample: Duration)
    requires
        rank >= 1,
        has_rank(samples, rank, sample),
    ensures
        samples.contains(sample),
        count_below(samples, sample) < rank <= count_up_to(samples, sample),
{
    if count_below(samples, sample) >= rank {
        let found = lemma_longest_below(samples, sample);
        lemma_below_counted(samples, sample, samples[found]);
    }
}

/// A rank inside the window is taken as it is; one before it is the first, and
/// one behind it the last.
pub proof fn law_ranks_lie_in_the_window(rank: int, len: int)
    requires
        len >= 1,
    ensures
        1 <= clamped_rank(rank, len) <= len,
        1 <= rank <= len ==> clamped_rank(rank, len) == rank,
        rank < 1 ==> clamped_rank(rank, len) == 1,
        rank > len ==> clamped_rank(rank, len) == len,
{
}

/// The report begins with the rate and the mean, and ends with the overruns and
/// the ticks that they are counted among; between them stand the 95th percentile
/// and the longest.
pub proof fn law_report_is_in_order(
    tps: Seq<char>,
    mean: Seq<char>,
    p95: Seq<char>,
    max: Seq<char>,
    overruns: u64,
    ticks: u64,
)
    ensures
        ({
            let report = summary_text(tps, mean, p95, max, overruns, ticks);
            let head = "TPS "@ + tps + " | MSPT mean "@ + mean;
            let tail = json::decimal(overruns as int) + " overruns of "@ + json::decimal(
                ticks as int,
            ) + " ticks"@;
            &&& head.is_prefix_of(report)
            &&& tail.is_suffix_of(report)
            &&& report.subrange(head.len() as int, report.len() - tail.len()) == " p95 "@ + p95
                + " max "@ + max + " | "@
        }),
{
}

/// The longest sample is a sample, none is longer, and it is the one at the last
/// rank.
pub proof fn law_longest_is_last(samples: Seq<Duration>, longest: Duration, i: int)
    requires
        is_longest(samples, longest),
    ensures
        samples.contains(longest),
        0 <= i < samples.len() ==> samples[i].nanos <= longest.nanos,
        count_up_to(samples, longest) == samples.len(),
{
    lemma_all_counted(samples, longest);
}

} // verus!
