//! The keyframe schedule: a table of (cumulative end time, frame index) pairs,
//! built from segments of frames that share one playback duration.

use std::ops::Range;
use vstd::prelude::*;

verus! {

/// Number of frames in a half-open range; a range whose end does not exceed
/// its start holds none.
pub open spec fn frame_count(r: Range<usize>) -> nat {
    if r.start < r.end {
        (r.end - r.start) as nat
    } else {
        0
    }
}

/// Total number of frames over a list of segments.
pub open spec fn total_frames(segs: Seq<(Range<usize>, u64)>) -> nat
    decreases segs.len(),
{
    if segs.len() == 0 {
        0
    } else {
        total_frames(segs.drop_last()) + frame_count(segs.last().0)
    }
}

/// Sum of the durations (in milliseconds) of a list of segments.
pub open spec fn total_ms(segs: Seq<(Range<usize>, u64)>) -> nat
    decreases segs.len(),
{
    if segs.len() == 0 {
        0
    } else {
        total_ms(segs.drop_last()) + segs.last().1 as nat
    }
}

/// The end time of a table: its last cumulative time, or 0 when it is empty.
pub open spec fn end_time(tab: Seq<(int, usize)>) -> int {
    if tab.len() == 0 {
        0
    } else {
        tab.last().0
    }
}

/// The entries one segment adds after `base`: each frame of the range lasts
/// the segment's duration divided (whole milliseconds) by its frame count.
pub open spec fn segment_entries(base: int, seg: (Range<usize>, u64)) -> Seq<(int, usize)> {
    let n = frame_count(seg.0);
    Seq::new(n, |k: int| (base + (seg.1 as int / n as int) * (k + 1), (seg.0.start + k) as usize))
}

/// The table built from a list of segments, each continuing from where the
/// previous entries end.
pub open spec fn table_of(segs: Seq<(Range<usize>, u64)>) -> Seq<(int, usize)>
    decreases segs.len(),
{
    if segs.len() == 0 {
        seq![]
    } else {
        let prev = table_of(segs.drop_last());
        prev + segment_entries(end_time(prev), segs.last())
    }
}

/// The frame of the first entry whose end time lies strictly after `phase`.
pub open spec fn lookup(tab: Seq<(int, usize)>, phase: int) -> usize
    decreases tab.len(),
{
    if tab.len() == 0 {
        0
    } else if phase < tab[0].0 {
        tab[0].1
    } else {
        lookup(tab.drop_first(), phase)
    }
}

/// The frame shown at time `t`: the lookup of `t` taken modulo the period.
pub open spec fn frame_at(tab: Seq<(int, usize)>, t: int) -> usize {
    lookup(tab, t % end_time(tab))
}

/// The table with its times read as integers.
pub open spec fn times_view(v: Seq<(u64, usize)>) -> Seq<(int, usize)> {
    v.map_values(|e: (u64, usize)| (e.0 as int, e.1))
}

/// Segments that follow one another from frame 0 (each range starts where
/// the previous ended), each non-empty and lasting at least one millisecond
/// per frame.
pub open spec fn chained(segs: Seq<(Range<usize>, u64)>) -> bool {
    forall|i: int|
        0 <= i < segs.len() ==> {
            &&& (#[trigger] segs[i]).0.start < segs[i].0.end
            &&& segs[i].0.end - segs[i].0.start <= segs[i].1
            &&& segs[i].0.start == if i == 0 {
                0
            } else {
                segs[i - 1].0.end as int
            }
        }
}

/// End times that strictly increase along the table.
pub open spec fn strictly_increasing(tab: Seq<(int, usize)>) -> bool {
    forall|i: int, j: int| 0 <= i < j < tab.len() ==> tab[i].0 < tab[j].0
}

/// Error of a schedule built from no frames at all.
#[derive(Debug, Clone, Copy, PartialEq, Eq, Structural)]
pub struct EmptyScheduleError;

/// A looping schedule of frames with per-frame end times in milliseconds.
pub struct AnimatedKeyframes {
    /// The end time of each frame (in milliseconds from the start of the
    /// loop) and the frame's index.
    pub keyframes: Vec<(u64, usize)>,
}

impl View for AnimatedKeyframes {
    type V = Seq<(int, usize)>;

    open spec fn view(&self) -> Seq<(int, usize)> {
        times_view(self.keyframes@)
    }
}

/// The end time of the table built from segments never exceeds the sum of
/// their durations.
proof fn lemma_end_time_bounded(segs: Seq<(Range<usize>, u64)>)
    ensures
        0 <= end_time(table_of(segs)) <= total_ms(segs),
    decreases segs.len(),
{
    if segs.len() > 0 {
        let prev = table_of(segs.drop_last());
        lemma_end_time_bounded(segs.drop_last());
        let seg = segs.last();
        let n = frame_count(seg.0) as int;
        let d = seg.1 as int;
        if n > 0 {
            let tab = table_of(segs);
            assert(tab.last() == segment_entries(end_time(prev), seg)[n - 1]);
            assert((d / n) * n <= d) by (nonlinear_arith)
                requires n > 0, d >= 0;
            assert(d / n >= 0) by (nonlinear_arith)
                requires n > 0, d >= 0;
        } else {
            assert(table_of(segs) =~= prev);
        }
    }
}

/// Appending one segment to the list appends its entries to the table.
proof fn lemma_table_step(segs: Seq<(Range<usize>, u64)>, i: int)
    requires
        0 <= i < segs.len(),
    ensures
        table_of(segs.take(i + 1)) == table_of(segs.take(i)) + segment_entries(
            end_time(table_of(segs.take(i))),
            segs[i],
        ),
        total_ms(segs.take(i + 1)) == total_ms(segs.take(i)) + segs[i].1,
        total_frames(segs.take(i + 1)) == total_frames(segs.take(i)) + frame_count(segs[i].0),
{
    assert(segs.take(i + 1).drop_last() =~= segs.take(i));
}

/// The sums over a prefix never exceed the sums over the whole list.
proof fn lemma_prefix_sums(segs: Seq<(Range<usize>, u64)>, i: int)
    requires
        0 <= i <= segs.len(),
    ensures
        total_ms(segs.take(i)) <= total_ms(segs),
        total_frames(segs.take(i)) <= total_frames(segs),
    decreases segs.len() - i,
{
    if i < segs.len() {
        lemma_prefix_sums(segs, i + 1);
        lemma_table_step(segs, i);
    } else {
        assert(segs.take(i) =~= segs);
    }
}

impl AnimatedKeyframes {
    /// A schedule can be played when it has a frame and a positive period.
    pub open spec fn is_playable(&self) -> bool {
        self@.len() > 0 && end_time(self@) > 0
    }

    /// Builds the schedule of a list of (frame range, duration in
    /// milliseconds) segments. Each frame of a segment lasts the segment's
    /// duration divided, in whole milliseconds, by its number of frames, and
    /// each segment continues from where the previous one ended. Fails when
    /// the segments hold no frame at all.
    pub fn new(frames: Vec<(Range<usize>, u64)>) -> (r: Result<Self, EmptyScheduleError>)
        requires
            total_ms(frames@) <= u64::MAX,
        ensures
            match r {
                Ok(k) => total_frames(frames@) > 0 && k@ == table_of(frames@),
                Err(_) => total_frames(frames@) == 0,
            },
    {
        let mut keyframes: Vec<(u64, usize)> = Vec::with_capacity(Self::capacity_hint(&frames));
        let mut i: usize = 0;
        proof {
            assert(times_view(keyframes@) =~= table_of(frames@.take(0)));
        }
        while i < frames.len()
            invariant
                0 <= i <= frames.len(),
                total_ms(frames@) <= u64::MAX,
                times_view(keyframes@) == table_of(frames@.take(i as int)),
            decreases frames.len() - i,
        {
            proof {
                lemma_table_step(frames@, i as int);
                lemma_prefix_sums(frames@, i as int + 1);
                lemma_end_time_bounded(frames@.take(i as int));
            }
            let base: u64 = if keyframes.len() > 0 {
                keyframes[keyframes.len() - 1].0
            } else {
                0
            };
            Self::split_range_into_frame_durations(&frames[i].0, frames[i].1, base, &mut keyframes);
            i += 1;
        }
        proof {
            assert(frames@.take(frames@.len() as int) =~= frames@);
        }
        proof {
            lemma_table_len(frames@);
        }
        if keyframes.len() == 0 {
            Err(EmptyScheduleError)
        } else {
            Ok(AnimatedKeyframes { keyframes })
        }
    }

    /// Builds the schedule of `frames` frames (indices `0..frames`) that
    /// share `duration_ms` evenly. Fails when `frames` is 0.
    pub fn new_smooth(frames: usize, duration_ms: u64) -> (r: Result<Self, EmptyScheduleError>)
        ensures
            match r {
                Ok(k) => frames > 0 && k@ == table_of(seq![(0..frames, duration_ms)]),
                Err(_) => frames == 0,
            },
    {
        let segs = vec![(0..frames, duration_ms)];
        proof {
            assert(segs@ =~= seq![(0..frames, duration_ms)]);
            assert(segs@.drop_last() =~= Seq::<(Range<usize>, u64)>::empty());
            assert(total_ms(segs@.drop_last()) == 0);
            assert(total_ms(segs@) == duration_ms);
            assert(total_frames(segs@.drop_last()) == 0);
            assert(total_frames(segs@) == frames);
        }
        Self::new(segs)
    }

    /// The length of one loop of the schedule: the end time of its last
    /// frame, or 0 when it has none.
    pub fn period(&self) -> (r: u64)
        ensures
            r == end_time(self@),
    {
        if self.keyframes.len() == 0 {
            0
        } else {
            self.keyframes[self.keyframes.len() - 1].0
        }
    }

    /// The frame shown `current_millis` milliseconds after the start: the
    /// time is taken modulo the period, and the frame is that of the first
    /// entry ending strictly after it.
    pub fn frame_of_animation(&self, current_millis: u64) -> (r: usize)
        requires
            self.is_playable(),
        ensures
            r == frame_at(self@, current_millis as int),
    {
        let len = self.keyframes.len();
        let last = self.keyframes[len - 1].0;
        let in_frame: u64 = current_millis % last;
        let ghost tab = self@;
        let mut i: usize = 0;
        proof {
            assert(tab.subrange(0, tab.len() as int) =~= tab);
            assert(end_time(tab) == last as int);
        }
        loop
            invariant
                0 <= i < len,
                len == self.keyframes@.len(),
                tab == self@,
                last as int == tab[len - 1].0,
                in_frame < last,
                in_frame as int == current_millis as int % end_time(tab),
                lookup(tab, in_frame as int) == lookup(tab.subrange(i as int, len as int), in_frame as int),
            decreases len - i,
        {
            let entry = self.keyframes[i];
            if in_frame < entry.0 {
                proof {
                    assert(tab[i as int] == (entry.0 as int, entry.1));
                    assert(tab.subrange(i as int, len as int)[0] == tab[i as int]);
                }
                return entry.1;
            }
            proof {
                assert(tab.subrange(i as int, len as int).drop_first() =~= tab.subrange(i as int + 1, len as int));
            }
            i += 1;
        }
    }

    /// The number of frames the segments hold, as many as fit in a `usize`.
    fn capacity_hint(frames: &Vec<(Range<usize>, u64)>) -> (r: usize)
        ensures
            r == if total_frames(frames@) <= usize::MAX {
                total_frames(frames@)
            } else {
                usize::MAX as nat
            },
    {
        let mut total: usize = 0;
        let mut i: usize = 0;
        while i < frames.len()
            invariant
                0 <= i <= frames.len(),
                total == if total_frames(frames@.take(i as int)) <= usize::MAX {
                    total_frames(frames@.take(i as int))
                } else {
                    usize::MAX as nat
                },
            decreases frames.len() - i,
        {
            proof {
                lemma_table_step(frames@, i as int);
            }
            let r = &frames[i].0;
            let n: usize = if r.start < r.end {
                r.end - r.start
            } else {
                0
            };
            total = total.saturating_add(n);
            i += 1;
        }
        proof {
            assert(frames@.take(frames@.len() as int) =~= frames@);
        }
        total
    }

    /// Appends to `target` the entries of one segment: frame `start + k` ends
    /// at `base + (duration_ms / count) * (k + 1)`.
    fn split_range_into_frame_durations(
        frames: &Range<usize>,
        duration_ms: u64,
        base: u64,
        target: &mut Vec<(u64, usize)>,
    )
        requires
            base + duration_ms <= u64::MAX,
        ensures
            times_view(final(target)@) == times_view(old(target)@) + segment_entries(
                base as int,
                (*frames, duration_ms),
            ),
    {
        let ghost entries = segment_entries(base as int, (*frames, duration_ms));
        if frames.start >= frames.end {
            proof {
                assert(times_view(target@) =~= times_view(target@) + entries);
            }
            return;
        }
        let count: usize = frames.end - frames.start;
        let per_frame: u64 = duration_ms / (count as u64);
        let mut frame: usize = frames.start;
        proof {
            assert(times_view(target@) =~= times_view(old(target)@) + entries.take(0));
        }
        while frame < frames.end
            invariant
                frames.start <= frame <= frames.end,
                count == frames.end - frames.start,
                count > 0,
                per_frame == duration_ms / (count as u64),
                base + duration_ms <= u64::MAX,
                entries == segment_entries(base as int, (*frames, duration_ms)),
                times_view(target@) == times_view(old(target)@) + entries.take(
                    frame - frames.start,
                ),
            decreases frames.end - frame,
        {
            let k: usize = frame - frames.start;
            proof {
                let c = count as int;
                let d = duration_ms as int;
                let p = per_frame as int;
                assert(p * c <= d) by (nonlinear_arith)
                    requires p == d / c, c > 0, d >= 0;
                assert(p * (k + 1) <= p * c) by (nonlinear_arith)
                    requires k + 1 <= c, p >= 0;
            }
            let end: u64 = base + per_frame * (k as u64 + 1);
            let ghost before = target@;
            target.push((end, frame));
            proof {
                assert(times_view(target@) =~= times_view(before).push((end as int, frame)));
                assert(entries[k as int] == (end as int, frame));
                assert(entries.take(k + 1) =~= entries.take(k as int).push(entries[k as int]));
            }
            frame += 1;
        }
        proof {
            assert(entries.take(count as int) =~= entries);
        }
    }
}

/// The lookup returns the frame of entry `i` when `i` is the first entry
/// ending strictly after `phase`.
proof fn lemma_lookup_at(tab: Seq<(int, usize)>, phase: int, i: int)
    requires
        0 <= i < tab.len(),
        tab[i].0 > phase,
        forall|j: int| 0 <= j < i ==> tab[j].0 <= phase,
    ensures
        lookup(tab, phase) == tab[i].1,
    decreases i,
{
    if i > 0 {
        lemma_lookup_at(tab.drop_first(), phase, i - 1);
    }
}

/// A phase before the end of the table finds one of the table's frames.
proof fn lemma_lookup_in_table(tab: Seq<(int, usize)>, phase: int)
    requires
        tab.len() > 0,
        phase < tab.last().0,
    ensures
        exists|i: int| 0 <= i < tab.len() && tab[i].1 == lookup(tab, phase),
    decreases tab.len(),
{
    if phase >= tab[0].0 {
        lemma_lookup_in_table(tab.drop_first(), phase);
        let i = choose|i: int|
            0 <= i < tab.drop_first().len() && tab.drop_first()[i].1 == lookup(
                tab.drop_first(),
                phase,
            );
        assert(tab[i + 1].1 == lookup(tab, phase));
    } else {
        assert(tab[0].1 == lookup(tab, phase));
    }
}

/// Entries whose end times are positive and where entry `i` shows frame `i`.
pub open spec fn indexed_positive(tab: Seq<(int, usize)>) -> bool {
    forall|i: int| 0 <= i < tab.len() ==> tab[i].0 > 0 && tab[i].1 == i
}

/// Dropping the last segment keeps the segments chained.
proof fn lemma_chained_prefix(segs: Seq<(Range<usize>, u64)>)
    requires
        chained(segs),
        segs.len() > 0,
    ensures
        chained(segs.drop_last()),
{
    let s0 = segs.drop_last();
    assert forall|i: int| 0 <= i < s0.len() implies {
        &&& (#[trigger] s0[i]).0.start < s0[i].0.end
        &&& s0[i].0.end - s0[i].0.start <= s0[i].1
        &&& s0[i].0.start == if i == 0 {
            0
        } else {
            s0[i - 1].0.end as int
        }
    } by {
        assert(segs[i] == s0[i]);
    }
}

/// Appending the entries of a segment that starts at the table's length and
/// lasts at least a millisecond per frame keeps the table's shape.
proof fn lemma_append_shape(prev: Seq<(int, usize)>, seg: (Range<usize>, u64))
    requires
        strictly_increasing(prev),
        indexed_positive(prev),
        prev.len() == seg.0.start,
        seg.0.start < seg.0.end,
        seg.0.end - seg.0.start <= seg.1,
    ensures
        strictly_increasing(prev + segment_entries(end_time(prev), seg)),
        indexed_positive(prev + segment_entries(end_time(prev), seg)),
{
    let n = frame_count(seg.0) as int;
    let d = seg.1 as int;
    let p = d / n;
    let base = end_time(prev);
    let e = segment_entries(base, seg);
    let tab = prev + e;
    assert(p >= 1) by (nonlinear_arith)
        requires n > 0, n <= d, p == d / n;
    assert(base >= 0);
    assert forall|j: int| 0 <= j < prev.len() implies prev[j].0 <= base by {
        if j < prev.len() - 1 {
            assert(prev[j].0 < prev[prev.len() - 1].0);
        }
    }
    assert forall|k: int| 0 <= k < e.len() implies e[k].0 > base && e[k].1 == prev.len() + k by {
        assert(p * (k + 1) >= 1) by (nonlinear_arith)
            requires p >= 1, k >= 0;
    }
    assert forall|i: int, j: int| 0 <= i < j < tab.len() implies tab[i].0 < tab[j].0 by {
        if j >= prev.len() {
            let kj = j - prev.len();
            assert(tab[j] == e[kj]);
            if i >= prev.len() {
                let ki = i - prev.len();
                assert(tab[i] == e[ki]);
                assert(p * (ki + 1) < p * (kj + 1)) by (nonlinear_arith)
                    requires p >= 1, ki < kj;
            } else {
                assert(tab[i] == prev[i]);
            }
        } else {
            assert(tab[i] == prev[i] && tab[j] == prev[j]);
        }
    }
    assert forall|i: int| 0 <= i < tab.len() implies tab[i].0 > 0 && tab[i].1 == i by {
        if i >= prev.len() {
            assert(tab[i] == e[i - prev.len()]);
        } else {
            assert(tab[i] == prev[i]);
        }
    }
}

/// A schedule built from segments that follow one another from frame 0, with
/// at least one millisecond per frame, has one entry per frame, end times that
/// are positive and strictly increase, and entry `i` showing frame `i`; so its
/// last entry shows the last frame.
pub proof fn lemma_table_shape(segs: Seq<(Range<usize>, u64)>)
    requires
        chained(segs),
    ensures
        table_of(segs).len() == total_frames(segs),
        strictly_increasing(table_of(segs)),
        indexed_positive(table_of(segs)),
        total_frames(segs) > 0 ==> table_of(segs).last().1 == total_frames(segs) - 1,
    decreases segs.len(),
{
    lemma_table_len(segs);
    if segs.len() > 0 {
        let s0 = segs.drop_last();
        lemma_chained_prefix(segs);
        lemma_table_shape(s0);
        let seg = segs.last();
        assert(segs[segs.len() - 1] == seg);
        if s0.len() > 0 {
            lemma_chain_total(s0);
            assert(s0.last() == segs[segs.len() - 2]);
        }
        lemma_append_shape(table_of(s0), seg);
    }
}

/// Over segments that follow one another from frame 0, the frame count is
/// where the last range ends.
proof fn lemma_chain_total(segs: Seq<(Range<usize>, u64)>)
    requires
        chained(segs),
        segs.len() > 0,
    ensures
        total_frames(segs) == segs.last().0.end,
    decreases segs.len(),
{
    let s0 = segs.drop_last();
    assert(segs[segs.len() - 1] == segs.last());
    if s0.len() > 0 {
        lemma_chained_prefix(segs);
        lemma_chain_total(s0);
        assert(s0.last() == segs[segs.len() - 2]);
    } else {
        assert(total_frames(s0) == 0);
    }
}

/// For a playable schedule, the frame at any time is one of the table's
/// frames, and adding whole periods to the time does not change it.
pub proof fn lemma_frame_periodic(sched: AnimatedKeyframes, t: nat, k: nat)
    requires
        sched.is_playable(),
    ensures
        exists|i: int| 0 <= i < sched@.len() && sched@[i].1 == frame_at(sched@, t as int),
        frame_at(sched@, t + k * end_time(sched@)) == frame_at(sched@, t as int),
{
    let tab = sched@;
    let p = end_time(tab);
    vstd::arithmetic::div_mod::lemma_mod_bound(t as int, p);
    lemma_lookup_in_table(tab, t as int % p);
    vstd::arithmetic::div_mod::lemma_mod_multiples_vanish(k as int, t as int, p);
    assert(p * k + t == t + k * p) by (nonlinear_arith);
}

/// In a schedule whose end times are positive and strictly increase, the end
/// time `c` of entry `i` belongs to the frame that starts there (the next
/// entry, or the first one when `c` ends the loop), while the millisecond
/// before it belongs to entry `i` itself.
pub proof fn lemma_frame_boundary(sched: AnimatedKeyframes, i: int)
    requires
        sched.is_playable(),
        strictly_increasing(sched@),
        sched@[0].0 > 0,
        0 <= i < sched@.len(),
    ensures
        frame_at(sched@, sched@[i].0) == sched@[(i + 1) % sched@.len() as int].1,
        frame_at(sched@, sched@[i].0 - 1) == sched@[i].1,
{
    let tab = sched@;
    let len = tab.len() as int;
    let p = end_time(tab);
    let c = tab[i].0;
    assert(c > 0 && c <= p) by {
        if i > 0 {
            assert(tab[0].0 < tab[i].0);
        }
        if i < len - 1 {
            assert(tab[i].0 < tab[len - 1].0);
        }
    }
    vstd::arithmetic::div_mod::lemma_small_mod((c - 1) as nat, p as nat);
    lemma_lookup_at(tab, c - 1, i);
    if i < len - 1 {
        assert(tab[i].0 < tab[len - 1].0);
        vstd::arithmetic::div_mod::lemma_small_mod(c as nat, p as nat);
        lemma_lookup_at(tab, c, i + 1);
        vstd::arithmetic::div_mod::lemma_small_mod((i + 1) as nat, len as nat);
    } else {
        vstd::arithmetic::div_mod::lemma_mod_self_0(p);
        lemma_lookup_at(tab, 0, 0);
        vstd::arithmetic::div_mod::lemma_mod_self_0(len);
    }
}

/// Two schedules with the same table show the same frame at the same time:
/// the lookup depends on the table and the time alone.
pub proof fn lemma_frame_deterministic(a: AnimatedKeyframes, b: AnimatedKeyframes, t: nat)
    requires
        a@ == b@,
    ensures
        frame_at(a@, t as int) == frame_at(b@, t as int),
{
}

/// The table has one entry per frame of the segments.
proof fn lemma_table_len(segs: Seq<(Range<usize>, u64)>)
    ensures
        table_of(segs).len() == total_frames(segs),
    decreases segs.len(),
{
    if segs.len() > 0 {
        lemma_table_len(segs.drop_last());
    }
}

} // verus!
