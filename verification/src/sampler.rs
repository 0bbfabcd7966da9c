use vstd::prelude::*;

verus! {

/// Media Foundation time units (100 ns) per second.
pub const HNS_PER_SECOND: u64 = 10_000_000;
/// GIF delay units (centiseconds) per second.
pub const GIF_TIME_UNITS_PER_SECOND: u64 = 100;

/// A source timestamp in centiseconds, rounded to nearest (halves up).
pub open spec fn spec_timeline_centiseconds(timestamp_hns: u64) -> int {
    (timestamp_hns * 100 + 5_000_000) / 10_000_000
}

pub fn timeline_centiseconds(timestamp_hns: u64) -> (centiseconds: u64)
    ensures
        centiseconds == spec_timeline_centiseconds(timestamp_hns),
{
    let wide: u128 = timestamp_hns as u128;
    assert(wide * 100 <= 0xffff_ffff_ffff_ffffu128 * 100) by (nonlinear_arith)
        requires
            wide <= 0xffff_ffff_ffff_ffffu128,
    ;
    let scaled: u128 = wide * 100 + 5_000_000;
    let result: u128 = scaled / 10_000_000;
    assert(result <= u64::MAX) by (nonlinear_arith)
        requires
            result == (timestamp_hns * 100 + 5_000_000) / 10_000_000,
            timestamp_hns <= u64::MAX,
    ;
    result as u64
}

/// The GIF delay of a frame shown from `start_hns` to `end_hns`: the difference of the two
/// rounded timeline positions, and at least one centisecond.
pub open spec fn spec_timeline_delay(start_hns: u64, end_hns: u64) -> int {
    let difference = spec_timeline_centiseconds(end_hns) - spec_timeline_centiseconds(start_hns);
    if difference < 1 {
        1
    } else {
        difference
    }
}

pub fn timeline_delay_centiseconds(start_hns: u64, end_hns: u64) -> (delay: u64)
    ensures
        delay == spec_timeline_delay(start_hns, end_hns),
{
    let end = timeline_centiseconds(end_hns);
    let start = timeline_centiseconds(start_hns);
    if end > start && end - start > 1 {
        end - start
    } else {
        1
    }
}

/// The index of the first sampling slot that lies after `relative_hns` at `fps`.
pub open spec fn slot_after(relative_hns: u64, fps: u32) -> int {
    (relative_hns as int) * (fps as int) / (HNS_PER_SECOND as int) + 1
}

/// Where a decoded sample lies on the output timeline and whether it is kept.
pub struct SampleTiming {
    pub relative_hns: u64,
    pub selected: bool,
}

/// Selects decoded samples at a fixed rate while it tracks where the source ends.
pub struct TimestampSampler {
    pub fps: u32,
    pub first_timestamp: Option<i64>,
    pub next_sample_slot: u64,
    pub source_end_hns: u64,
    pub last_source_timestamp_hns: Option<u64>,
    pub last_positive_delta_hns: Option<u64>,
    pub last_sample_duration_hns: u64,
}

/// `timestamp - base`, saturating at the bounds of `i64`, and zero when negative.
pub open spec fn relative_to(timestamp: i64, base: i64) -> int {
    let difference = timestamp - base;
    if difference <= 0 {
        0
    } else if difference > i64::MAX {
        i64::MAX as int
    } else {
        difference
    }
}

/// Whether `after` and `timing` are what taking in a sample with `timestamp` and
/// `duration_hns` makes of `before` (see [`TimestampSampler::observe`]).
pub open spec fn observed(
    before: TimestampSampler,
    after: TimestampSampler,
    timestamp: i64,
    duration_hns: u64,
    timing: SampleTiming,
) -> bool {
    let base = match before.first_timestamp {
        Some(base) => base,
        None => timestamp,
    };
    let relative = relative_to(timestamp, base);
    let selected = (relative * (before.fps as int)) >= (before.next_sample_slot as int)
        * (HNS_PER_SECOND as int);
    &&& timing.relative_hns == relative
    &&& timing.selected == selected
    &&& after.fps == before.fps
    &&& after.first_timestamp == Some(base)
    &&& after.next_sample_slot == if selected {
        slot_after(timing.relative_hns, before.fps)
    } else {
        before.next_sample_slot as int
    }
    &&& after.last_positive_delta_hns == match before.last_source_timestamp_hns {
        Some(previous) if relative > previous => Some((relative - previous) as u64),
        _ => before.last_positive_delta_hns,
    }
    &&& after.last_source_timestamp_hns == Some(relative as u64)
    &&& after.last_sample_duration_hns == duration_hns
    &&& after.source_end_hns == if before.source_end_hns >= relative + duration_hns
        || relative + duration_hns > u64::MAX && before.source_end_hns == u64::MAX {
        before.source_end_hns as int
    } else if relative + duration_hns > u64::MAX {
        u64::MAX as int
    } else {
        relative + duration_hns
    }
}

impl TimestampSampler {
    pub fn new(fps: u32) -> (sampler: TimestampSampler)
        ensures
            sampler.fps == fps,
            sampler.first_timestamp is None,
            sampler.next_sample_slot == 0,
            sampler.source_end_hns == 0,
            sampler.last_source_timestamp_hns is None,
            sampler.last_positive_delta_hns is None,
            sampler.last_sample_duration_hns == 0,
    {
        TimestampSampler {
            fps,
            first_timestamp: None,
            next_sample_slot: 0,
            source_end_hns: 0,
            last_source_timestamp_hns: None,
            last_positive_delta_hns: None,
            last_sample_duration_hns: 0,
        }
    }

    /// Takes in one decoded sample. Its time is measured from the first sample; it is selected
    /// when it reaches the next sampling slot, after which the next slot is the first one past
    /// it. The end of the source, the last timestamp, the last positive timestamp step and the
    /// last sample duration are tracked for the final frame.
    pub fn observe(&mut self, timestamp: i64, duration_hns: u64) -> (timing: SampleTiming)
        requires
            1 <= old(self).fps <= 100,
        ensures
            observed(*old(self), *final(self), timestamp, duration_hns, timing),
    {
        let base: i64 = match self.first_timestamp {
            Some(base) => base,
            None => timestamp,
        };
        self.first_timestamp = Some(base);
        let difference: i128 = timestamp as i128 - base as i128;
        let relative_hns: u64 = if difference <= 0 {
            0
        } else if difference > i64::MAX as i128 {
            i64::MAX as u64
        } else {
            difference as u64
        };
        match self.last_source_timestamp_hns {
            Some(previous) => {
                if relative_hns > previous {
                    self.last_positive_delta_hns = Some(relative_hns - previous);
                }
            },
            None => {},
        }
        self.last_source_timestamp_hns = Some(relative_hns);
        self.last_sample_duration_hns = duration_hns;
        let end: u64 = if relative_hns <= u64::MAX - duration_hns {
            relative_hns + duration_hns
        } else {
            u64::MAX
        };
        if end > self.source_end_hns {
            self.source_end_hns = end;
        }
        let relative_wide: u128 = relative_hns as u128;
        let fps_wide: u128 = self.fps as u128;
        assert(relative_wide * fps_wide <= 0xffff_ffff_ffff_ffffu128 * 100) by (nonlinear_arith)
            requires
                relative_wide <= 0xffff_ffff_ffff_ffffu128,
                fps_wide <= 100,
        ;
        let position: u128 = relative_wide * fps_wide;
        let hns: u128 = HNS_PER_SECOND as u128;
        let selected = position >= self.next_sample_slot as u128 * hns;
        if selected {
            let slot: u128 = position / hns + 1;
            assert(slot <= u64::MAX) by (nonlinear_arith)
                requires
                    slot == position / hns + 1,
                    position == relative_hns * (self.fps as int),
                    relative_hns <= i64::MAX,
                    self.fps <= 100,
                    hns == 10_000_000,
            ;
            self.next_sample_slot = slot as u64;
        }
        SampleTiming { relative_hns, selected }
    }

    /// The nominal duration of one output frame, rounded up.
    pub open spec fn nominal_frame_hns(self) -> int {
        (HNS_PER_SECOND as int + self.fps - 1) / (self.fps as int)
    }

    /// Where the source ends, so that the last frame keeps its length: the latest sample end
    /// seen, or the last timestamp plus the last sample duration (or, lacking one, the last
    /// positive timestamp step or the nominal frame), whichever is later; at least one nominal
    /// frame after the last frame's start.
    pub open spec fn spec_end_hns(self, last_frame_start_hns: u64) -> int {
        let final_frame_duration = if self.last_sample_duration_hns != 0 {
            self.last_sample_duration_hns as int
        } else {
            match self.last_positive_delta_hns {
                Some(delta) => delta as int,
                None => self.nominal_frame_hns(),
            }
        };
        let last = match self.last_source_timestamp_hns {
            Some(last) => last as int,
            None => last_frame_start_hns as int,
        };
        let inferred = if last + final_frame_duration > u64::MAX {
            u64::MAX as int
        } else {
            last + final_frame_duration
        };
        let end = if self.source_end_hns >= inferred {
            self.source_end_hns as int
        } else {
            inferred
        };
        if end > last_frame_start_hns {
            end
        } else if last_frame_start_hns + self.nominal_frame_hns() > u64::MAX {
            u64::MAX as int
        } else {
            last_frame_start_hns + self.nominal_frame_hns()
        }
    }

    pub fn end_hns(&self, last_frame_start_hns: u64) -> (end: u64)
        requires
            1 <= self.fps <= 100,
        ensures
            end == self.spec_end_hns(last_frame_start_hns),
    {
        let nominal: u64 = (HNS_PER_SECOND + self.fps as u64 - 1) / self.fps as u64;
        let final_frame_duration: u64 = if self.last_sample_duration_hns != 0 {
            self.last_sample_duration_hns
        } else {
            match self.last_positive_delta_hns {
                Some(delta) => delta,
                None => nominal,
            }
        };
        let last: u64 = match self.last_source_timestamp_hns {
            Some(last) => last,
            None => last_frame_start_hns,
        };
        let inferred: u64 = if last <= u64::MAX - final_frame_duration {
            last + final_frame_duration
        } else {
            u64::MAX
        };
        let end: u64 = if self.source_end_hns >= inferred {
            self.source_end_hns
        } else {
            inferred
        };
        if end > last_frame_start_hns {
            end
        } else if last_frame_start_hns <= u64::MAX - nominal {
            last_frame_start_hns + nominal
        } else {
            u64::MAX
        }
    }
}

} // verus!
