//! Properties that relate several functions of the library.
use vstd::prelude::*;
use crate::gif::{GifFrame, color_bytes, frame_bytes, frame_header, lemma_color_bytes_len, lemma_sub_blocks_len, spec_encoded_frame_size, zeros};
use crate::image::gif_dimensions;
use crate::sampler::{spec_timeline_centiseconds, spec_timeline_delay};
use crate::error::AirecErrorView;
use crate::event::Event;
use crate::model::FailurePolicy;
use crate::records::{FailureRecord, SuccessRecord};
use crate::session::{SessionAggregator, SessionOutcome, session_error, started_count};
use crate::numbers::{lemma_decimal_digits_read_back, unsigned_reading};
use crate::resolve::{spec_monitor_target_id, strip_monitor_prefix};
use crate::text::spec_digits;
use crate::sampler::{SampleTiming, TimestampSampler, observed};
use crate::session::spec_automatic_stop;
use crate::event::{EventView, StopReason};
use crate::options::{DefaultsConfig, EffectsConfig, RecordingArgs, RecordingSettings, spec_settings};
use crate::protocol::final_events;
use crate::resolve::lemma_filter_push;
use crate::model::{CaptureTarget, MonitorInfo, WindowInfo};
use crate::targets::{PlanSource, TargetProblem, is_primary, lemma_first_monitor, lemma_no_monitor, sources_for};

verus! {

/// The size that `encoded_frame_size` predicts for a frame is the number of bytes that
/// `GifEncoder::write_frame` appends for it, whatever its delay.
pub proof fn lemma_predicted_size_is_written_size(image: GifFrame, delay: u16)
    requires
        image.wf(),
        image.local_palette ==> image.palette.colors@.len() <= 256,
    ensures
        frame_bytes(image, delay).len() == spec_encoded_frame_size(image),
{
    let minimum_code_size = image.palette.spec_minimum_code_size() as u8;
    let compressed = crate::lzw::lzw_bytes(image.indexed@, minimum_code_size);
    lemma_sub_blocks_len(compressed);
    lemma_color_bytes_len(image.palette.colors@);
    assert(frame_header(image, delay).len() == 18);
    if image.local_palette {
        let colors = image.palette.colors@.len();
        assert(colors <= image.palette.table_size);
        assert(image.palette.table_bytes().len() == 3 * colors + 3 * (image.palette.table_size - colors));
    }
}

/// The sum of the GIF delays of frames shown from each point to the next.
pub open spec fn total_delay(points: Seq<u64>) -> int
    decreases points.len(),
{
    if points.len() <= 1 {
        0
    } else {
        total_delay(points.drop_last()) + spec_timeline_delay(points[points.len() - 2], points.last())
    }
}

/// Frames timed by `timeline_delay_centiseconds` never run shorter than the source timeline
/// between the first and last point (both rounded to centiseconds), and run exactly as long
/// when every point rounds past the one before it.
pub proof fn lemma_delays_cover_timeline(points: Seq<u64>)
    requires
        points.len() >= 1,
        forall|i: int, j: int| 0 <= i <= j < points.len() ==> points[i] <= points[j],
    ensures
        total_delay(points) >= spec_timeline_centiseconds(points.last()) - spec_timeline_centiseconds(points[0]),
        (forall|i: int|
            0 <= i < points.len() - 1 ==> spec_timeline_centiseconds(points[i]) < spec_timeline_centiseconds(
                #[trigger] points[i + 1],
            )) ==> total_delay(points) == spec_timeline_centiseconds(points.last()) - spec_timeline_centiseconds(
            points[0],
        ),
    decreases points.len(),
{
    if points.len() > 1 {
        let rest = points.drop_last();
        assert forall|i: int, j: int| 0 <= i <= j < rest.len() implies rest[i] <= rest[j] by {
            assert(rest[i] == points[i] && rest[j] == points[j]);
        }
        lemma_delays_cover_timeline(rest);
        assert(rest[0] == points[0]);
        assert(rest.last() == points[points.len() - 2]);
        if forall|i: int|
            0 <= i < points.len() - 1 ==> spec_timeline_centiseconds(points[i]) < spec_timeline_centiseconds(
                #[trigger] points[i + 1],
            ) {
            assert forall|i: int| 0 <= i < rest.len() - 1 implies spec_timeline_centiseconds(rest[i])
                < spec_timeline_centiseconds(#[trigger] rest[i + 1]) by {
                assert(rest[i] == points[i] && rest[i + 1] == points[i + 1]);
                assert(spec_timeline_centiseconds(points[i]) < spec_timeline_centiseconds(points[i + 1]));
            }
            assert(spec_timeline_centiseconds(points[points.len() - 2]) < spec_timeline_centiseconds(
                points[points.len() - 2 + 1],
            ));
        }
    }
}

/// A GIF canvas never enlarges the video, respects the width limit, and keeps the aspect ratio:
/// the height is the width-scaled height rounded to nearest.
pub proof fn lemma_gif_dimensions_keep_aspect(width: u32, height: u32, max_width: Option<u32>)
    requires
        gif_dimensions(width, height, max_width) is Ok,
    ensures
        1 <= gif_dimensions(width, height, max_width)->Ok_0.0 <= width,
        1 <= gif_dimensions(width, height, max_width)->Ok_0.1 <= height,
        max_width is Some ==> gif_dimensions(width, height, max_width)->Ok_0.0 <= max_width->Some_0,
        gif_dimensions(width, height, max_width)->Ok_0.0 == width ==> gif_dimensions(width, height, max_width)->Ok_0.1 == height,
        gif_dimensions(width, height, max_width)->Ok_0.0 < width && gif_dimensions(width, height, max_width)->Ok_0.1 > 1
            ==> 2 * gif_dimensions(width, height, max_width)->Ok_0.1 * width <= 2 * height
            * gif_dimensions(width, height, max_width)->Ok_0.0 + width,
        gif_dimensions(width, height, max_width)->Ok_0.0 < width ==> 2 * height * gif_dimensions(width, height, max_width)->Ok_0.0
            <= 2 * gif_dimensions(width, height, max_width)->Ok_0.1 * width + width,
{
    let result = gif_dimensions(width, height, max_width)->Ok_0;
    let w = result.0;
    let h = result.1;
    if w < width {
        let rounded = (height * w + width / 2) / (width as int);
        assert(h == if rounded < 1 { 1 } else { rounded });
        assert(height * w <= height * width) by (nonlinear_arith)
            requires
                w <= width,
        ;
        assert(height * w + width / 2 < (height + 1) * width) by (nonlinear_arith)
            requires
                height * w <= height * width,
                width > 0,
        ;
        assert(rounded <= height) by (nonlinear_arith)
            requires
                rounded == (height * w + width / 2) / (width as int),
                height * w + width / 2 < (height + 1) * width,
                width > 0,
        ;
        assert(rounded * width <= height * w + width / 2 < rounded * width + width) by (nonlinear_arith)
            requires
                rounded == (height * w + width / 2) / (width as int),
                width > 0,
                height * w + width / 2 >= 0,
        ;
        assert(rounded * width <= h * width) by (nonlinear_arith)
            requires
                rounded <= h,
                width > 0,
        ;
        if h > 1 {
            assert(2 * h * width <= 2 * height * w + width) by (nonlinear_arith)
                requires
                    h == rounded,
                    rounded * width <= height * w + width / 2,
                    width > 0,
            ;
        }
        assert(2 * height * w <= 2 * h * width + width) by (nonlinear_arith)
            requires
                height * w + width / 2 < rounded * width + width,
                rounded * width <= h * width,
                width > 0,
        ;
    }
}

/// Letterboxing never crops: every pixel of the scaled box lands on the canvas, each at its
/// own canvas pixel, and the box is centred.
pub proof fn lemma_letterbox_fits_canvas(
    target_width: u32,
    target_height: u32,
    scaled_width: u32,
    scaled_height: u32,
    x: int,
    y: int,
)
    requires
        1 <= scaled_width <= target_width,
        1 <= scaled_height <= target_height,
        0 <= x < scaled_width,
        0 <= y < scaled_height,
    ensures
        ({
            let offset_x = (target_width - scaled_width) / 2;
            let offset_y = (target_height - scaled_height) / 2;
            &&& 0 <= offset_x + x < target_width
            &&& 0 <= offset_y + y < target_height
            &&& offset_x <= target_width - scaled_width - offset_x <= offset_x + 1
            &&& offset_y <= target_height - scaled_height - offset_y <= offset_y + 1
        }),
{
}

/// A session whose error is the one [`SessionAggregator::finish`](crate::session::SessionAggregator::finish)
/// reports ends with exit status 0 exactly when no target failed; when some targets were saved
/// and others failed it ends with status 6, whichever failure policy was chosen.
pub proof fn lemma_session_exit_status(
    error: Option<AirecErrorView>,
    policy: FailurePolicy,
    target_count: int,
    successes: Seq<SuccessRecord>,
    failures: Seq<FailureRecord>,
    exit_code: int,
)
    requires
        session_error(error, policy, target_count, successes, failures),
        exit_code == match error {
            Some(e) => e.code.spec_exit_code() as int,
            None => 0,
        },
    ensures
        exit_code == 0 <==> failures.len() == 0,
        successes.len() > 0 && failures.len() > 0 ==> exit_code == 6,
{
}

/// The index that `monitor_index` reads from the id `monitor_target_id` writes for a monitor is
/// that monitor's index.
pub proof fn lemma_monitor_id_reads_back(index: usize)
    ensures
        unsigned_reading(strip_monitor_prefix(spec_monitor_target_id(index)), 10, usize::MAX as nat)
            == Some(index as nat),
{
    let digits = spec_digits(index as nat, 10);
    let id = spec_monitor_target_id(index);
    reveal_strlit("monitor-");
    lemma_decimal_digits_read_back(index as nat);
    assert(id.take(8) =~= "monitor-"@);
    assert(id.skip(8) =~= digits);
    if digits.len() >= 8 {
        assert(digits.take(8)[0] != "monitor-"@[0]);
    }
    assert(strip_monitor_prefix(digits) == digits);
    assert(strip_monitor_prefix(id) == digits);
}

/// What a session loop emits when, after each step, it emits the events that step appended:
/// the parts emitted in turn over the snapshots of the event list.
pub open spec fn emitted_parts(snapshots: Seq<Seq<Event>>) -> Seq<Event>
    decreases snapshots.len(),
{
    if snapshots.len() <= 1 {
        Seq::empty()
    } else {
        let earlier = snapshots.drop_last();
        emitted_parts(earlier) + snapshots.last().skip(earlier.last().len() as int)
    }
}

/// A session that starts with no events and whose every step only appends to them (as
/// `SessionAggregator::receive`, `record_panicked_pipeline` and `finish` do) emits, step by
/// step, exactly its final events: in order, each once.
pub proof fn lemma_emitted_events_are_the_outcome(snapshots: Seq<Seq<Event>>)
    requires
        snapshots.len() >= 1,
        snapshots[0].len() == 0,
        forall|i: int|
            0 <= i < snapshots.len() - 1 ==> (#[trigger] snapshots[i]).len() <= snapshots[i + 1].len()
                && snapshots[i + 1].take(snapshots[i].len() as int) == snapshots[i],
    ensures
        emitted_parts(snapshots) == snapshots.last(),
    decreases snapshots.len(),
{
    if snapshots.len() == 1 {
        assert(snapshots.last() =~= Seq::<Event>::empty());
    } else {
        let earlier = snapshots.drop_last();
        assert forall|i: int| 0 <= i < earlier.len() - 1 implies (#[trigger] earlier[i]).len() <= earlier[i
            + 1].len() && earlier[i + 1].take(earlier[i].len() as int) == earlier[i] by {
            assert(earlier[i] == snapshots[i]);
            assert(earlier[i + 1] == snapshots[i + 1]);
        }
        lemma_emitted_events_are_the_outcome(earlier);
        let previous = snapshots[snapshots.len() - 2];
        assert(earlier.last() == previous);
        let last = snapshots.last();
        assert(last.take(previous.len() as int) == previous);
        assert(previous + last.skip(previous.len() as int) =~= last);
    }
}

/// A session publishes at most one `started` event of its own: if no pipeline forwarded one,
/// the finished session's events hold at most one.
pub proof fn lemma_at_most_one_started(aggregator: SessionAggregator, outcome: SessionOutcome)
    requires
        aggregator.wf(),
        aggregator.forwarded_started@ == 0,
        started_count(outcome.events@) == started_count(aggregator.events@),
    ensures
        started_count(outcome.events@) <= 1,
{
}

/// After a selected sample at relative time `t`, the next sampling slot is the first slot that
/// starts strictly after `t`: slot `k` starts at `k * 10^7 / fps` (in 100 ns units).
pub proof fn lemma_next_slot_follows_selected_sample(
    before: TimestampSampler,
    after: TimestampSampler,
    timestamp: i64,
    duration_hns: u64,
    timing: SampleTiming,
)
    requires
        1 <= before.fps,
        observed(before, after, timestamp, duration_hns, timing),
        timing.selected,
    ensures
        (after.next_sample_slot as int) * 10_000_000 > (timing.relative_hns as int) * (before.fps as int),
        (after.next_sample_slot as int - 1) * 10_000_000 <= (timing.relative_hns as int) * (before.fps as int),
{
    let x = (timing.relative_hns as int) * (before.fps as int);
    assert(x >= 0) by (nonlinear_arith)
        requires
            x == (timing.relative_hns as int) * (before.fps as int),
            timing.relative_hns >= 0,
            before.fps >= 1,
    ;
    let q = x / 10_000_000;
    assert(after.next_sample_slot == q + 1);
    assert(q * 10_000_000 <= x < (q + 1) * 10_000_000) by (nonlinear_arith)
        requires
            x >= 0,
            q == x / 10_000_000,
    ;
}

/// A sample at least one frame period (`10^7 / fps` in 100 ns units) after a selected sample
/// is selected too: a source whose frames are exactly `1/fps` apart has every frame kept.
pub proof fn lemma_sample_a_period_later_is_selected(
    first: TimestampSampler,
    second: TimestampSampler,
    third: TimestampSampler,
    timestamp: i64,
    next_timestamp: i64,
    duration_hns: u64,
    next_duration_hns: u64,
    timing: SampleTiming,
    next_timing: SampleTiming,
)
    requires
        1 <= first.fps,
        observed(first, second, timestamp, duration_hns, timing),
        timing.selected,
        observed(second, third, next_timestamp, next_duration_hns, next_timing),
        (next_timing.relative_hns as int - timing.relative_hns as int) * (first.fps as int) >= 10_000_000,
    ensures
        next_timing.selected,
{
    lemma_next_slot_follows_selected_sample(first, second, timestamp, duration_hns, timing);
    let f = first.fps as int;
    assert((next_timing.relative_hns as int) * f >= (timing.relative_hns as int) * f + 10_000_000) by (nonlinear_arith)
        requires
            (next_timing.relative_hns as int - timing.relative_hns as int) * f >= 10_000_000,
    ;
}

/// The recording stops on its own at the ceiling whether or not a duration was given, at the
/// requested duration when one was given, and otherwise keeps going.
pub proof fn lemma_automatic_stop_reasons(elapsed_ns: u128, duration_ns: Option<u128>, max_duration_ns: u128)
    ensures
        elapsed_ns >= max_duration_ns ==> spec_automatic_stop(elapsed_ns, duration_ns, max_duration_ns)
            == Some(StopReason::MaxDuration) || spec_automatic_stop(elapsed_ns, duration_ns, max_duration_ns)
            == Some(StopReason::DurationLimit),
        duration_ns matches Some(limit) && elapsed_ns >= limit ==> spec_automatic_stop(
            elapsed_ns,
            duration_ns,
            max_duration_ns,
        ) == Some(StopReason::DurationLimit),
        !(duration_ns matches Some(limit) && elapsed_ns >= limit) && elapsed_ns >= max_duration_ns
            ==> spec_automatic_stop(elapsed_ns, duration_ns, max_duration_ns) == Some(StopReason::MaxDuration),
        !(duration_ns matches Some(limit) && elapsed_ns >= limit) && elapsed_ns < max_duration_ns
            ==> spec_automatic_stop(elapsed_ns, duration_ns, max_duration_ns) is None,
{
}

/// `--cursor` and `--effects` turn their switch on, `--no-cursor` and `--no-effects` (without
/// the other) turn it off whatever the configuration says, and with neither flag the
/// configuration decides, on by default.
pub proof fn lemma_switch_flags(
    settings: RecordingSettings,
    args: RecordingArgs,
    defaults: DefaultsConfig,
    effects: EffectsConfig,
)
    requires
        spec_settings(settings, args, defaults, effects),
    ensures
        args.cursor ==> settings.cursor,
        args.no_cursor && !args.cursor ==> !settings.cursor,
        !args.cursor && !args.no_cursor ==> settings.cursor == match defaults.cursor {
            Some(on) => on,
            None => true,
        },
        args.effects ==> settings.effects,
        args.no_effects && !args.effects ==> !settings.effects,
        !args.effects && !args.no_effects ==> settings.effects == match defaults.effects {
            Some(on) => on,
            None => true,
        },
{
}

/// A stop request is answered with exactly the session's `saved`, `target_lost` and `error`
/// events, in their order: every saved file is reported, and nothing else is.
pub proof fn lemma_stop_answer_events(events: Seq<EventView>)
    ensures
        final_events(events) == events.filter(|event: EventView| event is Saved || event is TargetLost || event is Error),
    decreases events.len(),
{
    let keep = |event: EventView| event is Saved || event is TargetLost || event is Error;
    if events.len() == 0 {
        reveal(Seq::filter);
        assert(events.filter(keep) =~= Seq::<EventView>::empty());
    } else {
        lemma_stop_answer_events(events.drop_last());
        assert(events.drop_last().push(events.last()) =~= events);
        lemma_filter_push(events.drop_last(), keep, events.last());
    }
}

/// Recording the primary monitor picks the first listed monitor flagged primary; with none
/// flagged, it is the "primary monitor not found" problem.
pub proof fn lemma_primary_monitor_target(
    monitors: Seq<MonitorInfo>,
    windows: Seq<WindowInfo>,
    directory: bool,
    i: int,
)
    ensures
        0 <= i < monitors.len() && monitors[i].primary && (forall|j: int| 0 <= j < i ==> !(#[trigger] monitors[j]).primary)
            ==> sources_for(CaptureTarget::PrimaryMonitor, monitors, windows, directory) == Ok::<
            Seq<PlanSource>,
            TargetProblem,
        >(seq![PlanSource::Monitor(monitors[i], directory)]),
        (forall|j: int| 0 <= j < monitors.len() ==> !(#[trigger] monitors[j]).primary) ==> sources_for(
            CaptureTarget::PrimaryMonitor,
            monitors,
            windows,
            directory,
        ) == Err::<Seq<PlanSource>, TargetProblem>(TargetProblem::NoPrimary),
{
    if 0 <= i < monitors.len() && monitors[i].primary && (forall|j: int| 0 <= j < i ==> !(#[trigger] monitors[j]).primary) {
        assert forall|j: int| 0 <= j < i implies !is_primary()(#[trigger] monitors[j]) by {
            assert(!monitors[j].primary);
        }
        lemma_first_monitor(monitors, is_primary(), i);
    }
    if forall|j: int| 0 <= j < monitors.len() ==> !(#[trigger] monitors[j]).primary {
        assert forall|j: int| 0 <= j < monitors.len() implies !is_primary()(#[trigger] monitors[j]) by {
            assert(!monitors[j].primary);
        }
        lemma_no_monitor(monitors, is_primary());
    }
}

/// The first sample a sampler takes in is selected and starts the output timeline at zero.
pub proof fn lemma_first_sample_is_selected(
    before: TimestampSampler,
    after: TimestampSampler,
    timestamp: i64,
    duration_hns: u64,
    timing: SampleTiming,
)
    requires
        before.first_timestamp is None,
        before.next_sample_slot == 0,
        observed(before, after, timestamp, duration_hns, timing),
    ensures
        timing.selected,
        timing.relative_hns == 0,
        after.first_timestamp == Some(timestamp),
{
}

} // verus!
