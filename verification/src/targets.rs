//! Turning the requested capture targets into concrete monitors and windows with output files.
use vstd::prelude::*;
use crate::error::{AirecError, ErrorCode, ErrorData, ErrorDataView};
use crate::model::{CaptureTarget, MonitorInfo, ResolvedTarget, TargetKind, WindowInfo, duplicate_monitors, duplicate_windows};
use crate::resolve::{
    match_process, match_title, monitor_target_id, process_matches, resolve_monitor, resolve_window,
    spec_monitor_target_id, spec_window_target_id, target_file_name, title_matches, window_target_id,
};
use crate::text::{digits, spec_digits, string_from_chars};

verus! {

/// A resolved target and where its file goes: inside the output directory under the name in
/// `target.output`, or at the output path itself.
pub struct PlannedTarget {
    pub target: ResolvedTarget,
    pub in_directory: bool,
}

/// What a planned target records: a monitor or a window, and whether its file goes inside the
/// output directory.
pub enum PlanSource {
    Monitor(MonitorInfo, bool),
    Window(WindowInfo, bool),
}

/// Why a requested target could not be resolved.
pub enum TargetProblem {
    NoPrimary,
    NoMonitor(usize),
    Title(Seq<char>),
    NoHandle(isize),
    Process(Seq<char>),
}

/// The first monitor with `index`, if any.
pub open spec fn first_monitor(monitors: Seq<MonitorInfo>, wanted: spec_fn(MonitorInfo) -> bool) -> Option<MonitorInfo>
    decreases monitors.len(),
{
    if monitors.len() == 0 {
        None
    } else if wanted(monitors[0]) {
        Some(monitors[0])
    } else {
        first_monitor(monitors.skip(1), wanted)
    }
}

/// The first window with handle `hwnd`, if any.
pub open spec fn first_window_with_handle(windows: Seq<WindowInfo>, hwnd: isize) -> Option<WindowInfo>
    decreases windows.len(),
{
    if windows.len() == 0 {
        None
    } else if windows[0].hwnd == hwnd {
        Some(windows[0])
    } else {
        first_window_with_handle(windows.skip(1), hwnd)
    }
}

pub open spec fn is_primary() -> spec_fn(MonitorInfo) -> bool {
    |monitor: MonitorInfo| monitor.primary
}

pub open spec fn has_index(index: usize) -> spec_fn(MonitorInfo) -> bool {
    |monitor: MonitorInfo| monitor.index == index
}

/// What one requested target resolves to.
pub open spec fn sources_for(target: CaptureTarget, monitors: Seq<MonitorInfo>, windows: Seq<WindowInfo>, directory: bool) -> Result<Seq<PlanSource>, TargetProblem> {
    match target {
        CaptureTarget::PrimaryMonitor => match first_monitor(monitors, is_primary()) {
            Some(monitor) => Ok(seq![PlanSource::Monitor(monitor, directory)]),
            None => Err(TargetProblem::NoPrimary),
        },
        CaptureTarget::Monitor(index) => match first_monitor(monitors, has_index(index)) {
            Some(monitor) => Ok(seq![PlanSource::Monitor(monitor, directory)]),
            None => Err(TargetProblem::NoMonitor(index)),
        },
        CaptureTarget::AllMonitors => Ok(Seq::new(monitors.len(), |i: int| PlanSource::Monitor(monitors[i], true))),
        CaptureTarget::WindowTitle(query) => {
            let matches = title_matches(windows, query@);
            if matches.len() == 1 {
                Ok(seq![PlanSource::Window(matches[0], directory)])
            } else {
                Err(TargetProblem::Title(query@))
            }
        },
        CaptureTarget::WindowHandle(hwnd) => match first_window_with_handle(windows, hwnd) {
            Some(window) => Ok(seq![PlanSource::Window(window, directory)]),
            None => Err(TargetProblem::NoHandle(hwnd)),
        },
        CaptureTarget::Process(query) => {
            let matches = process_matches(windows, query@);
            if matches.len() == 0 {
                Err(TargetProblem::Process(query@))
            } else {
                Ok(Seq::new(matches.len(), |i: int| PlanSource::Window(matches[i], matches.len() > 1 || directory)))
            }
        },
    }
}

/// What the requested targets resolve to, in order, or the first that cannot be resolved.
pub open spec fn plan_sources(targets: Seq<CaptureTarget>, monitors: Seq<MonitorInfo>, windows: Seq<WindowInfo>, directory: bool) -> Result<Seq<PlanSource>, TargetProblem>
    decreases targets.len(),
{
    if targets.len() == 0 {
        Ok(Seq::empty())
    } else {
        match plan_sources(targets.drop_last(), monitors, windows, directory) {
            Err(problem) => Err(problem),
            Ok(earlier) => match sources_for(targets.last(), monitors, windows, directory) {
                Err(problem) => Err(problem),
                Ok(more) => Ok(earlier + more),
            },
        }
    }
}

/// Whether `planned` is the target that `source` stands for, with `output` as the output path.
pub open spec fn is_plan(planned: PlannedTarget, source: PlanSource, output: Seq<char>) -> bool {
    let target = planned.target;
    match source {
        PlanSource::Monitor(monitor, directory) => {
            &&& target.kind == TargetKind::Monitor
            &&& target.id@ == spec_monitor_target_id(monitor.index)
            &&& target.title == Some(monitor.name)
            &&& target.process is None
            &&& target.hwnd is None
            &&& target.width == monitor.width
            &&& target.height == monitor.height
            &&& !target.minimized
            &&& planned.in_directory == directory
            &&& directory ==> target.output@ == target.id@ + ".mp4"@
            &&& !directory ==> target.output@ == output
        },
        PlanSource::Window(window, directory) => {
            &&& target.kind == TargetKind::Window
            &&& target.id@ == spec_window_target_id(window.title@, window.hwnd)
            &&& target.title == Some(window.title)
            &&& target.process == Some(window.process)
            &&& target.hwnd == Some(window.hwnd)
            &&& target.width == window.width
            &&& target.height == window.height
            &&& target.minimized == window.minimized
            &&& planned.in_directory == directory
            &&& directory ==> target.output@ == target.id@ + ".mp4"@
            &&& !directory ==> target.output@ == output
        },
    }
}

/// `{}` of an `isize`.
pub open spec fn signed_decimal(value: isize) -> Seq<char> {
    if value < 0 {
        "-"@ + spec_digits((-value) as nat, 10)
    } else {
        spec_digits(value as nat, 10)
    }
}

/// Whether `error` reports `problem`.
pub open spec fn reports_problem(error: AirecError, problem: TargetProblem, monitors: Seq<MonitorInfo>, windows: Seq<WindowInfo>) -> bool {
    match problem {
        TargetProblem::NoPrimary => {
            &&& error.code == ErrorCode::TargetNotFound
            &&& error.message@ == "primary monitor not found"@
            &&& error.data == ErrorData::Empty
        },
        TargetProblem::NoMonitor(index) => {
            &&& error.code == ErrorCode::TargetNotFound
            &&& error.message@ == "monitor "@ + spec_digits(index as nat, 10) + " not found"@
            &&& error.data@ == (ErrorDataView::MonitorCandidates { index, candidates: monitors })
        },
        TargetProblem::Title(query) => {
            let matches = title_matches(windows, query);
            &&& matches.len() == 0 ==> error.code == ErrorCode::TargetNotFound && error.message@
                == "no window matches title '"@ + query + "'"@
            &&& matches.len() > 1 ==> error.code == ErrorCode::AmbiguousTarget && error.message@
                == "more than one window matches title '"@ + query + "'"@
            &&& error.data is Candidates
            &&& error.data->Candidates_query is Some && error.data->Candidates_query->0@ == query
            &&& matches.len() == 0 ==> error.data->Candidates_candidates@ == Seq::<WindowInfo>::empty()
            &&& matches.len() > 1 ==> error.data->Candidates_candidates@ == matches
        },
        TargetProblem::NoHandle(hwnd) => {
            &&& error.code == ErrorCode::TargetNotFound
            &&& error.message@ == "window handle "@ + signed_decimal(hwnd) + " not found"@
            &&& error.data@ == (ErrorDataView::HandleCandidates { hwnd, candidates: windows })
        },
        TargetProblem::Process(query) => {
            &&& error.code == ErrorCode::TargetNotFound
            &&& error.message@ == "no window belongs to process '"@ + query + "'"@
            &&& error.data is Candidates
            &&& error.data->Candidates_query is Some && error.data->Candidates_query->0@ == query
            &&& error.data->Candidates_candidates@ == Seq::<WindowInfo>::empty()
        },
    }
}

fn plan_monitor(monitor: &MonitorInfo, output: &str, directory: bool) -> (planned: PlannedTarget)
    ensures
        is_plan(planned, PlanSource::Monitor(*monitor, directory), output@),
{
    let location = if directory {
        target_file_name(monitor_target_id(monitor.index).as_str())
    } else {
        String::from_str(output)
    };
    let target = resolve_monitor(monitor.index, monitor.name.clone(), monitor.width, monitor.height, location);
    PlannedTarget { target, in_directory: directory }
}

fn plan_window(window: &WindowInfo, output: &str, directory: bool) -> (planned: PlannedTarget)
    ensures
        is_plan(planned, PlanSource::Window(*window, directory), output@),
{
    let location = if directory {
        target_file_name(window_target_id(window.title.as_str(), window.hwnd).as_str())
    } else {
        String::from_str(output)
    };
    let target = resolve_window(window, location);
    PlannedTarget { target, in_directory: directory }
}

pub(crate) proof fn lemma_first_monitor(monitors: Seq<MonitorInfo>, wanted: spec_fn(MonitorInfo) -> bool, i: int)
    requires
        0 <= i < monitors.len(),
        wanted(monitors[i]),
        forall|j: int| 0 <= j < i ==> !wanted(#[trigger] monitors[j]),
    ensures
        first_monitor(monitors, wanted) == Some(monitors[i]),
    decreases i,
{
    if i > 0 {
        assert(!wanted(monitors[0]));
        assert forall|j: int| 0 <= j < i - 1 implies !wanted(#[trigger] monitors.skip(1)[j]) by {
            assert(monitors.skip(1)[j] == monitors[j + 1]);
        }
        lemma_first_monitor(monitors.skip(1), wanted, i - 1);
    }
}

pub(crate) proof fn lemma_no_monitor(monitors: Seq<MonitorInfo>, wanted: spec_fn(MonitorInfo) -> bool)
    requires
        forall|j: int| 0 <= j < monitors.len() ==> !wanted(#[trigger] monitors[j]),
    ensures
        first_monitor(monitors, wanted) is None,
    decreases monitors.len(),
{
    if monitors.len() > 0 {
        assert(!wanted(monitors[0]));
        assert forall|j: int| 0 <= j < monitors.len() - 1 implies !wanted(#[trigger] monitors.skip(1)[j]) by {
            assert(monitors.skip(1)[j] == monitors[j + 1]);
        }
        lemma_no_monitor(monitors.skip(1), wanted);
    }
}

proof fn lemma_first_handle(windows: Seq<WindowInfo>, hwnd: isize, i: int)
    requires
        0 <= i <= windows.len(),
        i < windows.len() ==> windows[i].hwnd == hwnd,
        forall|j: int| 0 <= j < i ==> (#[trigger] windows[j]).hwnd != hwnd,
    ensures
        i < windows.len() ==> first_window_with_handle(windows, hwnd) == Some(windows[i]),
        i == windows.len() ==> first_window_with_handle(windows, hwnd) is None,
    decreases i,
{
    if i > 0 {
        assert(windows[0].hwnd != hwnd);
        assert forall|j: int| 0 <= j < i - 1 implies (#[trigger] windows.skip(1)[j]).hwnd != hwnd by {
            assert(windows.skip(1)[j] == windows[j + 1]);
        }
        if i < windows.len() {
            assert(windows.skip(1)[i - 1] == windows[i]);
        }
        lemma_first_handle(windows.skip(1), hwnd, i - 1);
    }
}

/// Appends the plans for one requested target, or reports why it cannot be resolved.
fn plan_one(
    target: &CaptureTarget,
    monitors: &[MonitorInfo],
    windows: &[WindowInfo],
    output: &str,
    directory: bool,
    planned: &mut Vec<PlannedTarget>,
    Ghost(sources): Ghost<Seq<PlanSource>>,
) -> (result: Result<(), AirecError>)
    requires
        old(planned)@.len() == sources.len(),
        forall|k: int| 0 <= k < sources.len() ==> is_plan(#[trigger] old(planned)@[k], sources[k], output@),
    ensures
        match sources_for(*target, monitors@, windows@, directory) {
            Ok(more) => {
                &&& result is Ok
                &&& final(planned)@.len() == sources.len() + more.len()
                &&& forall|k: int|
                    0 <= k < sources.len() + more.len() ==> is_plan(
                        #[trigger] final(planned)@[k],
                        (sources + more)[k],
                        output@,
                    )
            },
            Err(problem) => result is Err && reports_problem(result->Err_0, problem, monitors@, windows@),
        },
{
    let ghost start = planned@;
    assert(start.len() == sources.len());
    match target {
        CaptureTarget::PrimaryMonitor => {
            let mut i: usize = 0;
            while i < monitors.len()
                invariant
                    i <= monitors@.len(),
                    forall|j: int| 0 <= j < i ==> !(#[trigger] monitors@[j]).primary,
                    *target == CaptureTarget::PrimaryMonitor,
                    planned@ == start,
                    start.len() == sources.len(),
                    forall|k: int| 0 <= k < sources.len() ==> is_plan(#[trigger] start[k], sources[k], output@),
                decreases monitors@.len() - i,
            {
                if monitors[i].primary {
                    proof {
                        lemma_first_monitor(monitors@, is_primary(), i as int);
                    }
                    planned.push(plan_monitor(&monitors[i], output, directory));
                    assert forall|k: int| 0 <= k < sources.len() + 1 implies is_plan(
                        #[trigger] planned@[k],
                        (sources + seq![PlanSource::Monitor(monitors@[i as int], directory)])[k],
                        output@,
                    ) by {
                        if k < sources.len() {
                            assert(planned@[k] == start[k]);
                        }
                    }
                    return Ok(());
                }
                i += 1;
            }
            proof {
                lemma_no_monitor(monitors@, is_primary());
            }
            Err(AirecError::new(ErrorCode::TargetNotFound, String::from_str("primary monitor not found"), ErrorData::Empty))
        },
        CaptureTarget::Monitor(index) => {
            let index = *index;
            let mut i: usize = 0;
            while i < monitors.len()
                invariant
                    i <= monitors@.len(),
                    forall|j: int| 0 <= j < i ==> (#[trigger] monitors@[j]).index != index,
                    *target == CaptureTarget::Monitor(index),
                    planned@ == start,
                    start.len() == sources.len(),
                    forall|k: int| 0 <= k < sources.len() ==> is_plan(#[trigger] start[k], sources[k], output@),
                decreases monitors@.len() - i,
            {
                if monitors[i].index == index {
                    proof {
                        lemma_first_monitor(monitors@, has_index(index), i as int);
                    }
                    planned.push(plan_monitor(&monitors[i], output, directory));
                    assert forall|k: int| 0 <= k < sources.len() + 1 implies is_plan(
                        #[trigger] planned@[k],
                        (sources + seq![PlanSource::Monitor(monitors@[i as int], directory)])[k],
                        output@,
                    ) by {
                        if k < sources.len() {
                            assert(planned@[k] == start[k]);
                        }
                    }
                    return Ok(());
                }
                i += 1;
            }
            proof {
                lemma_no_monitor(monitors@, has_index(index));
            }
            let number = digits(index as u64, 10);
            let message = String::from_str("monitor ").concat(string_from_chars(number.as_slice()).as_str()).concat(
                " not found",
            );
            Err(
                AirecError::new(
                    ErrorCode::TargetNotFound,
                    message,
                    ErrorData::MonitorCandidates { index, candidates: duplicate_monitors(monitors) },
                ),
            )
        },
        CaptureTarget::AllMonitors => {
            let mut i: usize = 0;
            while i < monitors.len()
                invariant
                    i <= monitors@.len(),
                    planned@.len() == sources.len() + i,
                    forall|k: int|
                        0 <= k < sources.len() + i ==> is_plan(
                            #[trigger] planned@[k],
                            (sources + Seq::new(monitors@.len(), |j: int| PlanSource::Monitor(monitors@[j], true)))[k],
                            output@,
                        ),
                decreases monitors@.len() - i,
            {
                let ghost before = planned@;
                planned.push(plan_monitor(&monitors[i], output, true));
                assert forall|k: int| 0 <= k < sources.len() + i + 1 implies is_plan(
                    #[trigger] planned@[k],
                    (sources + Seq::new(monitors@.len(), |j: int| PlanSource::Monitor(monitors@[j], true)))[k],
                    output@,
                ) by {
                    if k < sources.len() + i {
                        assert(planned@[k] == before[k]);
                    }
                }
                i += 1;
            }
            Ok(())
        },
        CaptureTarget::WindowTitle(query) => {
            match match_title(windows, query.as_str()) {
                Ok(window) => {
                    planned.push(plan_window(window, output, directory));
                    assert forall|k: int| 0 <= k < sources.len() + 1 implies is_plan(
                        #[trigger] planned@[k],
                        (sources + seq![PlanSource::Window(title_matches(windows@, query@)[0], directory)])[k],
                        output@,
                    ) by {
                        if k < sources.len() {
                            assert(planned@[k] == start[k]);
                        }
                    }
                    Ok(())
                },
                Err(error) => Err(error),
            }
        },
        CaptureTarget::WindowHandle(hwnd) => {
            let hwnd = *hwnd;
            let mut i: usize = 0;
            while i < windows.len()
                invariant
                    i <= windows@.len(),
                    forall|j: int| 0 <= j < i ==> (#[trigger] windows@[j]).hwnd != hwnd,
                    *target == CaptureTarget::WindowHandle(hwnd),
                    planned@ == start,
                    start.len() == sources.len(),
                    forall|k: int| 0 <= k < sources.len() ==> is_plan(#[trigger] start[k], sources[k], output@),
                decreases windows@.len() - i,
            {
                if windows[i].hwnd == hwnd {
                    proof {
                        lemma_first_handle(windows@, hwnd, i as int);
                    }
                    planned.push(plan_window(&windows[i], output, directory));
                    assert forall|k: int| 0 <= k < sources.len() + 1 implies is_plan(
                        #[trigger] planned@[k],
                        (sources + seq![PlanSource::Window(windows@[i as int], directory)])[k],
                        output@,
                    ) by {
                        if k < sources.len() {
                            assert(planned@[k] == start[k]);
                        }
                    }
                    return Ok(());
                }
                i += 1;
            }
            proof {
                lemma_first_handle(windows@, hwnd, windows@.len() as int);
            }
            let text = if hwnd < 0 {
                let magnitude = digits((-(hwnd as i128)) as u64, 10);
                String::from_str("-").concat(string_from_chars(magnitude.as_slice()).as_str())
            } else {
                let magnitude = digits(hwnd as u64, 10);
                string_from_chars(magnitude.as_slice())
            };
            let message = String::from_str("window handle ").concat(text.as_str()).concat(" not found");
            Err(
                AirecError::new(
                    ErrorCode::TargetNotFound,
                    message,
                    ErrorData::HandleCandidates { hwnd, candidates: duplicate_windows(windows) },
                ),
            )
        },
        CaptureTarget::Process(query) => {
            match match_process(windows, query.as_str()) {
                Ok(found) => {
                    let multiple = found.len() > 1 || directory;
                    let ghost matches = process_matches(windows@, query@);
                    let ghost more = Seq::new(matches.len(), |j: int| PlanSource::Window(matches[j], matches.len() > 1 || directory));
                    let mut i: usize = 0;
                    while i < found.len()
                        invariant
                            i <= found@.len(),
                            found@.len() == matches.len(),
                            forall|j: int| 0 <= j < matches.len() ==> *#[trigger] found@[j] == matches[j],
                            multiple == (matches.len() > 1 || directory),
                            matches == process_matches(windows@, query@),
                            more == Seq::new(matches.len(), |j: int| PlanSource::Window(matches[j], matches.len() > 1 || directory)),
                            more.len() == matches.len(),
                            planned@.len() == sources.len() + i,
                            forall|k: int| 0 <= k < sources.len() + i ==> is_plan(#[trigger] planned@[k], (sources + more)[k], output@),
                        decreases found@.len() - i,
                    {
                        let ghost before = planned@;
                        planned.push(plan_window(found[i], output, multiple));
                        assert forall|k: int| 0 <= k < sources.len() + i + 1 implies is_plan(
                            #[trigger] planned@[k],
                            (sources + more)[k],
                            output@,
                        ) by {
                            if k < sources.len() + i {
                                assert(planned@[k] == before[k]);
                            }
                        }
                        i += 1;
                    }
                    Ok(())
                },
                Err(error) => Err(error),
            }
        },
    }
}

/// Resolves the requested targets (the primary monitor when none are requested) against the
/// listed monitors and windows. More than one target needs an output directory.
pub fn resolve_targets(
    targets: &[CaptureTarget],
    monitors: &[MonitorInfo],
    windows: &[WindowInfo],
    output: &str,
    output_is_directory: bool,
) -> (result: Result<Vec<PlannedTarget>, AirecError>)
    ensures
        ({
            let requested = if targets@.len() == 0 {
                seq![CaptureTarget::PrimaryMonitor]
            } else {
                targets@
            };
            match plan_sources(requested, monitors@, windows@, output_is_directory) {
                Err(problem) => result is Err && reports_problem(result->Err_0, problem, monitors@, windows@),
                Ok(sources) => if sources.len() > 1 && !output_is_directory {
                    &&& result is Err
                    &&& result->Err_0.code == ErrorCode::OutputIoError
                    &&& result->Err_0.message@ == "--out-dir is required for multiple targets"@
                    &&& result->Err_0.data == (ErrorData::TargetCount { targets: sources.len() as usize })
                } else {
                    &&& result is Ok
                    &&& result->Ok_0@.len() == sources.len()
                    &&& forall|k: int| 0 <= k < sources.len() ==> is_plan(#[trigger] result->Ok_0@[k], sources[k], output@)
                },
            }
        }),
{
    let mut requested: Vec<CaptureTarget> = Vec::new();
    if targets.len() == 0 {
        requested.push(CaptureTarget::PrimaryMonitor);
    }
    let requested_slice: &[CaptureTarget] = if targets.len() == 0 {
        requested.as_slice()
    } else {
        targets
    };
    assert(targets@.len() == 0 ==> requested_slice@ =~= seq![CaptureTarget::PrimaryMonitor]);
    let ghost wanted = requested_slice@;
    let mut planned: Vec<PlannedTarget> = Vec::new();
    let mut i: usize = 0;
    assert(wanted.take(0) =~= Seq::<CaptureTarget>::empty());
    while i < requested_slice.len()
        invariant
            i <= wanted.len(),
            wanted == requested_slice@,
            wanted == (if targets@.len() == 0 {
                seq![CaptureTarget::PrimaryMonitor]
            } else {
                targets@
            }),
            plan_sources(wanted.take(i as int), monitors@, windows@, output_is_directory) is Ok,
            planned@.len() == plan_sources(wanted.take(i as int), monitors@, windows@, output_is_directory)->Ok_0.len(),
            forall|k: int|
                0 <= k < planned@.len() ==> is_plan(
                    #[trigger] planned@[k],
                    plan_sources(wanted.take(i as int), monitors@, windows@, output_is_directory)->Ok_0[k],
                    output@,
                ),
        decreases wanted.len() - i,
    {
        let ghost sources = plan_sources(wanted.take(i as int), monitors@, windows@, output_is_directory)->Ok_0;
        assert(wanted.take(i + 1).drop_last() =~= wanted.take(i as int));
        assert(wanted.take(i + 1).last() == wanted[i as int]);
        match plan_one(&requested_slice[i], monitors, windows, output, output_is_directory, &mut planned, Ghost(sources)) {
            Ok(()) => {},
            Err(error) => {
                proof {
                    let problem = sources_for(wanted[i as int], monitors@, windows@, output_is_directory)->Err_0;
                    assert(sources_for(wanted[i as int], monitors@, windows@, output_is_directory) is Err);
                    assert(plan_sources(wanted.take(i + 1), monitors@, windows@, output_is_directory) == Err::<Seq<PlanSource>, TargetProblem>(problem));
                    lemma_plan_error_persists(wanted, monitors@, windows@, output_is_directory, (i + 1) as int);
                    assert(wanted.take(wanted.len() as int) =~= wanted);
                }
                return Err(error);
            },
        }
        i += 1;
    }
    assert(wanted.take(wanted.len() as int) =~= wanted);
    if planned.len() > 1 && !output_is_directory {
        return Err(
            AirecError::new(
                ErrorCode::OutputIoError,
                String::from_str("--out-dir is required for multiple targets"),
                ErrorData::TargetCount { targets: planned.len() },
            ),
        );
    }
    Ok(planned)
}

/// Once a prefix of the requests fails, so does every longer prefix, with the same problem.
proof fn lemma_plan_error_persists(targets: Seq<CaptureTarget>, monitors: Seq<MonitorInfo>, windows: Seq<WindowInfo>, directory: bool, n: int)
    requires
        0 <= n <= targets.len(),
        plan_sources(targets.take(n), monitors, windows, directory) is Err,
    ensures
        plan_sources(targets, monitors, windows, directory) == plan_sources(targets.take(n), monitors, windows, directory),
    decreases targets.len() - n,
{
    if n < targets.len() {
        assert(targets.take(n + 1).drop_last() =~= targets.take(n));
        lemma_plan_error_persists(targets, monitors, windows, directory, n + 1);
    } else {
        assert(targets.take(n) =~= targets);
    }
}

} // verus!
