use vstd::prelude::*;

verus! {

pub const DEFAULT_CLICK_DURATION_MS: u64 = 500;
pub const DEFAULT_DRAG_DURATION_MS: u64 = 650;
pub const DEFAULT_TRAIL_DURATION_MS: u64 = 250;
pub const DEFAULT_DRAG_THRESHOLD_PIXELS: u32 = 4;
pub const DEFAULT_DRAG_THRESHOLD_MS: u64 = 150;
pub const DEFAULT_MOVE_THROTTLE_MS: u64 = 100;
/// Covers more than 100 minutes at the default 10 Hz move rate while bounding memory to a few MB.
pub const DEFAULT_MAX_INPUT_HISTORY_EVENTS: usize = 65_536;
/// The first frame must arrive within this many milliseconds.
pub const FIRST_FRAME_TIMEOUT_MS: u64 = 30_000;

/// An RGB effect color that is independent of the capture frame's pixel format.
#[derive(Clone, Copy, Debug, PartialEq, Eq, Structural)]
pub struct EffectColor {
    pub red: u8,
    pub green: u8,
    pub blue: u8,
}

impl EffectColor {
    pub fn rgb(red: u8, green: u8, blue: u8) -> (color: EffectColor)
        ensures
            color == (EffectColor { red, green, blue }),
    {
        EffectColor { red, green, blue }
    }

    /// Yellow, `#FFD400`: the left-click ripple.
    pub fn default_left_click() -> (color: EffectColor)
        ensures
            color == (EffectColor { red: 0xFF, green: 0xD4, blue: 0x00 }),
    {
        EffectColor::rgb(0xFF, 0xD4, 0x00)
    }

    /// Blue, `#00A2FF`: the right-click ripple.
    pub fn default_right_click() -> (color: EffectColor)
        ensures
            color == (EffectColor { red: 0x00, green: 0xA2, blue: 0xFF }),
    {
        EffectColor::rgb(0x00, 0xA2, 0xFF)
    }

    /// Pink, `#FF4081`: the drag stroke.
    pub fn default_drag() -> (color: EffectColor)
        ensures
            color == (EffectColor { red: 0xFF, green: 0x40, blue: 0x81 }),
    {
        EffectColor::rgb(0xFF, 0x40, 0x81)
    }

    /// Cyan, `#00E5FF`: the pointer trail.
    pub fn default_trail() -> (color: EffectColor)
        ensures
            color == (EffectColor { red: 0x00, green: 0xE5, blue: 0xFF }),
    {
        EffectColor::rgb(0x00, 0xE5, 0xFF)
    }
}

#[derive(Clone, Copy, Debug, PartialEq, Eq, Structural)]
pub struct InputOptions {
    /// A drag starts as soon as either this displacement or the time threshold is exceeded.
    pub drag_threshold_pixels: u32,
    /// A non-stationary press becomes a drag after this duration even below the pixel threshold.
    pub drag_threshold_ms: u64,
    /// Only `move` recording is throttled; drag recognition examines every mouse move.
    pub move_throttle_ms: u64,
    /// Maximum retained events. Lagging subscribers resume at the oldest retained event.
    pub max_history_events: usize,
}

impl Default for InputOptions {
    fn default() -> (options: InputOptions)
        ensures
            options == (InputOptions {
                drag_threshold_pixels: DEFAULT_DRAG_THRESHOLD_PIXELS,
                drag_threshold_ms: DEFAULT_DRAG_THRESHOLD_MS,
                move_throttle_ms: DEFAULT_MOVE_THROTTLE_MS,
                max_history_events: DEFAULT_MAX_INPUT_HISTORY_EVENTS,
            }),
    {
        InputOptions {
            drag_threshold_pixels: DEFAULT_DRAG_THRESHOLD_PIXELS,
            drag_threshold_ms: DEFAULT_DRAG_THRESHOLD_MS,
            move_throttle_ms: DEFAULT_MOVE_THROTTLE_MS,
            max_history_events: DEFAULT_MAX_INPUT_HISTORY_EVENTS,
        }
    }
}

/// What happens to the other targets when one target fails.
#[derive(Clone, Copy, Debug, PartialEq, Eq, Structural)]
pub enum FailurePolicy {
    Continue,
    Abort,
}

impl Default for FailurePolicy {
    fn default() -> (policy: FailurePolicy)
        ensures
            policy == FailurePolicy::Continue,
    {
        FailurePolicy::Continue
    }
}

#[derive(Clone, Copy, Debug, PartialEq, Eq, Structural)]
pub enum Quality {
    Low,
    Medium,
    High,
}

impl Default for Quality {
    fn default() -> (quality: Quality)
        ensures
            quality == Quality::Medium,
    {
        Quality::Medium
    }
}

pub open spec fn clamp(value: int, low: int, high: int) -> int {
    if value < low {
        low
    } else if value > high {
        high
    } else {
        value
    }
}

impl Quality {
    /// Pixels per second that one bit of the stream carries.
    pub open spec fn divisor(self) -> int {
        match self {
            Quality::Low => 36,
            Quality::Medium => 24,
            Quality::High => 14,
        }
    }

    /// Encoder bitrate: pixels per second over the quality's divisor, clamped to 0.5–25 Mbit/s.
    pub open spec fn spec_bitrate(self, width: u32, height: u32, fps: u32) -> int {
        clamp((width as int) * (height as int) * (fps as int) / self.divisor(), 500_000, 25_000_000)
    }

    pub fn bitrate(self, width: u32, height: u32, fps: u32) -> (bits: u32)
        requires
            (width as int) * (height as int) <= u64::MAX,
            (width as int) * (height as int) * (fps as int) <= u64::MAX,
        ensures
            bits == self.spec_bitrate(width, height, fps),
    {
        let area: u64 = width as u64 * height as u64;
        let pixels_per_second: u64 = area * fps as u64;
        let divisor: u64 = match self {
            Quality::Low => 36,
            Quality::Medium => 24,
            Quality::High => 14,
        };
        let bits: u64 = pixels_per_second / divisor;
        if bits < 500_000 {
            500_000
        } else if bits > 25_000_000 {
            25_000_000
        } else {
            bits as u32
        }
    }
}

/// What the user asked to record.
#[derive(Clone, Debug)]
pub enum CaptureTarget {
    PrimaryMonitor,
    Monitor(usize),
    AllMonitors,
    WindowTitle(String),
    WindowHandle(isize),
    Process(String),
}

#[derive(Clone, Copy, Debug, PartialEq, Eq, Structural)]
pub enum TargetKind {
    Monitor,
    Window,
}

/// A capture target bound to a concrete monitor or window and an output file.
#[derive(Clone, Debug)]
pub struct ResolvedTarget {
    pub kind: TargetKind,
    pub id: String,
    pub title: Option<String>,
    pub process: Option<String>,
    pub hwnd: Option<isize>,
    pub width: u32,
    pub height: u32,
    pub minimized: bool,
    pub output: String,
}

/// One captured BGRA frame.
#[derive(Clone, Debug)]
pub struct CaptureFrame {
    pub width: u32,
    pub height: u32,
    pub stride: u32,
    pub bgra: Vec<u8>,
    pub t_ms: u64,
}

#[derive(Clone, Copy, Debug, PartialEq, Eq, Structural)]
pub enum MouseButton {
    Left,
    Right,
}

/// A mouse event on the recording timeline. Keyboard input is never represented.
#[derive(Clone, Copy, Debug, PartialEq, Eq, Structural)]
pub enum InputEvent {
    Click { t_ms: u64, button: MouseButton, x: i32, y: i32, double: bool },
    DragStart { t_ms: u64, button: MouseButton, x: i32, y: i32 },
    DragEnd { t_ms: u64, button: MouseButton, x: i32, y: i32 },
    Move { t_ms: u64, x: i32, y: i32 },
}

impl InputEvent {
    pub open spec fn spec_time(self) -> u64 {
        match self {
            InputEvent::Click { t_ms, .. } => t_ms,
            InputEvent::DragStart { t_ms, .. } => t_ms,
            InputEvent::DragEnd { t_ms, .. } => t_ms,
            InputEvent::Move { t_ms, .. } => t_ms,
        }
    }

    /// The event's timestamp in milliseconds.
    #[verifier::when_used_as_spec(spec_time)]
    pub fn time(self) -> (t_ms: u64)
        ensures
            t_ms == self.spec_time(),
    {
        match self {
            InputEvent::Click { t_ms, .. } => t_ms,
            InputEvent::DragStart { t_ms, .. } => t_ms,
            InputEvent::DragEnd { t_ms, .. } => t_ms,
            InputEvent::Move { t_ms, .. } => t_ms,
        }
    }
}

/// A top-level window that can be captured.
#[derive(Clone, Debug)]
pub struct WindowInfo {
    pub hwnd: isize,
    pub title: String,
    pub process: String,
    pub pid: u32,
    pub width: u32,
    pub height: u32,
    pub minimized: bool,
}

impl WindowInfo {
    pub fn duplicate(&self) -> (copy: WindowInfo)
        ensures
            copy == *self,
    {
        WindowInfo {
            hwnd: self.hwnd,
            title: self.title.clone(),
            process: self.process.clone(),
            pid: self.pid,
            width: self.width,
            height: self.height,
            minimized: self.minimized,
        }
    }
}

/// A display as the capture backend lists it (its DPI scale is kept by the caller).
#[derive(Clone, Debug)]
pub struct MonitorInfo {
    pub index: usize,
    pub name: String,
    pub width: u32,
    pub height: u32,
    pub primary: bool,
}

impl MonitorInfo {
    pub fn duplicate(&self) -> (copy: MonitorInfo)
        ensures
            copy == *self,
    {
        MonitorInfo {
            index: self.index,
            name: self.name.clone(),
            width: self.width,
            height: self.height,
            primary: self.primary,
        }
    }
}

pub fn duplicate_monitors(monitors: &[MonitorInfo]) -> (copy: Vec<MonitorInfo>)
    ensures
        copy@ == monitors@,
{
    let mut copy: Vec<MonitorInfo> = Vec::new();
    let mut index: usize = 0;
    while index < monitors.len()
        invariant
            index <= monitors@.len(),
            copy@ == monitors@.subrange(0, index as int),
        decreases monitors@.len() - index,
    {
        copy.push(monitors[index].duplicate());
        index += 1;
    }
    copy
}

pub fn duplicate_windows(windows: &[WindowInfo]) -> (copy: Vec<WindowInfo>)
    ensures
        copy@ == windows@,
{
    let mut copy: Vec<WindowInfo> = Vec::new();
    let mut index: usize = 0;
    while index < windows.len()
        invariant
            index <= windows@.len(),
            copy@ == windows@.subrange(0, index as int),
        decreases windows@.len() - index,
    {
        copy.push(windows[index].duplicate());
        index += 1;
    }
    copy
}

} // verus!
