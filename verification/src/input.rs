use std::collections::VecDeque;
use vstd::prelude::*;
use crate::model::{InputEvent, InputOptions, MouseButton};

verus! {

pub open spec fn abs_diff(a: i32, b: i32) -> int {
    if a >= b {
        a - b
    } else {
        b - a
    }
}

pub open spec fn saturating_sub(a: u64, b: u64) -> int {
    if a >= b {
        a - b
    } else {
        0
    }
}

fn abs_diff_u64(a: i32, b: i32) -> (d: u64)
    ensures
        d == abs_diff(a, b),
{
    let difference: i64 = a as i64 - b as i64;
    if difference >= 0 {
        difference as u64
    } else {
        (-difference) as u64
    }
}

/// A mouse button that is down, where and when it went down.
#[derive(Clone, Copy, Debug, PartialEq, Eq, Structural)]
pub struct PressedButton {
    pub button: MouseButton,
    pub x: i32,
    pub y: i32,
    pub t_ms: u64,
}

/// The last completed click: its button, time and position.
#[derive(Clone, Copy, Debug, PartialEq, Eq, Structural)]
pub struct LastClick {
    pub button: MouseButton,
    pub t_ms: u64,
    pub x: i32,
    pub y: i32,
}

/// Recognizes clicks, double clicks, drags and throttled moves from raw mouse input.
#[derive(Clone, Copy, Debug, PartialEq, Eq, Structural)]
pub struct HookState {
    pub last_move_ms: u64,
    pub last_click: Option<LastClick>,
    pub pressed: Option<PressedButton>,
    pub drag_active: bool,
    pub options: InputOptions,
}

impl HookState {
    pub fn new(options: InputOptions) -> (state: HookState)
        ensures
            state == (HookState {
                last_move_ms: 0,
                last_click: None,
                pressed: None,
                drag_active: false,
                options,
            }),
    {
        HookState { last_move_ms: 0, last_click: None, pressed: None, drag_active: false, options }
    }

    /// A button went down.
    pub fn press(&mut self, button: MouseButton, t_ms: u64, x: i32, y: i32)
        ensures
            *final(self) == (HookState {
                pressed: Some(PressedButton { button, x, y, t_ms }),
                drag_active: false,
                ..*old(self)
            }),
    {
        self.pressed = Some(PressedButton { button, x, y, t_ms });
        self.drag_active = false;
    }

    /// Whether a move to `(x, y)` at `t_ms` turns the pending press into a drag: the pointer
    /// moved more than the pixel threshold on an axis, or moved at all once the time
    /// threshold has passed.
    pub open spec fn starts_drag(self, t_ms: u64, x: i32, y: i32) -> bool {
        match self.pressed {
            Some(pressed) => {
                let dx = abs_diff(x, pressed.x);
                let dy = abs_diff(y, pressed.y);
                let moved = dx != 0 || dy != 0;
                let pixel_threshold_exceeded = dx > self.options.drag_threshold_pixels
                    || dy > self.options.drag_threshold_pixels;
                let time_threshold_reached = moved && saturating_sub(t_ms, pressed.t_ms)
                    >= self.options.drag_threshold_ms;
                !self.drag_active && (pixel_threshold_exceeded || time_threshold_reached)
            },
            None => false,
        }
    }

    /// Whether a move at `t_ms` is published, given the move throttle.
    pub open spec fn publishes_move(self, t_ms: u64) -> bool {
        saturating_sub(t_ms, self.last_move_ms) >= self.options.move_throttle_ms
    }

    /// The pointer moved. Every move takes part in drag recognition; only moves at least the
    /// throttle apart are published.
    pub fn move_events(&mut self, t_ms: u64, x: i32, y: i32) -> (events: Vec<InputEvent>)
        ensures
            events@ == (if old(self).starts_drag(t_ms, x, y) {
                seq![
                    InputEvent::DragStart {
                        t_ms,
                        button: old(self).pressed->0.button,
                        x: old(self).pressed->0.x,
                        y: old(self).pressed->0.y,
                    },
                ]
            } else {
                Seq::empty()
            }) + (if old(self).publishes_move(t_ms) {
                seq![InputEvent::Move { t_ms, x, y }]
            } else {
                Seq::empty()
            }),
            *final(self) == (HookState {
                drag_active: old(self).drag_active || old(self).starts_drag(t_ms, x, y),
                last_move_ms: if old(self).publishes_move(t_ms) {
                    t_ms
                } else {
                    old(self).last_move_ms
                },
                ..*old(self)
            }),
    {
        let mut events: Vec<InputEvent> = Vec::new();
        if let Some(pressed) = self.pressed {
            if !self.drag_active {
                let dx = abs_diff_u64(x, pressed.x);
                let dy = abs_diff_u64(y, pressed.y);
                let moved = dx != 0 || dy != 0;
                let threshold = self.options.drag_threshold_pixels as u64;
                let pixel_threshold_exceeded = dx > threshold || dy > threshold;
                let held_ms: u64 = if t_ms >= pressed.t_ms {
                    t_ms - pressed.t_ms
                } else {
                    0
                };
                let time_threshold_reached = moved && held_ms >= self.options.drag_threshold_ms;
                if pixel_threshold_exceeded || time_threshold_reached {
                    self.drag_active = true;
                    events.push(
                        InputEvent::DragStart { t_ms, button: pressed.button, x: pressed.x, y: pressed.y },
                    );
                }
            }
        }
        let since_move: u64 = if t_ms >= self.last_move_ms {
            t_ms - self.last_move_ms
        } else {
            0
        };
        if since_move >= self.options.move_throttle_ms {
            self.last_move_ms = t_ms;
            events.push(InputEvent::Move { t_ms, x, y });
        }
        assert(events@ =~= (if old(self).starts_drag(t_ms, x, y) {
            seq![
                InputEvent::DragStart {
                    t_ms,
                    button: old(self).pressed->0.button,
                    x: old(self).pressed->0.x,
                    y: old(self).pressed->0.y,
                },
            ]
        } else {
            Seq::empty()
        }) + (if old(self).publishes_move(t_ms) {
            seq![InputEvent::Move { t_ms, x, y }]
        } else {
            Seq::empty()
        }));
        events
    }

    /// Whether a release of `button` at `(x, y)` and `t_ms` completes a double click: the
    /// previous click used the same button, ended at most `double_click_ms` earlier and at
    /// most four pixels away on each axis.
    pub open spec fn is_double_click(
        self,
        button: MouseButton,
        t_ms: u64,
        x: i32,
        y: i32,
        double_click_ms: u64,
    ) -> bool {
        match self.last_click {
            Some(last) => {
                &&& last.button == button
                &&& saturating_sub(t_ms, last.t_ms) <= double_click_ms
                &&& abs_diff(x, last.x) <= 4
                &&& abs_diff(y, last.y) <= 4
            },
            None => false,
        }
    }

    /// A button went up. A drag in progress ends; otherwise the release is a click.
    pub fn release(&mut self, button: MouseButton, t_ms: u64, x: i32, y: i32, double_click_ms: u64) -> (events: Vec<InputEvent>)
        requires
            old(self).last_click matches Some(last) ==> (last.button == button && saturating_sub(t_ms, last.t_ms)
                <= double_click_ms ==> {
                &&& abs_diff(x, last.x) <= i32::MAX
                &&& abs_diff(x, last.x) <= 4 ==> abs_diff(y, last.y) <= i32::MAX
            }),
        ensures
            events@ == (if old(self).drag_active {
                seq![InputEvent::DragEnd { t_ms, button, x, y }]
            } else {
                seq![
                    InputEvent::Click {
                        t_ms,
                        button,
                        x,
                        y,
                        double: old(self).is_double_click(button, t_ms, x, y, double_click_ms),
                    },
                ]
            }),
            *final(self) == (HookState {
                last_click: Some(LastClick { button, t_ms, x, y }),
                pressed: None,
                drag_active: false,
                ..*old(self)
            }),
    {
        let was_drag = self.drag_active;
        let mut events: Vec<InputEvent> = Vec::new();
        if was_drag {
            events.push(InputEvent::DragEnd { t_ms, button, x, y });
        }
        let double = match self.last_click {
            Some(last) => {
                let since: u64 = if t_ms >= last.t_ms {
                    t_ms - last.t_ms
                } else {
                    0
                };
                last.button == button && since <= double_click_ms && abs_diff_u64(x, last.x) <= 4
                    && abs_diff_u64(y, last.y) <= 4
            },
            None => false,
        };
        self.last_click = Some(LastClick { button, t_ms, x, y });
        self.pressed = None;
        self.drag_active = false;
        if !was_drag {
            events.push(InputEvent::Click { t_ms, button, x, y, double });
        }
        events
    }
}

/// The bounded history of input events, with the absolute index of its oldest event.
pub struct EventTimeline {
    pub events: VecDeque<InputEvent>,
    pub base_index: u64,
}

/// How many events a timeline keeps for a configured limit: at least one.
pub open spec fn history_limit(max_history_events: usize) -> int {
    if max_history_events == 0 {
        1
    } else {
        max_history_events as int
    }
}

impl EventTimeline {
    pub fn new() -> (timeline: EventTimeline)
        ensures
            timeline.events@ == Seq::<InputEvent>::empty(),
            timeline.base_index == 0,
    {
        EventTimeline { events: VecDeque::new(), base_index: 0 }
    }

    /// Appends an event, then drops the oldest events until at most the limit remain; the
    /// base index counts the dropped events, saturating.
    pub fn push_event(&mut self, event: InputEvent, max_history_events: usize)
        ensures
            ({
                let all = old(self).events@.push(event);
                let dropped = if all.len() > history_limit(max_history_events) {
                    all.len() - history_limit(max_history_events)
                } else {
                    0
                };
                &&& final(self).events@ == all.subrange(dropped, all.len() as int)
                &&& final(self).base_index == if old(self).base_index + dropped > u64::MAX {
                    u64::MAX as int
                } else {
                    old(self).base_index + dropped
                }
            }),
            final(self).events@.len() <= history_limit(max_history_events),
    {
        let ghost all = self.events@.push(event);
        self.events.push_back(event);
        let limit: usize = if max_history_events == 0 {
            1
        } else {
            max_history_events
        };
        let ghost start = self.base_index as int;
        while self.events.len() > limit
            invariant
                limit == history_limit(max_history_events),
                self.events@.len() <= all.len(),
                self.events@ == all.subrange(all.len() - self.events@.len(), all.len() as int),
                self.base_index == if start + (all.len() - self.events@.len()) > u64::MAX {
                    u64::MAX as int
                } else {
                    start + (all.len() - self.events@.len())
                },
                all.len() > limit ==> self.events@.len() >= limit,
                all.len() <= limit ==> self.events@.len() == all.len(),
            decreases self.events@.len(),
        {
            let ghost before = self.events@;
            let _ = self.events.pop_front();
            assert(self.events@ =~= all.subrange(all.len() - self.events@.len(), all.len() as int));
            if self.base_index < u64::MAX {
                self.base_index = self.base_index + 1;
            }
        }
    }
}

/// The longest prefix of `events` whose timestamps are at most `t_ms`.
pub open spec fn due_prefix(events: Seq<InputEvent>, t_ms: u64, taken: Seq<InputEvent>) -> bool {
    &&& taken.len() <= events.len()
    &&& taken == events.take(taken.len() as int)
    &&& forall|i: int| 0 <= i < taken.len() ==> #[trigger] taken[i].spec_time() <= t_ms
    &&& taken.len() < events.len() ==> events[taken.len() as int].spec_time() > t_ms
}

/// A reader's position in a timeline, as an absolute event index.
#[derive(Clone, Copy, Debug, PartialEq, Eq, Structural)]
pub struct Subscription {
    pub cursor: u64,
}

impl Subscription {
    /// A reader that starts at the oldest retained event.
    pub fn subscribe(timeline: &EventTimeline) -> (subscription: Subscription)
        ensures
            subscription.cursor == timeline.base_index,
    {
        Subscription { cursor: timeline.base_index }
    }

    /// Hands out the retained events after the cursor whose time is at most `t_ms`, in order,
    /// and moves past them. A reader that fell behind resumes at the oldest retained event.
    pub fn drain_until(&mut self, timeline: &EventTimeline, t_ms: u64) -> (events: Vec<InputEvent>)
        ensures
            ({
                let start = if old(self).cursor >= timeline.base_index {
                    old(self).cursor as int
                } else {
                    timeline.base_index as int
                };
                let offset = start - timeline.base_index;
                let pending = if offset <= timeline.events@.len() {
                    timeline.events@.subrange(offset, timeline.events@.len() as int)
                } else {
                    Seq::empty()
                };
                &&& due_prefix(pending, t_ms, events@)
                &&& final(self).cursor == if start + events@.len() > u64::MAX {
                    u64::MAX as int
                } else {
                    start + events@.len()
                }
            }),
    {
        let start: u64 = if self.cursor >= timeline.base_index {
            self.cursor
        } else {
            timeline.base_index
        };
        let offset: u64 = start - timeline.base_index;
        let length: usize = timeline.events.len();
        let ghost pending = if offset <= timeline.events@.len() {
            timeline.events@.subrange(offset as int, timeline.events@.len() as int)
        } else {
            Seq::<InputEvent>::empty()
        };
        let mut events: Vec<InputEvent> = Vec::new();
        if offset < length as u64 {
            let mut index: usize = offset as usize;
            let mut reached: bool = false;
            while index < length && !reached
                invariant
                    offset <= index <= length,
                    length == timeline.events@.len(),
                    pending == timeline.events@.subrange(offset as int, length as int),
                    events@ == pending.take(index - offset),
                    forall|i: int| 0 <= i < events@.len() ==> #[trigger] events@[i].spec_time() <= t_ms,
                    reached ==> index < length && timeline.events@[index as int].spec_time() > t_ms,
                decreases length - index, if reached { 0int } else { 1int },
            {
                let event = timeline.events[index];
                if event.time() > t_ms {
                    reached = true;
                } else {
                    events.push(event);
                    index += 1;
                    assert(events@ =~= pending.take(index - offset));
                }
            }
            assert(events@.len() < pending.len() ==> pending[events@.len() as int]
                == timeline.events@[index as int]);
        } else {
            assert(pending =~= Seq::<InputEvent>::empty());
        }
        assert(events@.len() <= pending.len());
        assert(events@ == pending.take(events@.len() as int));
        assert(forall|i: int| 0 <= i < events@.len() ==> #[trigger] events@[i].spec_time() <= t_ms);
        assert(events@.len() < pending.len() ==> pending[events@.len() as int].spec_time() > t_ms);
        let count = events.len() as u64;
        self.cursor = if start <= u64::MAX - count {
            start + count
        } else {
            u64::MAX
        };
        events
    }
}

} // verus!
