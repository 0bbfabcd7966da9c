use airec::input::{EventTimeline, HookState, Subscription};
use airec::model::{InputEvent, InputOptions, MouseButton};

fn move_event(t_ms: u64) -> InputEvent {
    InputEvent::Move { t_ms, x: t_ms as i32, y: 0 }
}

#[test]
fn fast_drag_is_detected_even_when_move_is_throttled() {
    let mut state = HookState::new(InputOptions { move_throttle_ms: 100, ..InputOptions::default() });
    state.press(MouseButton::Left, 0, 0, 0);

    let first = state.move_events(10, 5, 0);
    assert!(matches!(first.as_slice(), [InputEvent::DragStart { t_ms: 10, x: 0, y: 0, .. }]));
    assert!(state.move_events(20, 10, 0).is_empty());
}

#[test]
fn pixel_and_time_drag_thresholds_are_configurable() {
    let mut state = HookState::new(InputOptions {
        drag_threshold_pixels: 10,
        drag_threshold_ms: 50,
        move_throttle_ms: 1_000,
        ..InputOptions::default()
    });
    state.press(MouseButton::Right, 0, 100, 100);
    assert!(state.move_events(49, 101, 100).is_empty());
    assert!(matches!(
        state.move_events(50, 101, 100).as_slice(),
        [InputEvent::DragStart { button: MouseButton::Right, .. }]
    ));

    let mut pixel_state = HookState::new(InputOptions::default());
    pixel_state.press(MouseButton::Left, 0, 0, 0);
    assert!(pixel_state.move_events(1, 4, 0).is_empty());
    assert!(matches!(pixel_state.move_events(2, 5, 0).as_slice(), [InputEvent::DragStart { .. }]));
}

#[test]
fn bounded_history_keeps_subscriptions_safe_and_ordered() {
    let mut timeline = EventTimeline::new();
    for t_ms in 0..6 {
        timeline.push_event(move_event(t_ms), 4);
    }
    assert_eq!(timeline.events.len(), 4);
    assert_eq!(timeline.base_index, 2);

    let mut lagging = Subscription { cursor: 0 };
    let events = lagging.drain_until(&timeline, u64::MAX);
    assert_eq!(events.iter().map(|event| event.time()).collect::<Vec<_>>(), [2, 3, 4, 5]);
    assert!(lagging.drain_until(&timeline, u64::MAX).is_empty());
}

#[test]
fn click_release_reports_a_click_and_then_a_double_click() {
    let mut state = HookState::new(InputOptions::default());
    state.press(MouseButton::Left, 0, 10, 10);
    let first = state.release(MouseButton::Left, 40, 10, 10, 500);
    assert_eq!(first, vec![InputEvent::Click { t_ms: 40, button: MouseButton::Left, x: 10, y: 10, double: false }]);
    state.press(MouseButton::Left, 100, 11, 10);
    let second = state.release(MouseButton::Left, 120, 11, 10, 500);
    assert_eq!(second, vec![InputEvent::Click { t_ms: 120, button: MouseButton::Left, x: 11, y: 10, double: true }]);
}

#[test]
fn drag_release_ends_the_drag_without_a_click() {
    let mut state = HookState::new(InputOptions::default());
    state.press(MouseButton::Left, 0, 0, 0);
    assert!(matches!(state.move_events(10, 50, 0).as_slice(), [InputEvent::DragStart { .. }]));
    let released = state.release(MouseButton::Left, 30, 60, 0, 500);
    assert_eq!(released, vec![InputEvent::DragEnd { t_ms: 30, button: MouseButton::Left, x: 60, y: 0 }]);
}

#[test]
fn subscription_stops_at_events_after_the_deadline() {
    let mut timeline = EventTimeline::new();
    for t_ms in [5, 10, 15] {
        timeline.push_event(move_event(t_ms), 100);
    }
    let mut reader = Subscription::subscribe(&timeline);
    let due = reader.drain_until(&timeline, 10);
    assert_eq!(due.len(), 2);
    let rest = reader.drain_until(&timeline, 100);
    assert_eq!(rest, vec![move_event(15)]);
}
