use std::path::Path;

use airec::image::{even, letterbox, packed_bottom_up, window_viewport, ScreenRect};
use airec::resolve::{monitor_index, monitor_target_id};
use airec::model::{CaptureFrame, CaptureTarget, MonitorInfo, Quality, WindowInfo};
use airec::targets::resolve_targets;

#[test]
fn odd_sizes_are_padded_for_yuv420_without_cropping() {
    assert_eq!(even(1919), 1920);
    assert_eq!(even(1081), 1082);
}

#[test]
fn padded_rows_are_removed_and_frame_is_flipped_for_media_foundation() {
    let frame = CaptureFrame {
        width: 2,
        height: 2,
        stride: 12,
        bgra: vec![
            1, 2, 3, 4, 5, 6, 7, 8, 99, 99, 99, 99, 9, 10, 11, 12, 13, 14, 15, 16, 99, 99, 99, 99,
        ],
        t_ms: 0,
    };
    assert_eq!(
        packed_bottom_up(&frame, 2, 2),
        vec![9, 10, 11, 12, 13, 14, 15, 16, 1, 2, 3, 4, 5, 6, 7, 8]
    );
}

#[test]
fn medium_quality_meets_prd_1080p_size_budget() {
    let bitrate = Quality::Medium.bitrate(1920, 1080, 30);
    let bytes_per_minute = u64::from(bitrate) * 60 / 8;
    assert!(bytes_per_minute <= 20 * 1024 * 1024);
}

#[test]
fn monitor_output_names_are_one_based_and_stable() {
    let monitor = MonitorInfo { index: 2, name: "Display".into(), width: 1920, height: 1080, primary: false };
    let planned = resolve_targets(&[CaptureTarget::Monitor(2)], &[monitor], &[], "rec", true).unwrap();
    assert_eq!(planned.len(), 1);
    assert_eq!(planned[0].target.id, "monitor-2");
    assert!(planned[0].in_directory);
    assert_eq!(Path::new("rec").join(&planned[0].target.output), Path::new("rec").join("monitor-2.mp4"));
}

#[test]
fn window_output_name_contains_sanitized_title_and_hwnd() {
    let window = WindowInfo {
        hwnd: 0x1a2b,
        title: "My App: Settings".into(),
        process: "app.exe".into(),
        pid: 4,
        width: 800,
        height: 600,
        minimized: false,
    };
    let planned =
        resolve_targets(&[CaptureTarget::WindowHandle(0x1a2b)], &[], &[window], "rec", true).unwrap();
    assert!(planned[0].in_directory);
    assert_eq!(
        Path::new("rec").join(&planned[0].target.output),
        Path::new("rec").join("my-app-settings-1a2b.mp4")
    );
}

fn scaled_box(frame: &CaptureFrame, target_width: u32, target_height: u32) -> (u32, u32) {
    let scale = (target_width as f64 / frame.width.max(1) as f64).min(target_height as f64 / frame.height.max(1) as f64);
    let scaled_width = ((frame.width as f64 * scale).round() as u32).clamp(1, target_width);
    let scaled_height = ((frame.height as f64 * scale).round() as u32).clamp(1, target_height);
    (scaled_width, scaled_height)
}

fn letterbox_to(frame: &CaptureFrame, target_width: u32, target_height: u32) -> CaptureFrame {
    let (scaled_width, scaled_height) = scaled_box(frame, target_width, target_height);
    letterbox(frame, target_width, target_height, scaled_width, scaled_height)
}

fn frame(width: u32, height: u32, t_ms: u64) -> CaptureFrame {
    CaptureFrame { width, height, stride: width * 4, bgra: vec![0; (width * height * 4) as usize], t_ms }
}

#[test]
fn resize_is_letterboxed_to_session_resolution() {
    let mut source = frame(200, 100, 10);
    source.bgra.fill(255);
    let output = letterbox_to(&source, 100, 100);
    assert_eq!((output.width, output.height, output.stride), (100, 100, 400));
    assert!(output.bgra[..20 * 400].iter().all(|byte| *byte == 0));
    assert!(output.bgra[30 * 400..70 * 400].contains(&255));
}

#[test]
fn letterbox_keeps_a_frame_of_the_session_size() {
    let mut source = frame(4, 2, 7);
    for (index, byte) in source.bgra.iter_mut().enumerate() {
        *byte = index as u8;
    }
    let output = letterbox_to(&source, 4, 2);
    assert_eq!(output.bgra, source.bgra);
    assert_eq!(output.t_ms, 7);
}

#[test]
fn letterbox_pads_a_tall_frame_left_and_right() {
    let mut source = frame(50, 100, 0);
    source.bgra.fill(200);
    let output = letterbox_to(&source, 100, 100);
    let row = &output.bgra[50 * 400..51 * 400];
    assert!(row[..25 * 4].iter().all(|byte| *byte == 0));
    assert!(row[25 * 4..75 * 4].iter().all(|byte| *byte == 200));
    assert!(row[75 * 4..].iter().all(|byte| *byte == 0));
}

#[test]
fn even_keeps_even_values() {
    assert_eq!(even(1920), 1920);
    assert_eq!(even(0), 2);
    assert_eq!(even(1), 2);
}

#[test]
fn bitrates_follow_quality_and_pixel_rate() {
    assert!(Quality::Low.bitrate(1920, 1080, 30) < Quality::Medium.bitrate(1920, 1080, 30));
    assert!(Quality::Medium.bitrate(1920, 1080, 30) < Quality::High.bitrate(1920, 1080, 30));
}

#[test]
fn monitor_ids_read_back_as_their_index() {
    for index in [0usize, 1, 2, 9, 10, 42, 1234] {
        assert_eq!(monitor_index(&monitor_target_id(index)), Some(index));
    }
    assert_eq!(monitor_index("monitor-monitor-7"), Some(7));
    assert_eq!(monitor_index("5"), Some(5));
    assert_eq!(monitor_index("monitor-"), None);
    assert_eq!(monitor_index("monitor-x"), None);
    assert_eq!(monitor_index("monitor--1"), None);
}

#[test]
fn window_viewport_maps_from_frame_bounds_when_reported() {
    let bounds = ScreenRect { left: 90, top: 40, right: 910, bottom: 660 };
    let (clip, mapping) = window_viewport(100, 70, 800, 580, Some(bounds));
    assert_eq!(clip, ScreenRect { left: 100, top: 70, right: 900, bottom: 650 });
    assert_eq!(mapping, bounds);
    let (clip, mapping) = window_viewport(-20, 5, 300, 200, None);
    assert_eq!(clip, ScreenRect { left: -20, top: 5, right: 280, bottom: 205 });
    assert_eq!(mapping, clip);
}

#[test]
fn letterbox_box_follows_floating_point_scaling() {
    let mut source = frame(159, 848, 0);
    source.bgra.fill(255);
    assert_eq!(scaled_box(&source, 800, 600), (112, 600));
    let output = letterbox_to(&source, 800, 600);
    let row = &output.bgra[300 * 3200..301 * 3200];
    assert!(row[343 * 4..344 * 4].iter().all(|byte| *byte == 0));
    assert!(row[344 * 4..456 * 4].iter().all(|byte| *byte == 255));
    assert!(row[456 * 4..].iter().all(|byte| *byte == 0));
}
