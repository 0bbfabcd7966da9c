use airec::frame_diff::FrameDiffer;
use airec::gif::{fixed_gif_palette, GifEncoder, GifFrame, Palette};
use airec::image::{downscale_bgra, locked_2d_sizes, scaled_dimensions, source_reader_wide_path};
use airec::lzw::lzw_encode;
use airec::palette::{color_error, fixed_palette, quantize_bgra};
use airec::sampler::{timeline_delay_centiseconds, TimestampSampler};

fn wide(text: &str) -> Vec<u16> {
    text.encode_utf16().collect()
}

#[test]
fn fixed_palette_and_quantizer_are_stable() {
    let palette = fixed_palette();
    assert_eq!(&palette[0..3], &[0, 0, 0]);
    assert_eq!(&palette[255 * 3..], &[255, 255, 255]);
    assert_eq!(quantize_bgra(&[0, 0, 255, 255]), vec![0b1110_0000]);
    assert_eq!(quantize_bgra(&[255, 0, 0, 255]), vec![0b0000_0011]);
    assert_eq!(quantize_bgra(&[0, 255, 0, 255]), vec![0b0001_1100]);
}

#[test]
fn dimensions_preserve_aspect_ratio_without_upscaling() {
    assert_eq!(scaled_dimensions(1920, 1080, Some(640)).unwrap(), (640, 360));
    assert_eq!(scaled_dimensions(320, 200, Some(640)).unwrap(), (320, 200));
    assert_eq!(scaled_dimensions(3, 2, Some(2)).unwrap(), (2, 1));
}

#[test]
fn source_reader_path_removes_verbatim_prefixes() {
    let drive = source_reader_wide_path(&wide(r"\\?\C:\recordings\evidence.mp4"));
    assert_eq!(
        String::from_utf16(&drive[..drive.len() - 1]).unwrap(),
        r"C:\recordings\evidence.mp4"
    );
    let unc = source_reader_wide_path(&wide(r"\\?\UNC\server\share\evidence.mp4"));
    assert_eq!(
        String::from_utf16(&unc[..unc.len() - 1]).unwrap(),
        r"\\server\share\evidence.mp4"
    );
}

#[test]
fn sparse_source_timestamps_preserve_elapsed_timeline() {
    let mut sampler = TimestampSampler::new(10);
    let samples = [
        (0_i64, 5_000_000_u64),
        (5_000_000, 5_000_000),
        (20_000_000, 5_000_000),
    ];
    let mut selected = Vec::new();
    for (timestamp, duration) in samples {
        let timing = sampler.observe(timestamp, duration);
        if timing.selected {
            selected.push(timing.relative_hns);
        }
    }
    assert_eq!(selected, [0, 5_000_000, 20_000_000]);
    let end = sampler.end_hns(*selected.last().unwrap());
    let mut delays = Vec::new();
    for index in 0..selected.len() {
        let stop = if index + 1 < selected.len() { selected[index + 1] } else { end };
        delays.push(timeline_delay_centiseconds(selected[index], stop));
    }
    assert_eq!(delays, [50, 150, 50]);
    assert_eq!(delays.into_iter().sum::<u64>(), 250);
}

#[test]
fn missing_final_duration_uses_last_source_timestamp_delta() {
    let mut sampler = TimestampSampler::new(10);
    let first = sampler.observe(0, 0);
    let second = sampler.observe(10_000_000, 0);
    assert!(first.selected);
    assert!(second.selected);
    assert_eq!(sampler.end_hns(second.relative_hns), 20_000_000);
    assert_eq!(
        timeline_delay_centiseconds(second.relative_hns, sampler.end_hns(second.relative_hns)),
        100
    );
}

#[test]
fn nearest_neighbor_downscale_selects_expected_pixels() {
    let source = [
        1, 0, 0, 255, 2, 0, 0, 255, 3, 0, 0, 255, 4, 0, 0, 255, 5, 0, 0, 255, 6, 0, 0, 255, 7, 0, 0,
        255, 8, 0, 0, 255, 9, 0, 0, 255, 10, 0, 0, 255, 11, 0, 0, 255, 12, 0, 0, 255, 13, 0, 0, 255,
        14, 0, 0, 255, 15, 0, 0, 255, 16, 0, 0, 255,
    ];
    let scaled = downscale_bgra(&source, 4, 4, 2, 2);
    assert_eq!(scaled, [1, 0, 0, 255, 3, 0, 0, 255, 9, 0, 0, 255, 11, 0, 0, 255]);
}

#[derive(Clone, Copy, Debug)]
enum BenchmarkScenario {
    Cursor,
    Localized,
    Scroll,
    FullFrame,
}

impl BenchmarkScenario {
    const ALL: [Self; 4] = [Self::Cursor, Self::Localized, Self::Scroll, Self::FullFrame];

    fn name(self) -> &'static str {
        match self {
            Self::Cursor => "cursor",
            Self::Localized => "localized",
            Self::Scroll => "scroll",
            Self::FullFrame => "full-frame",
        }
    }
}

struct BenchmarkResult {
    baseline_bytes: usize,
    optimized_bytes: usize,
    baseline_mse: f64,
    optimized_mse: f64,
}

fn desktop_frame(width: usize, height: usize) -> Vec<u8> {
    let mut frame = vec![0_u8; width * height * 4];
    for y in 0..height {
        for x in 0..width {
            let color = if x > width * 2 / 5 && x < width * 9 / 10 && y > height / 5 && y < height * 2 / 3 {
                let red = ((x * 11 + y * 3) & 0xff) as u8;
                let green = ((x * 5 + y * 7 + (x / 13) * 17) & 0xff) as u8;
                let blue = ((x * 3 + y * 13 + (y / 11) * 19) & 0xff) as u8;
                [red, green, blue]
            } else if y < height / 12 {
                [42, 38, 35]
            } else if x < width / 7 {
                [232, 228, 222]
            } else if y > height * 11 / 12 {
                [215, 210, 204]
            } else if (y / 19) % 5 == 0 && x > width / 5 && x < width * 4 / 5 {
                [210, 205, 198]
            } else {
                let shade = 244_u8.saturating_sub(((x / 97 + y / 83) % 4) as u8);
                [shade, shade.saturating_sub(2), shade.saturating_sub(5)]
            };
            set_rgb(&mut frame, width, x, y, color);
        }
    }
    frame
}

fn set_rgb(frame: &mut [u8], width: usize, x: usize, y: usize, rgb: [u8; 3]) {
    let offset = (y * width + x) * 4;
    frame[offset..offset + 4].copy_from_slice(&[rgb[2], rgb[1], rgb[0], 255]);
}

fn draw_cursor(frame: &mut [u8], width: usize, height: usize, x: usize, y: usize) {
    for dy in 0..18_usize {
        for dx in 0..12_usize {
            if x + dx >= width || y + dy >= height || dx > dy / 2 + 1 {
                continue;
            }
            let edge = dx == 0 || dx == dy / 2 + 1 || dy == 17;
            set_rgb(frame, width, x + dx, y + dy, if edge { [12, 12, 12] } else { [250, 250, 250] });
        }
    }
}

fn fixture_frames(scenario: BenchmarkScenario, width: usize, height: usize) -> Vec<Vec<u8>> {
    let base = desktop_frame(width, height);
    (0..31_usize)
        .map(|frame_index| {
            let mut frame = base.clone();
            match scenario {
                BenchmarkScenario::Cursor => {
                    let x = width / 5 + frame_index * (width * 3 / 5) / 30;
                    let y = height / 4 + ((frame_index * 37) % (height / 2).max(1));
                    draw_cursor(&mut frame, width, height, x, y);
                }
                BenchmarkScenario::Localized => {
                    let characters = frame_index.saturating_sub(5).min(20);
                    for character in 0..characters {
                        let origin_x = width / 3 + character * 7;
                        let origin_y = height / 2;
                        for dy in 0..11 {
                            for dx in 0..5 {
                                if (dx + dy + character) % 3 != 0
                                    && origin_x + dx < width
                                    && origin_y + dy < height
                                {
                                    set_rgb(&mut frame, width, origin_x + dx, origin_y + dy, [35, 71, 118]);
                                }
                            }
                        }
                    }
                }
                BenchmarkScenario::Scroll => {
                    for y in height / 12..height * 11 / 12 {
                        for x in width / 7..width {
                            let source_y = (y + frame_index * 13) % height;
                            let shade = ((source_y / 9 + x / 23) % 9) as u8;
                            let color = if source_y % 37 < 3 {
                                [55, 92, 136]
                            } else {
                                [245 - shade * 3, 242 - shade * 2, 236 - shade]
                            };
                            set_rgb(&mut frame, width, x, y, color);
                        }
                    }
                }
                BenchmarkScenario::FullFrame => {
                    for y in 0..height {
                        for x in 0..width {
                            let seed = (x as u32).wrapping_mul(0x9e37_79b9)
                                ^ (y as u32).wrapping_mul(0x85eb_ca6b)
                                ^ (frame_index as u32).wrapping_mul(0xc2b2_ae35);
                            let mixed = seed ^ (seed >> 15) ^ seed.rotate_left(11);
                            set_rgb(
                                &mut frame,
                                width,
                                x,
                                y,
                                [mixed as u8, (mixed >> 8) as u8, (mixed >> 16) as u8],
                            );
                        }
                    }
                }
            }
            frame
        })
        .collect()
}

fn pixel_error(source: &[u8], rendered: &[[u8; 3]]) -> u128 {
    source
        .chunks_exact(4)
        .zip(rendered)
        .map(|(pixel, &rgb)| u128::from(color_error([pixel[2], pixel[1], pixel[0]], rgb)))
        .sum()
}

fn benchmark_scenario(scenario: BenchmarkScenario, width: u16, height: u16) -> BenchmarkResult {
    let fixtures = fixture_frames(scenario, usize::from(width), usize::from(height));
    let fixed_colors = fixed_palette()
        .chunks_exact(3)
        .map(|color| [color[0], color[1], color[2]])
        .collect::<Vec<_>>();
    let fixed = Palette::new(fixed_colors.clone());
    let mut baseline = GifEncoder::new(width, height, &fixed);
    let mut baseline_error = 0_u128;
    for frame in &fixtures {
        let indexed = quantize_bgra(frame);
        let rendered = indexed.iter().map(|&index| fixed_colors[usize::from(index)]).collect::<Vec<_>>();
        baseline_error += pixel_error(frame, &rendered);
        baseline
            .write_frame(
                &GifFrame {
                    left: 0,
                    top: 0,
                    width,
                    height,
                    indexed,
                    palette: fixed.duplicate(),
                    local_palette: false,
                    transparent: false,
                },
                10,
            )
            .unwrap();
    }
    let baseline_bytes = baseline.finish().len();

    let (first, mut differ) = FrameDiffer::first(&fixtures[0], width, height);
    let mut optimized = GifEncoder::new(width, height, &fixed_gif_palette());
    let mut optimized_error = pixel_error(&fixtures[0], &differ.rendered);
    let mut pending = first;
    let mut pending_delay = 10_u16;
    for frame in fixtures.iter().skip(1) {
        let difference = differ.difference(frame);
        optimized_error += pixel_error(frame, &differ.rendered);
        if let Some(difference) = difference {
            optimized.write_frame(&pending, pending_delay).unwrap();
            pending = difference;
            pending_delay = 10;
        } else {
            pending_delay += 10;
        }
    }
    optimized.write_frame(&pending, pending_delay).unwrap();
    let optimized_bytes = optimized.finish().len();
    let samples = fixtures.len() as f64 * f64::from(width) * f64::from(height) * 3.0;
    BenchmarkResult {
        baseline_bytes,
        optimized_bytes,
        baseline_mse: baseline_error as f64 / samples,
        optimized_mse: optimized_error as f64 / samples,
    }
}

#[test]
fn deterministic_gif_corpus_preserves_fidelity_and_static_target() {
    for scenario in BenchmarkScenario::ALL {
        let result = benchmark_scenario(scenario, 96, 54);
        assert!(
            result.optimized_mse <= result.baseline_mse,
            "{} fidelity regressed: {} > {}",
            scenario.name(),
            result.optimized_mse,
            result.baseline_mse
        );
        assert!(
            result.optimized_bytes < result.baseline_bytes
                || matches!(scenario, BenchmarkScenario::Scroll | BenchmarkScenario::FullFrame),
            "{} unexpectedly grew: {} -> {}",
            scenario.name(),
            result.baseline_bytes,
            result.optimized_bytes
        );
    }
}

#[test]
fn transparent_local_palette_frames_composite_to_encoder_state() {
    let frames = fixture_frames(BenchmarkScenario::Cursor, 96, 54);
    let (first, mut differ) = FrameDiffer::first(&frames[0], 96, 54);
    let expected_first = differ.rendered.clone();
    let second = differ.difference(&frames[1]).unwrap();
    let expected_second = differ.rendered.clone();
    let mut encoder = GifEncoder::new(96, 54, &fixed_gif_palette());
    encoder.write_frame(&first, 10).unwrap();
    encoder.write_frame(&second, 10).unwrap();
    let decoded = decode_gif_frames(&encoder.finish());
    assert_eq!(decoded, [expected_first, expected_second]);
}

fn decode_gif_frames(bytes: &[u8]) -> Vec<Vec<[u8; 3]>> {
    assert_eq!(&bytes[..6], b"GIF89a");
    let width = usize::from(u16::from_le_bytes([bytes[6], bytes[7]]));
    let height = usize::from(u16::from_le_bytes([bytes[8], bytes[9]]));
    let packed = bytes[10];
    let mut offset = 13_usize;
    let global_palette = if packed & 0x80 != 0 {
        read_palette(bytes, &mut offset, 1_usize << (usize::from(packed & 7) + 1))
    } else {
        Vec::new()
    };
    let mut transparent_index = None;
    let mut canvas = vec![[0_u8; 3]; width * height];
    let mut frames = Vec::new();
    loop {
        match bytes[offset] {
            0x21 => {
                let label = bytes[offset + 1];
                offset += 2;
                if label == 0xf9 {
                    assert_eq!(bytes[offset], 4);
                    transparent_index = if bytes[offset + 1] & 1 != 0 { Some(bytes[offset + 4]) } else { None };
                    offset += 6;
                } else {
                    let _ = read_sub_blocks(bytes, &mut offset);
                }
            }
            0x2c => {
                let left = usize::from(u16::from_le_bytes([bytes[offset + 1], bytes[offset + 2]]));
                let top = usize::from(u16::from_le_bytes([bytes[offset + 3], bytes[offset + 4]]));
                let image_width = usize::from(u16::from_le_bytes([bytes[offset + 5], bytes[offset + 6]]));
                let image_height = usize::from(u16::from_le_bytes([bytes[offset + 7], bytes[offset + 8]]));
                let descriptor = bytes[offset + 9];
                offset += 10;
                let local_palette;
                let palette = if descriptor & 0x80 != 0 {
                    local_palette = read_palette(bytes, &mut offset, 1_usize << (usize::from(descriptor & 7) + 1));
                    &local_palette
                } else {
                    &global_palette
                };
                let minimum_code_size = bytes[offset];
                offset += 1;
                let compressed = read_sub_blocks(bytes, &mut offset);
                let indexed = decode_lzw(&compressed, minimum_code_size);
                assert_eq!(indexed.len(), image_width * image_height);
                for y in 0..image_height {
                    for x in 0..image_width {
                        let index = indexed[y * image_width + x];
                        if transparent_index == Some(index) {
                            continue;
                        }
                        canvas[(top + y) * width + left + x] = palette[usize::from(index)];
                    }
                }
                frames.push(canvas.clone());
                transparent_index = None;
            }
            0x3b => break,
            byte => panic!("unexpected GIF block 0x{byte:02x}"),
        }
    }
    frames
}

fn read_palette(bytes: &[u8], offset: &mut usize, colors: usize) -> Vec<[u8; 3]> {
    let palette = bytes[*offset..*offset + colors * 3]
        .chunks_exact(3)
        .map(|color| [color[0], color[1], color[2]])
        .collect();
    *offset += colors * 3;
    palette
}

fn read_sub_blocks(bytes: &[u8], offset: &mut usize) -> Vec<u8> {
    let mut data = Vec::new();
    loop {
        let length = usize::from(bytes[*offset]);
        *offset += 1;
        if length == 0 {
            return data;
        }
        data.extend_from_slice(&bytes[*offset..*offset + length]);
        *offset += length;
    }
}

/// A plain GIF LZW decoder, independent of the encoder under test.
fn decode_lzw(data: &[u8], minimum_code_size: u8) -> Vec<u8> {
    let clear = 1_usize << minimum_code_size;
    let end = clear + 1;
    let mut table: Vec<Vec<u8>> = (0..clear).map(|index| vec![index as u8]).collect();
    table.push(Vec::new());
    table.push(Vec::new());
    let mut width = usize::from(minimum_code_size) + 1;
    let mut previous: Option<Vec<u8>> = None;
    let mut output = Vec::new();
    let mut bit_position = 0_usize;
    loop {
        let mut code = 0_usize;
        for bit in 0..width {
            let position = bit_position + bit;
            let byte = data[position / 8];
            if byte >> (position % 8) & 1 != 0 {
                code |= 1 << bit;
            }
        }
        bit_position += width;
        if code == clear {
            table.truncate(end + 1);
            width = usize::from(minimum_code_size) + 1;
            previous = None;
            continue;
        }
        if code == end {
            break;
        }
        let entry = if code < table.len() {
            table[code].clone()
        } else {
            let mut entry = previous.clone().expect("code before any entry");
            entry.push(entry[0]);
            entry
        };
        output.extend_from_slice(&entry);
        if let Some(mut grown) = previous.take() {
            grown.push(entry[0]);
            if table.len() < 4096 {
                table.push(grown);
            }
            if table.len() == 1 << width && width < 12 {
                width += 1;
            }
        }
        previous = Some(entry);
    }
    output
}

#[test]
fn lzw_round_trips_across_code_width_changes() {
    let pixels = (0..20_000).map(|index| ((index * 73 + index / 17) & 0xff) as u8).collect::<Vec<_>>();
    let compressed = lzw_encode(&pixels, 8);
    assert_eq!(decode_lzw(&compressed, 8), pixels);
    let small_pixels = (0..20_000).map(|index| ((index * 5 + index / 23) & 0x03) as u8).collect::<Vec<_>>();
    let compressed = lzw_encode(&small_pixels, 2);
    assert_eq!(decode_lzw(&compressed, 2), small_pixels);
}

fn two_color_frame(palette: &Palette, indexed: Vec<u8>) -> GifFrame {
    GifFrame {
        left: 0,
        top: 0,
        width: 2,
        height: 1,
        indexed,
        palette: palette.duplicate(),
        local_palette: false,
        transparent: false,
    }
}

#[test]
fn gif_has_loop_extension_frames_delays_and_trailer() {
    let palette = Palette::new(vec![[0, 0, 0], [255, 255, 255]]);
    let mut gif = GifEncoder::new(2, 1, &palette);
    let first = two_color_frame(&palette, vec![0, 1]);
    let second = two_color_frame(&palette, vec![1, 0]);
    gif.write_frame(&first, 8).unwrap();
    gif.write_frame(&second, 9).unwrap();
    let bytes = gif.finish();
    assert_eq!(&bytes[..6], b"GIF89a");
    assert_eq!(&bytes[6..10], &[2, 0, 1, 0]);
    assert!(bytes.windows(19).any(|window| window == b"\x21\xff\x0bNETSCAPE2.0\x03\x01\x00\x00\x00"));
    assert!(bytes.windows(8).any(|window| window == b"\x21\xf9\x04\x04\x08\x00\x00\x00"));
    assert!(bytes.windows(8).any(|window| window == b"\x21\xf9\x04\x04\x09\x00\x00\x00"));
    assert_eq!(bytes.last(), Some(&0x3b));
}

use airec::conversion::{validate_options, ConversionOptions, GifConversion};
use airec::error::{ErrorCode, ErrorData};

#[test]
fn conversion_options_default_to_ten_fps_without_a_width_limit() {
    let options = ConversionOptions::default();
    assert_eq!(options, ConversionOptions { fps: 10, max_width: None });
    assert!(validate_options(options).is_ok());
}

#[test]
fn conversion_options_out_of_range_are_refused() {
    let fast = validate_options(ConversionOptions { fps: 101, max_width: None }).unwrap_err();
    assert_eq!(fast.code, ErrorCode::CaptureInitFailed);
    assert_eq!(fast.message, "GIF fps must be between 1 and 100");
    assert!(matches!(fast.data, ErrorData::Fps { fps: 101 }));
    let still = validate_options(ConversionOptions { fps: 0, max_width: Some(0) }).unwrap_err();
    assert!(matches!(still.data, ErrorData::Fps { fps: 0 }));
    let narrow = validate_options(ConversionOptions { fps: 10, max_width: Some(0) }).unwrap_err();
    assert_eq!(narrow.message, "GIF maximum width must be greater than zero");
    assert!(matches!(narrow.data, ErrorData::MaxWidth { max_width: Some(0) }));
    assert!(GifConversion::start(ConversionOptions { fps: 101, max_width: None }).is_err());
}

fn solid_frame(width: usize, height: usize, rgb: [u8; 3]) -> Vec<u8> {
    let mut frame = vec![0_u8; width * height * 4];
    for y in 0..height {
        for x in 0..width {
            set_rgb(&mut frame, width, x, y, rgb);
        }
    }
    frame
}

#[test]
fn conversion_writes_changed_frames_with_their_timeline_delays() {
    let mut conversion = GifConversion::start(ConversionOptions { fps: 10, max_width: Some(4) }).unwrap();
    assert_eq!(conversion.output_dimensions(8, 4).unwrap(), (4, 2));
    let red = solid_frame(4, 2, [255, 0, 0]);
    let blue = solid_frame(4, 2, [0, 0, 255]);
    let samples = [(0_i64, &red), (1_000_000, &red), (2_000_000, &blue), (3_000_000, &blue)];
    for (timestamp, frame) in samples {
        let timing = conversion.observe(timestamp, 1_000_000);
        if timing.selected {
            conversion.add_frame(frame, timing.relative_hns);
        }
    }
    let (bytes, result) = conversion.finish("in.mp4", "out.gif".into()).unwrap();
    assert_eq!((result.width, result.height), (4, 2));
    assert_eq!(result.output, "out.gif");
    assert_eq!(result.frames, 2);
    assert_eq!(result.duration_ms, 400);
    let decoded = decode_gif_frames(&bytes);
    assert_eq!(decoded.len(), 2);
    assert!(decoded[0].iter().all(|&pixel| pixel == [255, 0, 0]));
    assert!(decoded[1].iter().all(|&pixel| pixel == [0, 0, 255]));
    assert!(bytes.windows(8).any(|window| window == b"\x21\xf9\x04\x04\x14\x00\x00\x00"));
}

#[test]
fn conversion_without_frames_is_a_decoder_error() {
    let conversion = GifConversion::start(ConversionOptions::default()).unwrap();
    let error = conversion.finish("in.mp4", "out.gif".into()).unwrap_err();
    assert_eq!(error.code, ErrorCode::CaptureInitFailed);
    assert_eq!(error.message, "input contains no decodable video frames");
}

#[test]
fn conversion_refuses_a_size_change_after_the_first_frame() {
    let mut conversion = GifConversion::start(ConversionOptions::default()).unwrap();
    assert!(conversion.media_type_change((4, 2), (8, 4), "in.mp4").is_ok());
    conversion.output_dimensions(4, 2).unwrap();
    let timing = conversion.observe(0, 0);
    conversion.add_frame(&solid_frame(4, 2, [1, 2, 3]), timing.relative_hns);
    assert!(conversion.media_type_change((4, 2), (4, 2), "in.mp4").is_ok());
    let error = conversion.media_type_change((4, 2), (8, 4), "in.mp4").unwrap_err();
    assert_eq!(error.message, "video dimensions changed during conversion");
}

#[test]
fn predicted_frame_size_matches_the_bytes_written() {
    let palette = Palette::new(vec![[0, 0, 0], [255, 255, 255], [9, 9, 9]]);
    let image = GifFrame {
        left: 0,
        top: 0,
        width: 3,
        height: 2,
        indexed: vec![0, 1, 2, 2, 1, 0],
        palette: palette.duplicate(),
        local_palette: true,
        transparent: true,
    };
    let mut gif = GifEncoder::new(3, 2, &palette);
    let before = gif.bytes.len();
    gif.write_frame(&image, 7).unwrap();
    assert_eq!(gif.bytes.len() - before, airec::gif::encoded_frame_size(&image));
}

#[test]
fn locked_2d_frames_need_a_scanline_and_a_pitch_that_holds_a_row() {
    assert_eq!(locked_2d_sizes("in.mp4", 4, 2, true, 16).unwrap(), (32, 16));
    assert_eq!(locked_2d_sizes("in.mp4", 4, 2, true, -20).unwrap(), (32, 16));
    for (has_scanline, pitch) in [(false, 16), (true, 15), (true, -15), (true, i32::MIN)] {
        let error = locked_2d_sizes("in.mp4", 4, 2, has_scanline, pitch).unwrap_err();
        assert_eq!(error.code, ErrorCode::CaptureInitFailed);
        assert_eq!(error.message, "decoded frame returned an invalid scanline or pitch");
        match error.data {
            ErrorData::Operation { component, operation, input } => {
                assert_eq!(component, "media_foundation_decoder");
                assert_eq!(operation, "lock decoded 2D frame");
                assert_eq!(input, "in.mp4");
            }
            other => panic!("unexpected error data {other:?}"),
        }
    }
}
