//! MP4-to-GIF conversion: the decisions taken for each decoded sample, with the decoder's
//! reads and the file's writes left to the caller.

use vstd::prelude::*;
use crate::error::{AirecError, ErrorCode, ErrorData};
use crate::frame_diff::{FrameDiffer, composite, difference_outcome, first_outcome, rgb_of};
use crate::gif::{
    GifEncoder, GifFrame, Palette, fits_canvas, fixed_color, fixed_gif_palette, header_bytes, timed_frame_bytes,
    write_timed_frame,
};
use crate::image::{decoder_error, dimension_error, gif_dimensions, is_decoder_error, is_dimension_error, scaled_dimensions};
use crate::sampler::{SampleTiming, TimestampSampler, observed, spec_timeline_delay};

verus! {

/// Settings for converting an MP4 recording into an animated GIF.
#[derive(Clone, Copy, Debug, PartialEq, Eq, Structural)]
pub struct ConversionOptions {
    /// Requested GIF sampling rate; GIF timing supports at most 100 frames per second.
    pub fps: u32,
    /// Frames wider than this are scaled down, keeping their aspect ratio.
    pub max_width: Option<u32>,
}

impl Default for ConversionOptions {
    fn default() -> (options: ConversionOptions)
        ensures
            options == (ConversionOptions { fps: 10, max_width: None }),
    {
        ConversionOptions { fps: 10, max_width: None }
    }
}

/// What a finished conversion reports.
#[derive(Clone, Debug)]
pub struct ConversionResult {
    pub output: String,
    pub width: u32,
    pub height: u32,
    pub frames: u64,
    pub duration_ms: u64,
}

/// Whether the options can be used: a rate of 1 to 100 frames per second and, if a maximum
/// width is given, a positive one.
pub open spec fn options_valid(options: ConversionOptions) -> bool {
    &&& 1 <= options.fps <= 100
    &&& options.max_width != Some(0u32)
}

/// Whether `error` is the report of the first thing wrong with `options`.
pub open spec fn is_options_error(error: AirecError, options: ConversionOptions) -> bool {
    &&& error.code == ErrorCode::CaptureInitFailed
    &&& if !(1 <= options.fps <= 100) {
        &&& error.message@ == "GIF fps must be between 1 and 100"@
        &&& error.data == (ErrorData::Fps { fps: options.fps })
    } else {
        &&& error.message@ == "GIF maximum width must be greater than zero"@
        &&& error.data == (ErrorData::MaxWidth { max_width: options.max_width })
    }
}

/// Checks the conversion options.
pub fn validate_options(options: ConversionOptions) -> (result: Result<(), AirecError>)
    ensures
        result is Ok <==> options_valid(options),
        result is Err ==> is_options_error(result->Err_0, options),
{
    if !(1 <= options.fps && options.fps <= 100) {
        return Err(
            AirecError::new(
                ErrorCode::CaptureInitFailed,
                String::from_str("GIF fps must be between 1 and 100"),
                ErrorData::Fps { fps: options.fps },
            ),
        );
    }
    if options.max_width == Some(0u32) {
        return Err(
            AirecError::new(
                ErrorCode::CaptureInitFailed,
                String::from_str("GIF maximum width must be greater than zero"),
                ErrorData::MaxWidth { max_width: options.max_width },
            ),
        );
    }
    Ok(())
}

/// The size of decoded frames and the distance between their rows in bytes, negative for
/// bottom-up rows.
#[derive(Clone, Copy, Debug, PartialEq, Eq, Structural)]
pub struct FrameLayout {
    pub width: u32,
    pub height: u32,
    pub stride: i32,
}

/// A 32-bit attribute value read as the signed stride it stores.
pub open spec fn signed_stride(value: u32) -> int {
    if value <= i32::MAX {
        value as int
    } else {
        value - 0x1_0000_0000
    }
}

/// The layout of frames of `width` by `height` decoded to RGB32, with the stride the media
/// type declares (else the packed row size); a zero size, a row size beyond `i32`, or a stride
/// shorter than a row is refused.
pub fn decoded_layout(width: u32, height: u32, default_stride: Option<u32>, input: &str) -> (result: Result<FrameLayout, AirecError>)
    ensures
        width == 0 || height == 0 ==> result is Err && is_decoder_error(
            result->Err_0,
            input@,
            "read decoded frame size"@,
            "decoded video has zero width or height"@,
        ),
        width != 0 && height != 0 && width * 4 > i32::MAX ==> result is Err && is_dimension_error(
            result->Err_0,
            width,
            height,
        ),
        width != 0 && height != 0 && width * 4 <= i32::MAX ==> ({
            let stride = match default_stride {
                Some(value) => signed_stride(value),
                None => width * 4,
            };
            &&& (stride == i32::MIN || (if stride < 0 { -stride } else { stride }) < width * 4) ==> result is Err
                && is_decoder_error(
                result->Err_0,
                input@,
                "read decoded frame stride"@,
                "decoded RGB32 stride is invalid"@,
            )
            &&& !(stride == i32::MIN || (if stride < 0 { -stride } else { stride }) < width * 4) ==> result
                == Ok::<FrameLayout, AirecError>(FrameLayout { width, height, stride: stride as i32 })
        }),
{
    if width == 0 || height == 0 {
        return Err(decoder_error(input, "read decoded frame size", String::from_str("decoded video has zero width or height")));
    }
    if width > 0x1fff_ffff {
        return Err(dimension_error(width, height));
    }
    let packed: i32 = (width * 4) as i32;
    let stride: i32 = match default_stride {
        Some(value) => if value <= 0x7fff_ffff {
            value as i32
        } else {
            (value as i64 - 0x1_0000_0000i64) as i32
        },
        None => packed,
    };
    if stride == i32::MIN || (if stride < 0 { -stride } else { stride }) < packed {
        return Err(decoder_error(input, "read decoded frame stride", String::from_str("decoded RGB32 stride is invalid")));
    }
    Ok(FrameLayout { width, height, stride })
}

/// A frame waiting for the time at which the next one starts.
pub struct PendingFrame {
    pub image: GifFrame,
    pub start_hns: u64,
}

/// The GIF under construction: its bytes so far, the state later frames are compared
/// against, and the last frame, not yet written.
pub struct GifCanvas {
    pub gif: GifEncoder,
    pub differ: FrameDiffer,
    pub pending: PendingFrame,
}

/// `value + more`, or `u64::MAX` when that does not fit.
pub open spec fn saturating_sum(value: u64, more: int) -> u64 {
    if value + more > u64::MAX {
        u64::MAX
    } else {
        (value + more) as u64
    }
}

/// How many GIF frames a frame shown for `delay` centiseconds takes (each holds at most
/// 65535).
pub open spec fn frame_count(delay: int) -> int {
    (delay + 65534) / 65535
}

/// The milliseconds that `delay` centiseconds stand for, saturating.
pub open spec fn delay_millis(delay: int) -> int {
    if delay * 10 > u64::MAX {
        u64::MAX as int
    } else {
        delay * 10
    }
}

/// `palette` is the fixed 256-color table: entry `i` is `fixed_color(i)`.
pub open spec fn is_fixed_palette(palette: Palette) -> bool {
    &&& palette.wf()
    &&& palette.table_size == 256
    &&& palette.colors@.len() == 256
    &&& forall|i: int| 0 <= i < 256 ==> #[trigger] palette.colors@[i] == fixed_color(i)
}

/// A conversion in progress.
pub struct GifConversion {
    pub options: ConversionOptions,
    pub sampler: TimestampSampler,
    /// The GIF's size, fixed by the first selected sample.
    pub dimensions: Option<(u32, u32)>,
    pub canvas: Option<GifCanvas>,
    pub frames: u64,
    pub duration_ms: u64,
}

impl GifConversion {
    pub open spec fn wf(&self) -> bool {
        &&& options_valid(self.options)
        &&& self.sampler.fps == self.options.fps
        &&& self.dimensions matches Some((w, h)) ==> 1 <= w <= 65535 && 1 <= h <= 65535
        &&& self.canvas matches Some(canvas) ==> {
            &&& self.dimensions matches Some((w, h))
            &&& canvas.gif.width == w
            &&& canvas.gif.height == h
            &&& canvas.differ.wf()
            &&& canvas.differ.width == w
            &&& canvas.differ.height == h
            &&& canvas.pending.image.wf()
            &&& fits_canvas(canvas.pending.image, w as u16, h as u16)
        }
    }

    /// A conversion that has seen no sample, or the report of what is wrong with `options`.
    pub fn start(options: ConversionOptions) -> (result: Result<GifConversion, AirecError>)
        ensures
            result is Ok <==> options_valid(options),
            result is Err ==> is_options_error(result->Err_0, options),
            result matches Ok(conversion) ==> {
                &&& conversion.wf()
                &&& conversion.options == options
                &&& conversion.sampler.first_timestamp is None
                &&& conversion.sampler.next_sample_slot == 0
                &&& conversion.sampler.source_end_hns == 0
                &&& conversion.sampler.last_source_timestamp_hns is None
                &&& conversion.sampler.last_positive_delta_hns is None
                &&& conversion.sampler.last_sample_duration_hns == 0
                &&& conversion.dimensions is None
                &&& conversion.canvas is None
                &&& conversion.frames == 0
                &&& conversion.duration_ms == 0
            },
    {
        match validate_options(options) {
            Err(error) => Err(error),
            Ok(()) => Ok(
                GifConversion {
                    options,
                    sampler: TimestampSampler::new(options.fps),
                    dimensions: None,
                    canvas: None,
                    frames: 0,
                    duration_ms: 0,
                },
            ),
        }
    }

    /// Times a decoded sample and says whether it is drawn.
    pub fn observe(&mut self, timestamp: i64, duration_hns: u64) -> (timing: SampleTiming)
        requires
            old(self).wf(),
        ensures
            final(self).wf(),
            observed(old(self).sampler, final(self).sampler, timestamp, duration_hns, timing),
            final(self).options == old(self).options,
            final(self).dimensions == old(self).dimensions,
            final(self).canvas == old(self).canvas,
            final(self).frames == old(self).frames,
            final(self).duration_ms == old(self).duration_ms,
    {
        self.sampler.observe(timestamp, duration_hns)
    }

    /// The decoder's frame size changed to `changed` from `current`: refused once the GIF has
    /// begun, since its size is fixed.
    pub fn media_type_change(&self, current: (u32, u32), changed: (u32, u32), input: &str) -> (result: Result<(), AirecError>)
        ensures
            result is Err <==> (self.canvas is Some && changed != current),
            result is Err ==> is_decoder_error(
                result->Err_0,
                input@,
                "handle media type change"@,
                "video dimensions changed during conversion"@,
            ),
    {
        if self.canvas.is_some() && (changed.0 != current.0 || changed.1 != current.1) {
            return Err(
                decoder_error(
                    input,
                    "handle media type change",
                    String::from_str("video dimensions changed during conversion"),
                ),
            );
        }
        Ok(())
    }

    /// The GIF's size for a video of `layout_width` by `layout_height`: chosen at the first
    /// selected sample and kept from then on.
    pub fn output_dimensions(&mut self, layout_width: u32, layout_height: u32) -> (result: Result<(u32, u32), AirecError>)
        requires
            old(self).wf(),
        ensures
            final(self).wf(),
            final(self).options == old(self).options,
            final(self).sampler == old(self).sampler,
            final(self).canvas == old(self).canvas,
            final(self).frames == old(self).frames,
            final(self).duration_ms == old(self).duration_ms,
            old(self).dimensions matches Some(size) ==> result == Ok::<(u32, u32), AirecError>(size)
                && final(self).dimensions == old(self).dimensions,
            old(self).dimensions is None ==> match gif_dimensions(layout_width, layout_height, old(self).options.max_width) {
                Ok((w, h)) => result == Ok::<(u32, u32), AirecError>((w as u32, h as u32))
                    && final(self).dimensions == Some((w as u32, h as u32)),
                Err((w, h)) => result is Err && is_dimension_error(result->Err_0, w as u32, h as u32)
                    && final(self).dimensions is None,
            },
    {
        match self.dimensions {
            Some(size) => Ok(size),
            None => {
                let size = scaled_dimensions(layout_width, layout_height, self.options.max_width)?;
                self.dimensions = Some(size);
                Ok(size)
            },
        }
    }

    /// Draws a selected sample, scaled to the GIF's size, that starts at `relative_hns`.
    ///
    /// The first one begins the GIF with the fixed global palette and becomes the pending
    /// frame. Each later one goes through `FrameDiffer::difference`: where that gives a frame,
    /// the pending frame is written for the time up to `relative_hns` and the new frame becomes
    /// the pending one; where it gives none, the pending frame lasts longer.
    pub fn add_frame(&mut self, scaled: &[u8], relative_hns: u64)
        requires
            old(self).wf(),
            old(self).dimensions matches Some((w, h)) && scaled@.len() == w * h * 4,
        ensures
            final(self).wf(),
            final(self).options == old(self).options,
            final(self).sampler == old(self).sampler,
            final(self).dimensions == old(self).dimensions,
            final(self).canvas is Some,
            ({
                let (w, h) = old(self).dimensions->Some_0;
                let after = final(self).canvas->Some_0;
                &&& after.differ.previous_source@ == rgb_of(scaled@)
                &&& old(self).canvas is None ==> {
                    &&& after.pending.start_hns == relative_hns
                    &&& first_outcome(scaled@, w as u16, h as u16, after.pending.image, after.differ)
                    &&& exists|palette: Palette|
                        is_fixed_palette(palette) && after.gif.bytes@ == #[trigger] header_bytes(
                            w as u16,
                            h as u16,
                            palette,
                        )
                    &&& final(self).frames == old(self).frames
                    &&& final(self).duration_ms == old(self).duration_ms
                }
                &&& old(self).canvas matches Some(before) ==> {
                    ||| {
                        &&& difference_outcome(before.differ, scaled@, after.differ, None)
                        &&& after.pending == before.pending
                        &&& after.gif.bytes@ == before.gif.bytes@
                        &&& final(self).frames == old(self).frames
                        &&& final(self).duration_ms == old(self).duration_ms
                    }
                    ||| {
                        let delay = spec_timeline_delay(before.pending.start_hns, relative_hns);
                        &&& difference_outcome(before.differ, scaled@, after.differ, Some(after.pending.image))
                        &&& after.pending.start_hns == relative_hns
                        &&& after.gif.bytes@ == before.gif.bytes@ + timed_frame_bytes(
                            before.pending.image,
                            delay as nat,
                        )
                        &&& final(self).frames == saturating_sum(old(self).frames, frame_count(delay))
                        &&& final(self).duration_ms == saturating_sum(
                            old(self).duration_ms,
                            delay_millis(delay),
                        )
                    }
                }
            }),
    {
        let (width, height) = match self.dimensions {
            Some(size) => size,
            None => (0, 0),
        };
        let gif_width = width as u16;
        let gif_height = height as u16;
        match self.canvas.take() {
            None => {
                let (image, differ) = FrameDiffer::first(scaled, gif_width, gif_height);
                let palette = fixed_gif_palette();
                let gif = GifEncoder::new(gif_width, gif_height, &palette);
                proof {
                    assert(is_fixed_palette(palette));
                }
                self.canvas = Some(GifCanvas { gif, differ, pending: PendingFrame { image, start_hns: relative_hns } });
            },
            Some(canvas) => {
                let GifCanvas { mut gif, mut differ, pending } = canvas;
                match differ.difference(scaled) {
                    None => {
                        self.canvas = Some(GifCanvas { gif, differ, pending });
                    },
                    Some(image) => {
                        let written = write_timed_frame(&mut gif, &pending.image, pending.start_hns, relative_hns);
                        let (frames, duration_ms) = match written {
                            Ok(counts) => counts,
                            Err(_) => (0, 0),
                        };
                        self.frames = self.frames.saturating_add(frames);
                        self.duration_ms = self.duration_ms.saturating_add(duration_ms);
                        self.canvas = Some(
                            GifCanvas { gif, differ, pending: PendingFrame { image, start_hns: relative_hns } },
                        );
                    },
                }
            },
        }
    }

    /// Writes the pending frame until the end of the source and closes the GIF, handing out
    /// its bytes and what was converted; a source with no drawn sample is refused.
    pub fn finish(self, input: &str, output: String) -> (result: Result<(Vec<u8>, ConversionResult), AirecError>)
        requires
            self.wf(),
        ensures
            self.canvas is None ==> result is Err && is_decoder_error(
                result->Err_0,
                input@,
                "decode video"@,
                "input contains no decodable video frames"@,
            ),
            self.canvas matches Some(canvas) ==> {
                let (w, h) = self.dimensions->Some_0;
                let end = self.sampler.spec_end_hns(canvas.pending.start_hns);
                let delay = spec_timeline_delay(canvas.pending.start_hns, end as u64);
                &&& result is Ok
                &&& result->Ok_0.0@ == canvas.gif.bytes@ + timed_frame_bytes(canvas.pending.image, delay as nat)
                    + seq![0x3bu8]
                &&& result->Ok_0.1.output == output
                &&& result->Ok_0.1.width == w
                &&& result->Ok_0.1.height == h
                &&& result->Ok_0.1.frames == saturating_sum(self.frames, frame_count(delay))
                &&& result->Ok_0.1.duration_ms == saturating_sum(self.duration_ms, delay_millis(delay))
            },
    {
        let GifConversion { options, sampler, dimensions, canvas, frames, duration_ms } = self;
        let canvas = match canvas {
            Some(canvas) => canvas,
            None => {
                return Err(
                    decoder_error(input, "decode video", String::from_str("input contains no decodable video frames")),
                );
            },
        };
        let (width, height) = match dimensions {
            Some(size) => size,
            None => (0, 0),
        };
        let GifCanvas { mut gif, differ, pending } = canvas;
        let end_hns = sampler.end_hns(pending.start_hns);
        let written = write_timed_frame(&mut gif, &pending.image, pending.start_hns, end_hns);
        let (written_frames, written_ms) = match written {
            Ok(counts) => counts,
            Err(_) => (0, 0),
        };
        let bytes = gif.finish();
        let result = ConversionResult {
            output,
            width,
            height,
            frames: frames.saturating_add(written_frames),
            duration_ms: duration_ms.saturating_add(written_ms),
        };
        Ok((bytes, result))
    }
}

} // verus!
