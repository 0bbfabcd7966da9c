//! Frame geometry: viewports, even encoder sizes, row packing, GIF output sizing and
//! nearest-neighbour scaling.
use vstd::prelude::*;
use crate::error::{AirecError, ErrorCode, ErrorData};
use crate::model::CaptureFrame;

verus! {

/// A rectangle in physical screen coordinates; `right` and `bottom` are exclusive.
#[derive(Clone, Copy, Debug, PartialEq, Eq, Structural)]
pub struct ScreenRect {
    pub left: i32,
    pub top: i32,
    pub right: i32,
    pub bottom: i32,
}

impl ScreenRect {
    pub fn width(self) -> (width: i32)
        requires
            i32::MIN <= self.right - self.left <= i32::MAX,
        ensures
            width == self.right - self.left,
    {
        self.right - self.left
    }

    pub fn height(self) -> (height: i32)
        requires
            i32::MIN <= self.bottom - self.top <= i32::MAX,
        ensures
            height == self.bottom - self.top,
    {
        self.bottom - self.top
    }

    pub fn contains(self, x: i32, y: i32) -> (inside: bool)
        ensures
            inside == (self.left <= x < self.right && self.top <= y < self.bottom),
    {
        x >= self.left && x < self.right && y >= self.top && y < self.bottom
    }
}

/// The screen rectangle a window's capture shows and the one its input is mapped from: the
/// client area, whose top-left corner is at `(origin_x, origin_y)` and whose client rectangle
/// ends at `(client_right, client_bottom)`; and the window's frame bounds where the window
/// manager reported them, else the client area again.
pub fn window_viewport(
    origin_x: i32,
    origin_y: i32,
    client_right: i32,
    client_bottom: i32,
    frame_bounds: Option<ScreenRect>,
) -> (viewport: (ScreenRect, ScreenRect))
    requires
        origin_x + client_right <= i32::MAX,
        origin_y + client_bottom <= i32::MAX,
        i32::MIN <= origin_x + client_right,
        i32::MIN <= origin_y + client_bottom,
    ensures
        viewport.0 == (ScreenRect {
            left: origin_x,
            top: origin_y,
            right: (origin_x + client_right) as i32,
            bottom: (origin_y + client_bottom) as i32,
        }),
        viewport.1 == match frame_bounds {
            Some(bounds) => bounds,
            None => viewport.0,
        },
{
    let clip = ScreenRect {
        left: origin_x,
        top: origin_y,
        right: origin_x + client_right,
        bottom: origin_y + client_bottom,
    };
    let mapping = match frame_bounds {
        Some(bounds) => bounds,
        None => clip,
    };
    (clip, mapping)
}

/// The smallest even size of at least two that holds `value`.
pub open spec fn spec_even(value: u32) -> int {
    if value <= 2 {
        2
    } else if value % 2 == 0 {
        value as int
    } else {
        value + 1
    }
}

/// Pads a dimension up to the even size that YUV 4:2:0 encoding needs.
pub fn even(value: u32) -> (padded: u32)
    requires
        value < u32::MAX,
    ensures
        padded == spec_even(value),
{
    if value <= 2 {
        2
    } else if value % 2 == 0 {
        value
    } else {
        value + 1
    }
}

/// Byte `index` of a `width` by `height` tightly packed, bottom-up copy of `frame`: row `r`
/// holds source row `height - 1 - r`, cut to the narrower width, and black where the source
/// row is missing or short.
pub open spec fn packed_byte(frame: CaptureFrame, width: u32, height: u32, index: int) -> u8 {
    let row_bytes = width * 4;
    let row = index / row_bytes;
    let column = index % row_bytes;
    let source_row = height - 1 - row;
    let copy_width = (if width <= frame.width {
        width
    } else {
        frame.width
    }) * 4;
    let source = source_row * frame.stride;
    if source_row < frame.height && column < copy_width && source + copy_width <= frame.bgra@.len() {
        frame.bgra@[source + column]
    } else {
        0
    }
}

/// Removes row padding from `frame` and flips it bottom-up, as Media Foundation expects.
pub fn packed_bottom_up(frame: &CaptureFrame, width: u32, height: u32) -> (packed: Vec<u8>)
    requires
        width * 4 <= usize::MAX,
        width * 4 * height <= usize::MAX,
    ensures
        packed@.len() == width * 4 * height,
        forall|i: int| 0 <= i < packed@.len() ==> #[trigger] packed@[i] == packed_byte(*frame, width, height, i),
{
    let row_bytes: usize = width as usize * 4;
    assert(row_bytes * height <= usize::MAX) by (nonlinear_arith)
        requires
            row_bytes == width * 4,
            width * 4 * height <= usize::MAX,
    ;
    let total: usize = row_bytes * height as usize;
    let copy_width: u128 = if width <= frame.width {
        width as u128 * 4
    } else {
        frame.width as u128 * 4
    };
    let mut packed: Vec<u8> = Vec::new();
    let mut k: usize = 0;
    while k < total
        invariant
            k <= total,
            total == width * 4 * height,
            row_bytes == width * 4,
            copy_width == (if width <= frame.width { width } else { frame.width }) * 4,
            packed@.len() == k,
            forall|i: int| 0 <= i < k ==> #[trigger] packed@[i] == packed_byte(*frame, width, height, i),
        decreases total - k,
    {
        proof {
            assert(row_bytes > 0) by (nonlinear_arith)
                requires
                    k < total,
                    total == row_bytes * height,
            ;
        }
        let row: usize = k / row_bytes;
        let column: usize = k % row_bytes;
        proof {
            assert(row < height) by (nonlinear_arith)
                requires
                    row == k / row_bytes,
                    k < row_bytes * height,
                    row_bytes > 0,
            ;
        }
        let source_row: u128 = height as u128 - 1 - row as u128;
        proof {
            assert(source_row * frame.stride <= 0xffff_ffff * 0xffff_ffff) by (nonlinear_arith)
                requires
                    source_row < 0x1_0000_0000,
                    frame.stride < 0x1_0000_0000,
            ;
        }
        let source: u128 = source_row * frame.stride as u128;
        let byte: u8 = if source_row < frame.height as u128 && (column as u128) < copy_width && source
            + copy_width <= frame.bgra.len() as u128 {
            frame.bgra[(source + column as u128) as usize]
        } else {
            0
        };
        packed.push(byte);
        k += 1;
    }
    packed
}

/// Whether `error` reports a `width` by `height` frame that a GIF cannot hold.
pub open spec fn is_dimension_error(error: AirecError, width: u32, height: u32) -> bool {
    &&& error.code == ErrorCode::CaptureInitFailed
    &&& error.message@ == "video dimensions cannot be represented by GIF"@
    &&& error.data == (ErrorData::Dimensions { width, height })
}

pub(crate) fn dimension_error(width: u32, height: u32) -> (error: AirecError)
    ensures
        is_dimension_error(error, width, height),
{
    AirecError::new(
        ErrorCode::CaptureInitFailed,
        String::from_str("video dimensions cannot be represented by GIF"),
        ErrorData::Dimensions { width, height },
    )
}

/// The output size for a `width` by `height` video scaled to at most `max_width` columns with
/// its aspect ratio kept and never enlarged, or the size reported when no GIF can hold it.
pub open spec fn gif_dimensions(width: u32, height: u32, max_width: Option<u32>) -> Result<(int, int), (int, int)> {
    if width == 0 || height == 0 || max_width == Some(0u32) {
        Err((width as int, height as int))
    } else {
        let output_width: int = match max_width {
            Some(maximum) => if maximum < width {
                maximum as int
            } else {
                width as int
            },
            None => width as int,
        };
        let output_height: int = if output_width == width {
            height as int
        } else {
            let rounded = (height * output_width + width / 2) / (width as int);
            if rounded < 1 {
                1
            } else {
                rounded
            }
        };
        if output_width > 65535 || output_height > 65535 {
            Err((output_width, output_height))
        } else {
            Ok((output_width, output_height))
        }
    }
}

/// The GIF canvas for a video: the width capped at `max_width`, the height scaled to match
/// and rounded to nearest; both must fit a GIF's 16-bit fields.
pub fn scaled_dimensions(width: u32, height: u32, max_width: Option<u32>) -> (result: Result<(u32, u32), AirecError>)
    ensures
        match (result, gif_dimensions(width, height, max_width)) {
            (Ok((w, h)), Ok((sw, sh))) => w == sw && h == sh,
            (Err(error), Err((ew, eh))) => is_dimension_error(error, ew as u32, eh as u32),
            _ => false,
        },
{
    if width == 0 || height == 0 || max_width == Some(0u32) {
        return Err(dimension_error(width, height));
    }
    let output_width: u32 = match max_width {
        Some(maximum) => if maximum < width {
            maximum
        } else {
            width
        },
        None => width,
    };
    let output_height: u32 = if output_width == width {
        height
    } else {
        proof {
            assert(height * output_width <= height * width) by (nonlinear_arith)
                requires
                    output_width <= width,
            ;
            assert(height * output_width <= 0xffff_ffff * 0xffff_ffff) by (nonlinear_arith)
                requires
                    output_width <= 0xffff_ffff,
                    height <= 0xffff_ffff,
            ;
            assert(height * output_width + width / 2 < (height + 1) * width) by (nonlinear_arith)
                requires
                    height * output_width <= height * width,
                    width > 0,
            ;
            assert((height * output_width + width / 2) / (width as int) <= height) by (nonlinear_arith)
                requires
                    height * output_width + width / 2 < (height + 1) * width,
                    width > 0,
            ;
        }
        let numerator: u64 = height as u64 * output_width as u64;
        let rounded: u64 = (numerator + width as u64 / 2) / width as u64;
        if rounded < 1 {
            1
        } else {
            rounded as u32
        }
    };
    if output_width > 65535 || output_height > 65535 {
        return Err(dimension_error(output_width, output_height));
    }
    Ok((output_width, output_height))
}

/// The byte length of a `width` by `height` BGRA frame, where it fits in memory.
pub fn frame_buffer_size(width: u32, height: u32) -> (result: Result<usize, AirecError>)
    ensures
        width * height * 4 <= usize::MAX ==> result == Ok::<usize, AirecError>((width * height * 4) as usize),
        width * height * 4 > usize::MAX ==> result is Err && is_dimension_error(result->Err_0, width, height),
{
    proof {
        assert(width * height <= 0xffff_ffff * 0xffff_ffff) by (nonlinear_arith)
            requires
                width <= 0xffff_ffff,
                height <= 0xffff_ffff,
        ;
    }
    let pixels: u128 = width as u128 * height as u128 * 4;
    if pixels > usize::MAX as u128 {
        return Err(dimension_error(width, height));
    }
    Ok(pixels as usize)
}

/// `\\?\`, the verbatim path prefix, as UTF-16.
pub open spec fn verbatim_prefix() -> Seq<u16> {
    seq![92u16, 92u16, 63u16, 92u16]
}

/// `\\?\UNC\`, the verbatim UNC prefix, as UTF-16.
pub open spec fn verbatim_unc_prefix() -> Seq<u16> {
    seq![92u16, 92u16, 63u16, 92u16, 85u16, 78u16, 67u16, 92u16]
}

/// The path the Media Foundation source reader accepts: a verbatim UNC prefix becomes `\\`,
/// a verbatim prefix is dropped, and the result ends in a NUL.
pub open spec fn spec_source_reader_path(encoded: Seq<u16>) -> Seq<u16> {
    let unc = verbatim_unc_prefix();
    let verbatim = verbatim_prefix();
    (if encoded.len() >= 8 && encoded.take(8) == unc {
        seq![92u16, 92u16] + encoded.skip(8)
    } else if encoded.len() >= 4 && encoded.take(4) == verbatim {
        encoded.skip(4)
    } else {
        encoded
    }).push(0u16)
}

fn has_prefix(encoded: &[u16], prefix: &[u16]) -> (found: bool)
    ensures
        found == (encoded@.len() >= prefix@.len() && encoded@.take(prefix@.len() as int) == prefix@),
{
    if encoded.len() < prefix.len() {
        return false;
    }
    let mut i: usize = 0;
    while i < prefix.len()
        invariant
            i <= prefix@.len() <= encoded@.len(),
            forall|j: int| 0 <= j < i ==> encoded@[j] == prefix@[j],
        decreases prefix@.len() - i,
    {
        if encoded[i] != prefix[i] {
            assert(encoded@.take(prefix@.len() as int)[i as int] != prefix@[i as int]);
            return false;
        }
        i += 1;
    }
    assert(encoded@.take(prefix@.len() as int) =~= prefix@);
    true
}

/// The NUL-terminated UTF-16 path to hand to the source reader, given the path's UTF-16 code
/// units.
pub fn source_reader_wide_path(encoded: &[u16]) -> (path: Vec<u16>)
    ensures
        path@ == spec_source_reader_path(encoded@),
{
    let unc: [u16; 8] = [92, 92, 63, 92, 85, 78, 67, 92];
    let verbatim: [u16; 4] = [92, 92, 63, 92];
    assert(unc@ =~= verbatim_unc_prefix());
    assert(verbatim@ =~= verbatim_prefix());
    let start: usize;
    let mut path: Vec<u16> = Vec::new();
    if has_prefix(encoded, unc.as_slice()) {
        path.push(92);
        path.push(92);
        start = 8;
    } else if has_prefix(encoded, verbatim.as_slice()) {
        start = 4;
    } else {
        start = 0;
    }
    let ghost lead = path@;
    let mut i: usize = start;
    while i < encoded.len()
        invariant
            start <= i <= encoded@.len(),
            path@ == lead + encoded@.subrange(start as int, i as int),
        decreases encoded@.len() - i,
    {
        path.push(encoded[i]);
        i += 1;
        assert(path@ =~= lead + encoded@.subrange(start as int, i as int));
    }
    path.push(0);
    assert(encoded@.subrange(start as int, encoded@.len() as int) =~= encoded@.skip(start as int));
    assert(encoded@.skip(0) =~= encoded@);
    path
}

/// Byte `index` of a `destination_width` by `destination_height` nearest-neighbour copy of a
/// BGRA image: destination pixel `(x, y)` takes source pixel
/// `(x * source_width / destination_width, y * source_height / destination_height)`.
pub open spec fn downscaled_byte(
    source: Seq<u8>,
    source_width: u32,
    source_height: u32,
    destination_width: u32,
    destination_height: u32,
    index: int,
) -> u8 {
    let pixel = index / 4;
    let x = pixel % (destination_width as int);
    let y = pixel / (destination_width as int);
    let source_x = x * source_width / (destination_width as int);
    let source_y = y * source_height / (destination_height as int);
    source[(source_y * source_width + source_x) * 4 + index % 4]
}

proof fn lemma_scaled_position(position: int, source_size: int, destination_size: int)
    requires
        0 <= position < destination_size,
        0 < source_size,
    ensures
        0 <= position * source_size / destination_size < source_size,
{
    assert(0 <= position * source_size) by (nonlinear_arith)
        requires
            0 <= position,
            0 < source_size,
    ;
    assert(position * source_size < destination_size * source_size) by (nonlinear_arith)
        requires
            position < destination_size,
            0 < source_size,
    ;
    assert(position * source_size / destination_size < source_size) by (nonlinear_arith)
        requires
            position * source_size < destination_size * source_size,
            0 < destination_size,
    ;
    assert(0 <= position * source_size / destination_size) by (nonlinear_arith)
        requires
            0 <= position * source_size,
            0 < destination_size,
    ;
}

/// Nearest-neighbour resize of a tightly packed BGRA image; an image already of the wanted size
/// is copied as it is.
pub fn downscale_bgra(
    source: &[u8],
    source_width: u32,
    source_height: u32,
    destination_width: u32,
    destination_height: u32,
) -> (destination: Vec<u8>)
    requires
        (source_width == destination_width && source_height == destination_height)
            || destination_width == 0 || destination_height == 0 || (source_width > 0 && source_height
            > 0 && source_width * source_height * 4 <= source@.len()),
        destination_width * destination_height * 4 <= usize::MAX,
    ensures
        source_width == destination_width && source_height == destination_height ==> destination@
            == source@,
        !(source_width == destination_width && source_height == destination_height) ==> {
            &&& destination@.len() == destination_width * destination_height * 4
            &&& forall|i: int|
                0 <= i < destination@.len() ==> #[trigger] destination@[i] == downscaled_byte(
                    source@,
                    source_width,
                    source_height,
                    destination_width,
                    destination_height,
                    i,
                )
        },
{
    if source_width == destination_width && source_height == destination_height {
        return vstd::slice::slice_to_vec(source);
    }
    proof {
        assert(destination_width * destination_height <= 0xffff_ffff * 0xffff_ffff) by (nonlinear_arith)
            requires
                destination_width <= 0xffff_ffff,
                destination_height <= 0xffff_ffff,
        ;
    }
    let total: usize = (destination_width as u128 * destination_height as u128 * 4) as usize;
    let source_len: usize = source.len();
    let mut destination: Vec<u8> = Vec::new();
    let mut k: usize = 0;
    while k < total
        invariant
            k <= total,
            total == destination_width * destination_height * 4,
            !(source_width == destination_width && source_height == destination_height),
            source_len == source@.len(),
            destination_width == 0 || destination_height == 0 || (source_width > 0 && source_height > 0
                && source_width * source_height * 4 <= source@.len()),
            destination@.len() == k,
            forall|i: int|
                0 <= i < k ==> #[trigger] destination@[i] == downscaled_byte(
                    source@,
                    source_width,
                    source_height,
                    destination_width,
                    destination_height,
                    i,
                ),
        decreases total - k,
    {
        let pixel: usize = k / 4;
        let channel: usize = k % 4;
        proof {
            assert(pixel < destination_width * destination_height) by (nonlinear_arith)
                requires
                    pixel == k / 4,
                    k < destination_width * destination_height * 4,
            ;
            assert(destination_width > 0 && destination_height > 0) by (nonlinear_arith)
                requires
                    pixel < destination_width * destination_height,
            ;
        }
        let x: u64 = pixel as u64 % destination_width as u64;
        let y: u64 = pixel as u64 / destination_width as u64;
        proof {
            assert(y < destination_height) by (nonlinear_arith)
                requires
                    y == (pixel as int) / (destination_width as int),
                    pixel < destination_width * destination_height,
                    destination_width > 0,
            ;
            lemma_scaled_position(x as int, source_width as int, destination_width as int);
            lemma_scaled_position(y as int, source_height as int, destination_height as int);
            assert(y * source_height <= 0xffff_ffff * 0xffff_ffff) by (nonlinear_arith)
                requires
                    y <= 0xffff_ffff,
                    source_height <= 0xffff_ffff,
            ;
            assert(x * source_width <= 0xffff_ffff * 0xffff_ffff) by (nonlinear_arith)
                requires
                    x <= 0xffff_ffff,
                    source_width <= 0xffff_ffff,
            ;
        }
        let source_y: u64 = y * source_height as u64 / destination_height as u64;
        let source_x: u64 = x * source_width as u64 / destination_width as u64;
        proof {
            assert(source_y * source_width + source_x < source_height * source_width) by (nonlinear_arith)
                requires
                    source_y < source_height,
                    source_x < source_width,
            ;
            assert(source_height * source_width == source_width * source_height) by (nonlinear_arith);
            assert(source_y * source_width <= source_y * source_width + source_x);
            assert((source_y * source_width + source_x) * 4 + 4 <= source_width * source_height * 4);
            assert(source@.len() <= usize::MAX);
        }
        let index: usize = ((source_y * source_width as u64 + source_x) * 4) as usize + channel;
        destination.push(source[index]);
        k += 1;
    }
    destination
}

/// Byte `index` of the letterboxed canvas: the frame scaled to `scaled_width` by
/// `scaled_height` and centred, nearest-neighbour sampled, black around it and wherever the
/// source row is short.
pub open spec fn letterboxed_byte(
    frame: CaptureFrame,
    target_width: u32,
    target_height: u32,
    scaled_width: u32,
    scaled_height: u32,
    index: int,
) -> u8 {
    let offset_x = (target_width - scaled_width) / 2;
    let offset_y = (target_height - scaled_height) / 2;
    let stride = target_width * 4;
    let row = index / stride;
    let pixel = (index % stride) / 4;
    let channel = (index % stride) % 4;
    if offset_y <= row < offset_y + scaled_height && offset_x <= pixel < offset_x + scaled_width {
        let source_y = (row - offset_y) * frame.height / (scaled_height as int);
        let source_x = (pixel - offset_x) * frame.width / (scaled_width as int);
        let source = source_y * frame.stride + source_x * 4;
        if source + 4 <= frame.bgra@.len() {
            frame.bgra@[source + channel]
        } else {
            0
        }
    } else {
        0
    }
}

/// Fits `frame` inside a `target_width` by `target_height` canvas as a centred
/// `scaled_width` by `scaled_height` box, filling the rest with black; a frame already of the
/// canvas size and tightly packed is copied. The box size is the frame scaled by the largest
/// factor that fits the canvas, which callers compute in floating point.
pub fn letterbox(
    frame: &CaptureFrame,
    target_width: u32,
    target_height: u32,
    scaled_width: u32,
    scaled_height: u32,
) -> (output: CaptureFrame)
    requires
        target_width * 4 <= u32::MAX,
        target_width * 4 * target_height <= usize::MAX,
        (frame.width == target_width && frame.height == target_height && frame.stride == target_width
            * 4) || (1 <= scaled_width <= target_width && 1 <= scaled_height <= target_height),
    ensures
        output.width == target_width,
        output.height == target_height,
        output.stride == target_width * 4,
        output.t_ms == frame.t_ms,
        frame.width == target_width && frame.height == target_height && frame.stride == target_width * 4
            ==> output.bgra@ == frame.bgra@,
        !(frame.width == target_width && frame.height == target_height && frame.stride == target_width
            * 4) ==> {
            &&& output.bgra@.len() == target_width * 4 * target_height
            &&& forall|i: int|
                0 <= i < output.bgra@.len() ==> #[trigger] output.bgra@[i] == letterboxed_byte(
                    *frame,
                    target_width,
                    target_height,
                    scaled_width,
                    scaled_height,
                    i,
                )
        },
{
    let stride: u32 = target_width * 4;
    if frame.width == target_width && frame.height == target_height && frame.stride == stride {
        let bgra = vstd::slice::slice_to_vec(frame.bgra.as_slice());
        return CaptureFrame { width: target_width, height: target_height, stride, bgra, t_ms: frame.t_ms };
    }
    let offset_x: u32 = (target_width - scaled_width) / 2;
    let offset_y: u32 = (target_height - scaled_height) / 2;
    proof {
        assert(stride * target_height <= usize::MAX);
    }
    let total: usize = stride as usize * target_height as usize;
    let source_len: usize = frame.bgra.len();
    let mut bgra: Vec<u8> = Vec::new();
    let mut k: usize = 0;
    while k < total
        invariant
            k <= total,
            total == target_width * 4 * target_height,
            stride == target_width * 4,
            target_width >= 1,
            source_len == frame.bgra@.len(),
            1 <= scaled_width <= target_width,
            1 <= scaled_height <= target_height,
            offset_x == (target_width - scaled_width) / 2,
            offset_y == (target_height - scaled_height) / 2,
            bgra@.len() == k,
            forall|i: int|
                0 <= i < k ==> #[trigger] bgra@[i] == letterboxed_byte(
                    *frame,
                    target_width,
                    target_height,
                    scaled_width,
                    scaled_height,
                    i,
                ),
        decreases total - k,
    {
        let row: usize = k / stride as usize;
        let column: usize = k % stride as usize;
        let pixel: usize = column / 4;
        let channel: usize = column % 4;
        proof {
            assert(row < target_height) by (nonlinear_arith)
                requires
                    row == (k as int) / (stride as int),
                    k < stride * target_height,
                    stride > 0,
            ;
            assert(pixel < target_width);
        }
        let inside: bool = offset_y as usize <= row && row < offset_y as usize + scaled_height as usize
            && offset_x as usize <= pixel && pixel < offset_x as usize + scaled_width as usize;
        let byte: u8 = if inside {
            let y: u128 = (row - offset_y as usize) as u128;
            let x: u128 = (pixel - offset_x as usize) as u128;
            proof {
                assert(y * frame.height <= 0xffff_ffff * 0xffff_ffff) by (nonlinear_arith)
                    requires
                        y <= 0xffff_ffff,
                        frame.height <= 0xffff_ffff,
                ;
                assert(x * frame.width <= 0xffff_ffff * 0xffff_ffff) by (nonlinear_arith)
                    requires
                        x <= 0xffff_ffff,
                        frame.width <= 0xffff_ffff,
                ;
            }
            let source_y: u128 = y * frame.height as u128 / scaled_height as u128;
            let source_x: u128 = x * frame.width as u128 / scaled_width as u128;
            proof {
                assert(source_y <= y * frame.height) by (nonlinear_arith)
                    requires
                        source_y == y * frame.height / (scaled_height as int),
                        scaled_height >= 1,
                        y * frame.height >= 0,
                ;
                assert(source_x <= x * frame.width) by (nonlinear_arith)
                    requires
                        source_x == x * frame.width / (scaled_width as int),
                        scaled_width >= 1,
                        x * frame.width >= 0,
                ;
                assert(source_y * frame.stride <= 0xffff_ffff * 0xffff_ffff * 0xffff_ffff) by (nonlinear_arith)
                    requires
                        source_y <= 0xffff_ffff * 0xffff_ffff,
                        frame.stride <= 0xffff_ffff,
                ;
            }
            let source: u128 = source_y * frame.stride as u128 + source_x * 4;
            if source + 4 <= source_len as u128 {
                frame.bgra[(source + channel as u128) as usize]
            } else {
                0
            }
        } else {
            0
        };
        bgra.push(byte);
        k += 1;
    }
    CaptureFrame { width: target_width, height: target_height, stride, bgra, t_ms: frame.t_ms }
}

/// Whether `error` is the decoder's report that `operation` on `input` failed with `message`.
pub open spec fn is_decoder_error(error: AirecError, input: Seq<char>, operation: Seq<char>, message: Seq<char>) -> bool {
    &&& error.code == ErrorCode::CaptureInitFailed
    &&& error.message@ == message
    &&& error.data matches ErrorData::Operation { component, operation: op, input: path }
    &&& component@ == "media_foundation_decoder"@
    &&& op@ == operation
    &&& path@ == input
}

pub fn decoder_error(input: &str, operation: &str, message: String) -> (error: AirecError)
    ensures
        is_decoder_error(error, input@, operation@, message@),
{
    AirecError::new(
        ErrorCode::CaptureInitFailed,
        message,
        ErrorData::Operation {
            component: String::from_str("media_foundation_decoder"),
            operation: String::from_str(operation),
            input: String::from_str(input),
        },
    )
}

/// `|stride|`.
pub open spec fn stride_bytes(stride: i32) -> int {
    if stride < 0 {
        -stride
    } else {
        stride as int
    }
}

/// The buffer size and row length for copying a locked 2D decoded frame of `width` by `height`
/// BGRA pixels: the frame must fit in memory, and the lock must have given a first scanline
/// (`has_scanline`) and a `pitch` whose magnitude holds a row.
pub fn locked_2d_sizes(input: &str, width: u32, height: u32, has_scanline: bool, pitch: i32) -> (result: Result<
    (usize, usize),
    AirecError,
>)
    ensures
        width * height * 4 > usize::MAX ==> result is Err && is_dimension_error(result->Err_0, width, height),
        width * height * 4 <= usize::MAX ==> {
            let usable = has_scanline && pitch != i32::MIN && stride_bytes(pitch) >= width * 4;
            &&& usable ==> result == Ok::<(usize, usize), AirecError>(
                ((width * height * 4) as usize, (width * 4) as usize),
            )
            &&& !usable ==> result is Err && is_decoder_error(
                result->Err_0,
                input@,
                "lock decoded 2D frame"@,
                "decoded frame returned an invalid scanline or pitch"@,
            )
        },
{
    let size = match frame_buffer_size(width, height) {
        Ok(size) => size,
        Err(error) => return Err(error),
    };
    let row_bytes: u64 = width as u64 * 4;
    let magnitude: u64 = if pitch < 0 {
        if pitch == i32::MIN {
            0
        } else {
            (-pitch) as u64
        }
    } else {
        pitch as u64
    };
    if !has_scanline || pitch == i32::MIN || magnitude < row_bytes {
        return Err(decoder_error(
            input,
            "lock decoded 2D frame",
            String::from_str("decoded frame returned an invalid scanline or pitch"),
        ));
    }
    proof {
        assert(width * 4 <= usize::MAX) by (nonlinear_arith)
            requires
                width * 4 <= stride_bytes(pitch),
                stride_bytes(pitch) <= 0x8000_0000,
        ;
    }
    Ok((size, row_bytes as usize))
}

/// Byte `index` of a tightly packed top-down copy of a locked frame buffer whose rows lie
/// `|stride|` bytes apart, bottom-up when the stride is negative.
pub open spec fn unpacked_byte(data: Seq<u8>, stride: i32, width: u32, height: u32, index: int) -> u8 {
    let row_bytes = width * 4;
    let row = index / row_bytes;
    let source_row = if stride >= 0 {
        row
    } else {
        height - 1 - row
    };
    data[source_row * stride_bytes(stride) + index % row_bytes]
}

/// Copies the rows of a locked, contiguous frame buffer into a tightly packed top-down frame.
pub fn copy_contiguous_rows(data: &[u8], stride: i32, width: u32, height: u32, input: &str) -> (result: Result<Vec<u8>, AirecError>)
    ensures
        (width * 4 > usize::MAX || stride_bytes(stride) * height > usize::MAX) ==> result is Err
            && is_dimension_error(result->Err_0, width, height),
        (width * 4 <= usize::MAX && stride_bytes(stride) * height <= usize::MAX && (stride_bytes(stride)
            < width * 4 || stride_bytes(stride) * height > data@.len())) ==> result is Err
            && is_decoder_error(
            result->Err_0,
            input@,
            "copy decoded frame"@,
            "decoded frame buffer is shorter than its media type requires"@,
        ),
        (width * 4 <= stride_bytes(stride) && stride_bytes(stride) * height <= data@.len()) ==> {
            &&& result is Ok
            &&& result->Ok_0@.len() == width * 4 * height
            &&& forall|i: int|
                0 <= i < result->Ok_0@.len() ==> #[trigger] result->Ok_0@[i] == unpacked_byte(
                    data@,
                    stride,
                    width,
                    height,
                    i,
                )
        },
{
    let data_len: usize = data.len();
    let stride_abs: u64 = if stride < 0 {
        (-(stride as i64)) as u64
    } else {
        stride as u64
    };
    let row_bytes: u64 = width as u64 * 4;
    proof {
        assert(stride_abs * height <= 0x8000_0000 * 0xffff_ffff) by (nonlinear_arith)
            requires
                stride_abs <= 0x8000_0000,
                height <= 0xffff_ffff,
        ;
    }
    let required: u64 = stride_abs * height as u64;
    if row_bytes > usize::MAX as u64 || required > usize::MAX as u64 {
        return Err(dimension_error(width, height));
    }
    if stride_abs < row_bytes || required > data_len as u64 {
        return Err(
            decoder_error(
                input,
                "copy decoded frame",
                String::from_str("decoded frame buffer is shorter than its media type requires"),
            ),
        );
    }
    proof {
        assert(row_bytes * height <= stride_abs * height) by (nonlinear_arith)
            requires
                row_bytes <= stride_abs,
        ;
    }
    let total: usize = (row_bytes * height as u64) as usize;
    let mut output: Vec<u8> = Vec::new();
    let mut k: usize = 0;
    while k < total
        invariant
            k <= total,
            total == width * 4 * height,
            row_bytes == width * 4,
            stride_abs == stride_bytes(stride),
            row_bytes <= stride_abs,
            stride_abs * height <= data@.len(),
            data_len == data@.len(),
            output@.len() == k,
            forall|i: int| 0 <= i < k ==> #[trigger] output@[i] == unpacked_byte(data@, stride, width, height, i),
        decreases total - k,
    {
        let row: u64 = k as u64 / row_bytes;
        let column: u64 = k as u64 % row_bytes;
        proof {
            assert(row < height) by (nonlinear_arith)
                requires
                    row == (k as int) / (row_bytes as int),
                    k < row_bytes * height,
                    row_bytes > 0,
            ;
        }
        let source_row: u64 = if stride >= 0 {
            row
        } else {
            height as u64 - 1 - row
        };
        proof {
            assert(source_row * stride_abs + column < stride_abs * height) by (nonlinear_arith)
                requires
                    source_row < height,
                    column < row_bytes,
                    row_bytes <= stride_abs,
            ;
        }
        output.push(data[(source_row * stride_abs + column) as usize]);
        k += 1;
    }
    Ok(output)
}

} // verus!
