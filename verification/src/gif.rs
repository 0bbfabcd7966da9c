use vstd::prelude::*;
use crate::lzw::{clear_code, lzw_bytes, lzw_encode, pow2, lemma_pow2_8, lemma_pow2_monotone, lemma_lzw_bytes_len};
use crate::palette::{fixed_palette, fixed_palette_color};
use crate::sampler::spec_timeline_delay;
use crate::sampler::timeline_delay_centiseconds;

verus! {

/// The color-table size for `len` colors: the next power of two, from 2 to 256.
pub open spec fn table_size_for(len: int) -> int {
    if len <= 2 {
        2
    } else if len <= 4 {
        4
    } else if len <= 8 {
        8
    } else if len <= 16 {
        16
    } else if len <= 32 {
        32
    } else if len <= 64 {
        64
    } else if len <= 128 {
        128
    } else {
        256
    }
}

/// `log2` of a color-table size.
pub open spec fn table_bits(size: int) -> int {
    if size <= 2 {
        1
    } else if size <= 4 {
        2
    } else if size <= 8 {
        3
    } else if size <= 16 {
        4
    } else if size <= 32 {
        5
    } else if size <= 64 {
        6
    } else if size <= 128 {
        7
    } else {
        8
    }
}

/// The bytes of a list of colors.
pub open spec fn color_bytes(colors: Seq<[u8; 3]>) -> Seq<u8>
    decreases colors.len(),
{
    if colors.len() == 0 {
        Seq::empty()
    } else {
        color_bytes(colors.drop_last()) + seq![colors.last()[0], colors.last()[1], colors.last()[2]]
    }
}

pub proof fn lemma_color_bytes_len(colors: Seq<[u8; 3]>)
    ensures
        color_bytes(colors).len() == 3 * colors.len(),
    decreases colors.len(),
{
    if colors.len() > 0 {
        lemma_color_bytes_len(colors.drop_last());
    }
}

/// `n` zero bytes.
pub open spec fn zeros(n: nat) -> Seq<u8> {
    Seq::new(n, |i: int| 0u8)
}

/// A GIF color table.
pub struct Palette {
    pub colors: Vec<[u8; 3]>,
    pub table_size: usize,
}

impl Palette {
    pub open spec fn wf(&self) -> bool {
        &&& self.colors@.len() >= 1
        &&& self.table_size == table_size_for(self.colors@.len() as int)
    }

    /// The bytes of the table: every color, then black up to the table size.
    pub open spec fn table_bytes(&self) -> Seq<u8> {
        color_bytes(self.colors@) + zeros(
            if self.table_size > self.colors@.len() {
                (3 * (self.table_size - self.colors@.len())) as nat
            } else {
                0
            },
        )
    }

    /// The LZW minimum code size for indices into this table.
    pub open spec fn spec_minimum_code_size(&self) -> int {
        if table_bits(self.table_size as int) < 2 {
            2
        } else {
            table_bits(self.table_size as int)
        }
    }

    /// A table of the given colors, or of black alone when there are none.
    pub fn new(colors: Vec<[u8; 3]>) -> (palette: Palette)
        ensures
            palette.wf(),
            colors@.len() == 0 ==> palette.colors@ == seq![[0u8, 0u8, 0u8]],
            colors@.len() != 0 ==> palette.colors@ == colors@,
    {
        let mut colors = colors;
        if colors.len() == 0 {
            colors.push([0, 0, 0]);
        }
        let length = colors.len();
        let mut table_size: usize = 2;
        while table_size < length && table_size < 256
            invariant
                table_size == 2 || table_size == 4 || table_size == 8 || table_size == 16 || table_size
                    == 32 || table_size == 64 || table_size == 128 || table_size == 256,
                table_size <= 2 || table_size / 2 < length,
                length >= 1,
            decreases 256 - table_size,
        {
            table_size = table_size * 2;
        }
        Palette { colors, table_size }
    }

    /// The size field of a logical screen or image descriptor: `log2(table size) - 1`.
    pub fn size_code(&self) -> (code: u8)
        requires
            self.wf(),
        ensures
            code == table_bits(self.table_size as int) - 1,
            code <= 7,
    {
        let mut bits: u8 = 0;
        let mut size: usize = self.table_size;
        while size > 2
            invariant
                size == 2 || size == 4 || size == 8 || size == 16 || size == 32 || size == 64 || size
                    == 128 || size == 256,
                table_bits(self.table_size as int) == table_bits(size as int) + bits,
                bits <= 7,
            decreases size,
        {
            size = size / 2;
            bits = bits + 1;
        }
        bits
    }

    pub fn minimum_code_size(&self) -> (size: u8)
        requires
            self.wf(),
        ensures
            size == self.spec_minimum_code_size(),
            2 <= size <= 8,
    {
        let code = self.size_code() + 1;
        if code < 2 {
            2
        } else {
            code
        }
    }

    /// Appends the table's bytes.
    pub fn write_to(&self, out: &mut Vec<u8>)
        ensures
            final(out)@ == old(out)@ + self.table_bytes(),
    {
        let ghost start = out@;
        let mut i: usize = 0;
        while i < self.colors.len()
            invariant
                i <= self.colors@.len(),
                out@ == start + color_bytes(self.colors@.take(i as int)),
            decreases self.colors@.len() - i,
        {
            let color = self.colors[i];
            out.push(color[0]);
            out.push(color[1]);
            out.push(color[2]);
            assert(self.colors@.take(i + 1).drop_last() =~= self.colors@.take(i as int));
            i += 1;
            assert(out@ =~= start + color_bytes(self.colors@.take(i as int)));
        }
        assert(self.colors@.take(self.colors@.len() as int) =~= self.colors@);
        let ghost middle = out@;
        let mut padding: usize = i;
        while padding < self.table_size
            invariant
                i == self.colors@.len(),
                i <= padding,
                self.table_size > i ==> padding <= self.table_size,
                self.table_size <= i ==> padding == i,
                middle == start + color_bytes(self.colors@),
                out@ == middle + zeros((3 * (padding - i)) as nat),
            decreases self.table_size - padding,
        {
            out.push(0);
            out.push(0);
            out.push(0);
            padding += 1;
            assert(out@ =~= middle + zeros((3 * (padding - i)) as nat));
        }
        proof {
            if self.table_size > self.colors@.len() {
                assert(padding == self.table_size);
            } else {
                assert(padding == i);
                assert(zeros(0) =~= Seq::<u8>::empty());
            }
        }
        assert(out@ =~= start + self.table_bytes());
    }
}

/// Entry `index` of the fixed palette as a color.
pub open spec fn fixed_color(index: int) -> [u8; 3] {
    [fixed_palette_color(index)[0], fixed_palette_color(index)[1], fixed_palette_color(index)[2]]
}

/// The fixed 256-color palette as a color table.
pub fn fixed_gif_palette() -> (palette: Palette)
    ensures
        palette.wf(),
        palette.table_size == 256,
        palette.colors@.len() == 256,
        forall|i: int| 0 <= i < 256 ==> #[trigger] palette.colors@[i] == fixed_color(i),
{
    let bytes = fixed_palette();
    let mut colors: Vec<[u8; 3]> = Vec::new();
    let mut index: usize = 0;
    while index < 256
        invariant
            index <= 256,
            bytes@.len() == 768,
            colors@.len() == index,
            forall|i: int| 0 <= i < index ==> #[trigger] colors@[i] == [bytes@[3 * i], bytes@[3 * i + 1], bytes@[3 * i + 2]],
        decreases 256 - index,
    {
        colors.push([bytes[3 * index], bytes[3 * index + 1], bytes[3 * index + 2]]);
        index += 1;
    }
    assert forall|i: int| 0 <= i < 256 implies #[trigger] colors@[i] == fixed_color(i) by {
        assert(bytes@[i * 3 + 0] == fixed_palette_color(i)[0]);
        assert(bytes@[i * 3 + 1] == fixed_palette_color(i)[1]);
        assert(bytes@[i * 3 + 2] == fixed_palette_color(i)[2]);
        assert(colors@[i] =~= fixed_color(i));
    }
    Palette::new(colors)
}

/// Two little-endian bytes.
pub open spec fn le16(value: u16) -> Seq<u8> {
    seq![(value % 256) as u8, (value / 256) as u8]
}

/// An indexed image placed on the GIF canvas.
pub struct GifFrame {
    pub left: u16,
    pub top: u16,
    pub width: u16,
    pub height: u16,
    pub indexed: Vec<u8>,
    pub palette: Palette,
    pub local_palette: bool,
    pub transparent: bool,
}

impl GifFrame {
    /// The palette is well formed and every index is below the clear code.
    pub open spec fn wf(&self) -> bool {
        &&& self.palette.wf()
        &&& forall|i: int|
            0 <= i < self.indexed@.len() ==> (#[trigger] self.indexed@[i] as nat) < clear_code(
                self.palette.spec_minimum_code_size() as u8,
            )
    }
}

/// The 255-byte sub-blocks of an image's data, each preceded by its length.
pub open spec fn sub_blocks(data: Seq<u8>) -> Seq<u8>
    decreases data.len(),
{
    if data.len() == 0 {
        Seq::empty()
    } else if data.len() <= 255 {
        seq![data.len() as u8] + data
    } else {
        seq![255u8] + data.take(255) + sub_blocks(data.skip(255))
    }
}

pub proof fn lemma_sub_blocks_len(data: Seq<u8>)
    ensures
        sub_blocks(data).len() == data.len() + (data.len() + 254) / 255,
    decreases data.len(),
{
    if data.len() > 255 {
        lemma_sub_blocks_len(data.skip(255));
    }
}

/// The graphic control extension and the image descriptor of a frame.
pub open spec fn frame_header(image: GifFrame, delay: u16) -> Seq<u8> {
    seq![0x21u8, 0xf9u8, 0x04u8, if image.transparent { 0x05u8 } else { 0x04u8 }] + le16(delay)
        + seq![0u8, 0u8, 0x2cu8] + le16(image.left) + le16(image.top) + le16(image.width) + le16(
        image.height,
    ) + seq![
        if image.local_palette {
            (0x80 + table_bits(image.palette.table_size as int) - 1) as u8
        } else {
            0u8
        },
    ]
}

/// The bytes of one frame: graphic control extension, image descriptor, optional local color
/// table, and the LZW data in sub-blocks.
pub open spec fn frame_bytes(image: GifFrame, delay: u16) -> Seq<u8> {
    let minimum_code_size = image.palette.spec_minimum_code_size() as u8;
    frame_header(image, delay) + (if image.local_palette {
        image.palette.table_bytes()
    } else {
        Seq::empty()
    }) + seq![minimum_code_size] + sub_blocks(lzw_bytes(image.indexed@, minimum_code_size)) + seq![
        0u8,
    ]
}

/// Whether a frame lies inside a `width` by `height` canvas with one index per pixel.
pub open spec fn fits_canvas(image: GifFrame, width: u16, height: u16) -> bool {
    &&& image.indexed@.len() == image.width * image.height
    &&& image.left + image.width <= width
    &&& image.top + image.height <= height
}

/// The GIF89a header, the global color table, and the loop-forever application extension.
pub open spec fn header_bytes(width: u16, height: u16, palette: Palette) -> Seq<u8> {
    seq![0x47u8, 0x49u8, 0x46u8, 0x38u8, 0x39u8, 0x61u8] + le16(width) + le16(height) + seq![
        (0xf0 + table_bits(palette.table_size as int) - 1) as u8,
        0u8,
        0u8,
    ] + palette.table_bytes() + netscape_loop()
}

/// `21 FF 0B "NETSCAPE2.0" 03 01 00 00 00`: repeat forever.
pub open spec fn netscape_loop() -> Seq<u8> {
    seq![0x21u8, 0xffu8, 0x0bu8, 0x4eu8, 0x45u8, 0x54u8, 0x53u8, 0x43u8, 0x41u8, 0x50u8, 0x45u8, 0x32u8, 0x2eu8, 0x30u8, 0x03u8, 0x01u8, 0x00u8, 0x00u8, 0x00u8]
}

fn push_le16(out: &mut Vec<u8>, value: u16)
    ensures
        final(out)@ == old(out)@ + le16(value),
{
    out.push((value % 256) as u8);
    out.push((value / 256) as u8);
    assert(final(out)@ =~= old(out)@ + le16(value));
}

fn push_all(out: &mut Vec<u8>, data: &[u8])
    ensures
        final(out)@ == old(out)@ + data@,
{
    let ghost start = out@;
    let mut i: usize = 0;
    while i < data.len()
        invariant
            i <= data@.len(),
            out@ == start + data@.take(i as int),
        decreases data@.len() - i,
    {
        out.push(data[i]);
        i += 1;
        assert(out@ =~= start + data@.take(i as int));
    }
    assert(data@.take(data@.len() as int) =~= data@);
}

/// Appends `data` in sub-blocks of at most 255 bytes, each preceded by its length.
fn push_sub_blocks(out: &mut Vec<u8>, data: &[u8])
    ensures
        final(out)@ == old(out)@ + sub_blocks(data@),
{
    let ghost start = out@;
    let mut offset: usize = 0;
    assert(data@.skip(0) =~= data@);
    while offset < data.len()
        invariant
            offset <= data@.len(),
            out@ + sub_blocks(data@.skip(offset as int)) == start + sub_blocks(data@),
        decreases data@.len() - offset,
    {
        let remaining = data.len() - offset;
        let length: usize = if remaining < 255 {
            remaining
        } else {
            255
        };
        let ghost rest = data@.skip(offset as int);
        let ghost before = out@;
        out.push(length as u8);
        let mut i: usize = 0;
        while i < length
            invariant
                i <= length,
                length <= 255,
                offset + length <= data.len(),
                out@ == before + seq![length as u8] + data@.subrange(offset as int, offset + i),
            decreases length - i,
        {
            out.push(data[offset + i]);
            i += 1;
            assert(out@ =~= before + seq![length as u8] + data@.subrange(offset as int, offset + i));
        }
        proof {
            assert(rest.take(length as int) =~= data@.subrange(offset as int, offset + length));
            assert(rest.skip(length as int) =~= data@.skip(offset + length));
            if rest.len() <= 255 {
                assert(rest =~= data@.subrange(offset as int, offset + length));
                assert(data@.skip(offset + length) =~= Seq::<u8>::empty());
                assert(sub_blocks(rest) == seq![length as u8] + rest);
            } else {
                assert(sub_blocks(rest) == seq![255u8] + rest.take(255) + sub_blocks(rest.skip(255)));
            }
            assert(out@ + sub_blocks(data@.skip(offset + length)) =~= before + sub_blocks(rest));
        }
        offset = offset + length;
    }
    assert(data@.skip(offset as int) =~= Seq::<u8>::empty());
    assert(out@ =~= start + sub_blocks(data@));
}

fn push_frame_header(out: &mut Vec<u8>, image: &GifFrame, delay_centiseconds: u16)
    requires
        image.wf(),
    ensures
        final(out)@ == old(out)@ + frame_header(*image, delay_centiseconds),
{
    let control: u8 = if image.transparent {
        0x05
    } else {
        0x04
    };
    push_all(out, &[0x21, 0xf9, 0x04, control]);
    push_le16(out, delay_centiseconds);
    push_all(out, &[0, 0, 0x2c]);
    push_le16(out, image.left);
    push_le16(out, image.top);
    push_le16(out, image.width);
    push_le16(out, image.height);
    let descriptor: u8 = if image.local_palette {
        0x80 + image.palette.size_code()
    } else {
        0
    };
    out.push(descriptor);
    assert(final(out)@ =~= old(out)@ + frame_header(*image, delay_centiseconds));
}

/// Why a frame was not written.
#[derive(Clone, Copy, Debug, PartialEq, Eq, Structural)]
pub enum GifFrameError {
    /// The indexed frame lies outside the GIF canvas.
    OutsideCanvas,
}

/// Writes an animated GIF89a into memory.
pub struct GifEncoder {
    pub bytes: Vec<u8>,
    pub width: u16,
    pub height: u16,
}

impl GifEncoder {
    /// Starts a GIF with a global color table that loops forever.
    pub fn new(width: u16, height: u16, global_palette: &Palette) -> (encoder: GifEncoder)
        requires
            global_palette.wf(),
        ensures
            encoder.bytes@ == header_bytes(width, height, *global_palette),
            encoder.width == width,
            encoder.height == height,
    {
        let mut bytes: Vec<u8> = Vec::new();
        push_all(&mut bytes, &[0x47, 0x49, 0x46, 0x38, 0x39, 0x61]);
        push_le16(&mut bytes, width);
        push_le16(&mut bytes, height);
        let code = global_palette.size_code();
        push_all(&mut bytes, &[0xf0 + code, 0, 0]);
        global_palette.write_to(&mut bytes);
        push_all(
            &mut bytes,
            &[0x21, 0xff, 0x0b, 0x4e, 0x45, 0x54, 0x53, 0x43, 0x41, 0x50, 0x45, 0x32, 0x2e, 0x30, 0x03, 0x01, 0x00, 0x00, 0x00],
        );
        proof {
            assert(bytes@ =~= header_bytes(width, height, *global_palette));
        }
        GifEncoder { bytes, width, height }
    }

    /// Appends one frame shown for `delay_centiseconds`; a frame outside the canvas is refused
    /// and nothing is written.
    pub fn write_frame(&mut self, image: &GifFrame, delay_centiseconds: u16) -> (result: Result<(), GifFrameError>)
        requires
            image.wf(),
        ensures
            final(self).width == old(self).width,
            final(self).height == old(self).height,
            fits_canvas(*image, old(self).width, old(self).height) ==> {
                &&& result is Ok
                &&& final(self).bytes@ == old(self).bytes@ + frame_bytes(*image, delay_centiseconds)
            },
            !fits_canvas(*image, old(self).width, old(self).height) ==> {
                &&& result == Err::<(), GifFrameError>(GifFrameError::OutsideCanvas)
                &&& final(self).bytes@ == old(self).bytes@
            },
    {
        assert((image.width as int) * (image.height as int) <= 65535 * 65535) by (nonlinear_arith)
            requires
                image.width <= 65535,
                image.height <= 65535,
        ;
        let expected: usize = image.width as usize * image.height as usize;
        if image.indexed.len() != expected || image.left as u32 + image.width as u32 > self.width as u32
            || image.top as u32 + image.height as u32 > self.height as u32 {
            return Err(GifFrameError::OutsideCanvas);
        }
        let ghost start = self.bytes@;
        push_frame_header(&mut self.bytes, image, delay_centiseconds);
        let ghost after_header = self.bytes@;
        if image.local_palette {
            image.palette.write_to(&mut self.bytes);
        }
        let ghost after_table = self.bytes@;
        let minimum_code_size = image.palette.minimum_code_size();
        self.bytes.push(minimum_code_size);
        let compressed = lzw_encode(image.indexed.as_slice(), minimum_code_size);
        push_sub_blocks(&mut self.bytes, compressed.as_slice());
        self.bytes.push(0);
        proof {
            let table = if image.local_palette {
                image.palette.table_bytes()
            } else {
                Seq::<u8>::empty()
            };
            assert(after_table =~= after_header + table);
            let data = seq![minimum_code_size] + sub_blocks(lzw_bytes(image.indexed@, minimum_code_size)) + seq![0u8];
            assert(self.bytes@ =~= after_table + data);
            assert(frame_bytes(*image, delay_centiseconds) =~= frame_header(*image, delay_centiseconds) + table + data);
        }
        Ok(())
    }

    /// Appends the trailer and hands out the GIF.
    pub fn finish(self) -> (bytes: Vec<u8>)
        ensures
            bytes@ == self.bytes@.push(0x3b),
    {
        let mut bytes = self.bytes;
        bytes.push(0x3b);
        bytes
    }
}

/// The number of bytes `write_frame` appends for `image`.
pub open spec fn spec_encoded_frame_size(image: GifFrame) -> int {
    let compressed = lzw_bytes(image.indexed@, image.palette.spec_minimum_code_size() as u8);
    8 + 10 + (if image.local_palette {
        image.palette.table_size * 3
    } else {
        0
    }) + 1 + compressed.len() + (compressed.len() + 254) / 255 + 1
}

pub fn encoded_frame_size(image: &GifFrame) -> (size: usize)
    requires
        image.wf(),
        image.indexed@.len() <= usize::MAX / 4,
    ensures
        size == spec_encoded_frame_size(*image),
{
    let minimum_code_size = image.palette.minimum_code_size();
    proof {
        lemma_lzw_bytes_len(image.indexed@, minimum_code_size);
        assert(image.palette.table_size <= 256);
    }
    let compressed = lzw_encode(image.indexed.as_slice(), minimum_code_size);
    let table: usize = if image.local_palette {
        image.palette.table_size * 3
    } else {
        0
    };
    let length = compressed.len();
    8 + 10 + table + 1 + length + length / 255 + (if length % 255 == 0 { 0 } else { 1 }) + 1
}

/// Writes `image` for the time between two timeline positions, split into frames of at most
/// 65535 centiseconds; returns the frames written and the total time in milliseconds.
pub fn write_timed_frame(gif: &mut GifEncoder, image: &GifFrame, start_hns: u64, end_hns: u64) -> (result: Result<(u64, u64), GifFrameError>)
    requires
        image.wf(),
    ensures
        final(gif).width == old(gif).width,
        final(gif).height == old(gif).height,
        fits_canvas(*image, old(gif).width, old(gif).height) ==> {
            let total = spec_timeline_delay(start_hns, end_hns);
            &&& result matches Ok((frames, duration_ms)) && frames == (total + 65534) / 65535
                && duration_ms == if total * 10 > u64::MAX {
                u64::MAX as int
            } else {
                total * 10
            }
            &&& final(gif).bytes@ == old(gif).bytes@ + timed_frame_bytes(*image, total as nat)
        },
        !fits_canvas(*image, old(gif).width, old(gif).height) ==> result == Err::<(u64, u64), GifFrameError>(
            GifFrameError::OutsideCanvas,
        ) && final(gif).bytes@ == old(gif).bytes@,
{
    let total_delay = timeline_delay_centiseconds(start_hns, end_hns);
    let mut remaining_delay = total_delay;
    let mut frames: u64 = 0;
    let ghost start = gif.bytes@;
    let ghost fits = fits_canvas(*image, gif.width, gif.height);
    assert(timed_frame_bytes(*image, 0) =~= Seq::<u8>::empty());
    while remaining_delay != 0
        invariant
            image.wf(),
            total_delay >= 1,
            total_delay == spec_timeline_delay(start_hns, end_hns),
            remaining_delay <= total_delay,
            start == old(gif).bytes@,
            fits == fits_canvas(*image, old(gif).width, old(gif).height),
            gif.width == old(gif).width,
            gif.height == old(gif).height,
            fits ==> {
                &&& gif.bytes@ + timed_frame_bytes(*image, remaining_delay as nat) == start
                    + timed_frame_bytes(*image, total_delay as nat)
                &&& frames + (remaining_delay + 65534) / 65535 == (total_delay + 65534) / 65535
            },
            !fits ==> remaining_delay == total_delay && gif.bytes@ == start,
        decreases remaining_delay,
    {
        let delay: u16 = if remaining_delay < 65535 {
            remaining_delay as u16
        } else {
            65535
        };
        let ghost before = gif.bytes@;
        match gif.write_frame(image, delay) {
            Ok(()) => {},
            Err(error) => {
                return Err(error);
            },
        }
        proof {
            let rest = (remaining_delay - delay) as nat;
            if remaining_delay <= 65535 {
                assert(timed_frame_bytes(*image, remaining_delay as nat) == frame_bytes(*image, delay));
                assert(timed_frame_bytes(*image, rest) =~= Seq::<u8>::empty());
            } else {
                assert(timed_frame_bytes(*image, remaining_delay as nat) == frame_bytes(*image, delay) + timed_frame_bytes(*image, rest));
            }
            assert(gif.bytes@ + timed_frame_bytes(*image, rest) =~= before + timed_frame_bytes(*image, remaining_delay as nat));
        }
        remaining_delay = remaining_delay - delay as u64;
        frames = frames + 1;
    }
    assert(gif.bytes@ =~= start + timed_frame_bytes(*image, total_delay as nat));
    let duration: u64 = if total_delay <= u64::MAX / 10 {
        total_delay * 10
    } else {
        u64::MAX
    };
    Ok((frames, duration))
}

/// The frames that show `image` for `delay` centiseconds: full 65535-centisecond frames, then
/// the rest.
pub open spec fn timed_frame_bytes(image: GifFrame, delay: nat) -> Seq<u8>
    decreases delay,
{
    if delay == 0 {
        Seq::empty()
    } else if delay <= 65535 {
        frame_bytes(image, delay as u16)
    } else {
        frame_bytes(image, 65535u16) + timed_frame_bytes(image, (delay - 65535) as nat)
    }
}

} // verus!
