use vstd::prelude::*;

verus! {

/// Histogram bins: five bits per channel.
pub const COLOR_HISTOGRAM_SIZE: usize = 32768;

/// The fixed 3-3-2 palette entry for a channel index with `levels` steps, spread over 0..=255
/// and rounded to nearest.
pub open spec fn palette_level(value: int, levels: int) -> int {
    (value * 255 + (levels - 1) / 2) / (levels - 1)
}

/// Entry `index` of the fixed palette: three bits of red, three of green, two of blue.
pub open spec fn fixed_palette_color(index: int) -> Seq<u8> {
    seq![
        palette_level((index / 32) % 8, 8) as u8,
        palette_level((index / 4) % 8, 8) as u8,
        palette_level(index % 4, 4) as u8,
    ]
}

/// The fixed 256-color palette as 768 RGB bytes.
pub fn fixed_palette() -> (palette: Vec<u8>)
    ensures
        palette@.len() == 768,
        forall|index: int, channel: int|
            0 <= index < 256 && 0 <= channel < 3 ==> #[trigger] palette@[index * 3 + channel]
                == fixed_palette_color(index)[channel],
{
    let mut palette: Vec<u8> = Vec::new();
    let mut index: u16 = 0;
    while index < 256
        invariant
            index <= 256,
            palette@.len() == index * 3,
            forall|i: int, channel: int|
                0 <= i < index && 0 <= channel < 3 ==> #[trigger] palette@[i * 3 + channel]
                    == fixed_palette_color(i)[channel],
        decreases 256 - index,
    {
        let red: u16 = (index / 32) % 8;
        let green: u16 = (index / 4) % 8;
        let blue: u16 = index % 4;
        let ghost before = palette@;
        palette.push(((red * 255 + 3) / 7) as u8);
        palette.push(((green * 255 + 3) / 7) as u8);
        palette.push(((blue * 255 + 1) / 3) as u8);
        assert forall|i: int, channel: int|
            0 <= i < index + 1 && 0 <= channel < 3 implies #[trigger] palette@[i * 3 + channel]
                == fixed_palette_color(i)[channel] by {
            if i < index {
                assert(palette@[i * 3 + channel] == before[i * 3 + channel]);
            } else {
                assert(i * 3 + channel == index * 3 + channel);
            }
        }
        index += 1;
    }
    palette
}

/// The fixed-palette index of a BGRA pixel: the top three bits of red and green and the top
/// two bits of blue.
pub open spec fn quantized_index(blue: u8, green: u8, red: u8) -> int {
    (red / 32) * 32 + (green / 32) * 4 + blue / 64
}

/// The fixed-palette index of each whole BGRA pixel.
pub fn quantize_bgra(bgra: &[u8]) -> (indexed: Vec<u8>)
    ensures
        indexed@.len() == bgra@.len() / 4,
        forall|i: int|
            0 <= i < indexed@.len() ==> #[trigger] indexed@[i] == quantized_index(
                bgra@[4 * i],
                bgra@[4 * i + 1],
                bgra@[4 * i + 2],
            ),
{
    let mut indexed: Vec<u8> = Vec::new();
    let count: usize = bgra.len() / 4;
    assert(count == bgra@.len() / 4);
    let mut i: usize = 0;
    while i < count
        invariant
            count == bgra@.len() / 4,
            i <= count,
            indexed@.len() == i,
            forall|j: int|
                0 <= j < i ==> #[trigger] indexed@[j] == quantized_index(
                    bgra@[4 * j],
                    bgra@[4 * j + 1],
                    bgra@[4 * j + 2],
                ),
        decreases count - i,
    {
        let length = bgra.len();
        assert(4 * i + 3 < length) by (nonlinear_arith)
            requires
                i < count,
                count == length / 4,
        ;
        let blue = bgra[4 * i] / 64;
        let green = bgra[4 * i + 1] / 32;
        let red = bgra[4 * i + 2] / 32;
        indexed.push(red * 32 + green * 4 + blue);
        i += 1;
    }
    indexed
}

/// The RGB value of each whole BGRA pixel.
pub fn rgb_pixels(bgra: &[u8]) -> (pixels: Vec<[u8; 3]>)
    ensures
        pixels@.len() == bgra@.len() / 4,
        forall|i: int|
            0 <= i < pixels@.len() ==> #[trigger] pixels@[i] == [bgra@[4 * i + 2], bgra@[4 * i
                + 1], bgra@[4 * i]],
{
    let mut pixels: Vec<[u8; 3]> = Vec::new();
    let count: usize = bgra.len() / 4;
    assert(count == bgra@.len() / 4);
    let mut i: usize = 0;
    while i < count
        invariant
            count == bgra@.len() / 4,
            i <= count,
            pixels@.len() == i,
            forall|j: int|
                0 <= j < i ==> #[trigger] pixels@[j] == [bgra@[4 * j + 2], bgra@[4 * j + 1], bgra@[4
                    * j]],
        decreases count - i,
    {
        let length = bgra.len();
        assert(4 * i + 3 < length) by (nonlinear_arith)
            requires
                i < count,
                count == length / 4,
        ;
        pixels.push([bgra[4 * i + 2], bgra[4 * i + 1], bgra[4 * i]]);
        i += 1;
    }
    pixels
}

/// The histogram bin of a color: its top five bits per channel.
pub open spec fn spec_histogram_key(color: [u8; 3]) -> int {
    (color[0] / 8) * 1024 + (color[1] / 8) * 32 + color[2] / 8
}

pub fn histogram_key(color: [u8; 3]) -> (key: usize)
    ensures
        key == spec_histogram_key(color),
        key < COLOR_HISTOGRAM_SIZE,
{
    let red = (color[0] / 8) as usize;
    let green = (color[1] / 8) as usize;
    let blue = (color[2] / 8) as usize;
    red * 1024 + green * 32 + blue
}

/// The squared distance between two colors.
pub open spec fn spec_color_error(left: [u8; 3], right: [u8; 3]) -> int {
    (left[0] - right[0]) * (left[0] - right[0]) + (left[1] - right[1]) * (left[1] - right[1]) + (
    left[2] - right[2]) * (left[2] - right[2])
}

fn square_difference(left: u8, right: u8) -> (square: u32)
    ensures
        square == (left - right) * (left - right),
        square <= 65025,
{
    let difference: i32 = left as i32 - right as i32;
    assert(difference * difference <= 65025) by (nonlinear_arith)
        requires
            -255 <= difference <= 255,
    ;
    assert(difference * difference >= 0) by (nonlinear_arith);
    (difference * difference) as u32
}

pub fn color_error(left: [u8; 3], right: [u8; 3]) -> (error: u32)
    ensures
        error == spec_color_error(left, right),
        error <= 3 * 65025,
{
    square_difference(left[0], right[0]) + square_difference(left[1], right[1])
        + square_difference(left[2], right[2])
}

/// The fixed-palette color that stands for `color`.
pub open spec fn spec_fixed_quantized_color(color: [u8; 3]) -> [u8; 3] {
    [
        palette_level((color[0] / 32) as int, 8) as u8,
        palette_level((color[1] / 32) as int, 8) as u8,
        palette_level((color[2] / 64) as int, 4) as u8,
    ]
}

pub fn fixed_quantized_color(color: [u8; 3]) -> (quantized: [u8; 3])
    ensures
        quantized == spec_fixed_quantized_color(color),
{
    let red = (color[0] / 32) as u16;
    let green = (color[1] / 32) as u16;
    let blue = (color[2] / 64) as u16;
    [((red * 255 + 3) / 7) as u8, ((green * 255 + 3) / 7) as u8, ((blue * 255 + 1) / 3) as u8]
}

/// The first index of `palette` whose color is nearest to `color`; zero for an empty palette.
pub open spec fn is_nearest_index(color: [u8; 3], palette: Seq<[u8; 3]>, index: int) -> bool {
    if palette.len() == 0 {
        index == 0
    } else {
        &&& 0 <= index < palette.len()
        &&& forall|j: int|
            0 <= j < palette.len() ==> spec_color_error(color, palette[index]) <= #[trigger] spec_color_error(
                color,
                palette[j],
            )
        &&& forall|j: int|
            0 <= j < index ==> spec_color_error(color, palette[index]) < #[trigger] spec_color_error(
                color,
                palette[j],
            )
    }
}

pub fn nearest_palette_index(color: [u8; 3], palette: &[[u8; 3]]) -> (index: usize)
    ensures
        is_nearest_index(color, palette@, index as int),
{
    if palette.len() == 0 {
        return 0;
    }
    let mut best: usize = 0;
    let mut best_error = color_error(color, palette[0]);
    let mut j: usize = 1;
    while j < palette.len()
        invariant
            1 <= j <= palette@.len(),
            best < j,
            best_error == spec_color_error(color, palette@[best as int]),
            forall|k: int| 0 <= k < j ==> best_error <= #[trigger] spec_color_error(color, palette@[k]),
            forall|k: int| 0 <= k < best ==> best_error < #[trigger] spec_color_error(color, palette@[k]),
        decreases palette@.len() - j,
    {
        let error = color_error(color, palette[j]);
        if error < best_error {
            best = j;
            best_error = error;
        }
        j += 1;
    }
    best
}

/// Per-bin pixel count and channel sums.
#[derive(Clone, Copy, Debug, PartialEq, Eq, Structural)]
pub struct ColorBin {
    pub count: u64,
    pub red: u64,
    pub green: u64,
    pub blue: u64,
}

/// How many of `pixels` fall in bin `key`.
pub open spec fn bin_count(pixels: Seq<[u8; 3]>, key: int) -> int
    decreases pixels.len(),
{
    if pixels.len() == 0 {
        0
    } else {
        bin_count(pixels.drop_last(), key) + if spec_histogram_key(pixels.last()) == key {
            1int
        } else {
            0int
        }
    }
}

/// The sum of channel `channel` over the pixels of `pixels` in bin `key`.
pub open spec fn bin_sum(pixels: Seq<[u8; 3]>, key: int, channel: int) -> int
    decreases pixels.len(),
{
    if pixels.len() == 0 {
        0
    } else {
        bin_sum(pixels.drop_last(), key, channel) + if spec_histogram_key(pixels.last()) == key {
            pixels.last()[channel] as int
        } else {
            0int
        }
    }
}

pub proof fn lemma_bin_bounds(pixels: Seq<[u8; 3]>, key: int, channel: int)
    ensures
        0 <= bin_count(pixels, key) <= pixels.len(),
        0 <= bin_sum(pixels, key, channel) <= 255 * bin_count(pixels, key),
    decreases pixels.len(),
{
    if pixels.len() > 0 {
        lemma_bin_bounds(pixels.drop_last(), key, channel);
    }
}

/// The histogram of `pixels` over the 32768 five-bit bins.
pub open spec fn is_histogram(bins: Seq<ColorBin>, pixels: Seq<[u8; 3]>) -> bool {
    &&& bins.len() == COLOR_HISTOGRAM_SIZE
    &&& forall|key: int|
        0 <= key < COLOR_HISTOGRAM_SIZE ==> {
            &&& (#[trigger] bins[key]).count == bin_count(pixels, key)
            &&& bins[key].red == bin_sum(pixels, key, 0)
            &&& bins[key].green == bin_sum(pixels, key, 1)
            &&& bins[key].blue == bin_sum(pixels, key, 2)
        }
}

/// Counts `pixels` and sums their channels per histogram bin.
pub fn build_histogram(pixels: &[[u8; 3]]) -> (bins: Vec<ColorBin>)
    requires
        pixels@.len() <= u32::MAX,
    ensures
        is_histogram(bins@, pixels@),
{
    let mut bins: Vec<ColorBin> = Vec::new();
    let mut key: usize = 0;
    while key < COLOR_HISTOGRAM_SIZE
        invariant
            key <= COLOR_HISTOGRAM_SIZE,
            bins@.len() == key,
            forall|k: int| 0 <= k < key ==> #[trigger] bins@[k] == (ColorBin { count: 0, red: 0, green: 0, blue: 0 }),
        decreases COLOR_HISTOGRAM_SIZE - key,
    {
        bins.push(ColorBin { count: 0, red: 0, green: 0, blue: 0 });
        key += 1;
    }
    assert(is_histogram(bins@, pixels@.take(0))) by {
        assert(pixels@.take(0) =~= Seq::<[u8; 3]>::empty());
    }
    let mut i: usize = 0;
    while i < pixels.len()
        invariant
            i <= pixels@.len(),
            pixels@.len() <= u32::MAX,
            is_histogram(bins@, pixels@.take(i as int)),
        decreases pixels@.len() - i,
    {
        let color = pixels[i];
        let k = histogram_key(color);
        let ghost before = pixels@.take(i as int);
        let ghost after = pixels@.take(i + 1);
        assert(after.drop_last() =~= before);
        assert(after.last() == color);
        proof {
            lemma_bin_bounds(before, k as int, 0);
            lemma_bin_bounds(before, k as int, 1);
            lemma_bin_bounds(before, k as int, 2);
            assert(255 * bin_count(before, k as int) <= 255 * pixels@.len()) by (nonlinear_arith)
                requires
                    bin_count(before, k as int) <= pixels@.len(),
            ;
        }
        let bin = bins[k];
        let updated = ColorBin {
            count: bin.count + 1,
            red: bin.red + color[0] as u64,
            green: bin.green + color[1] as u64,
            blue: bin.blue + color[2] as u64,
        };
        bins.set(k, updated);
        i += 1;
        assert forall|key: int| 0 <= key < COLOR_HISTOGRAM_SIZE implies {
            &&& (#[trigger] bins@[key]).count == bin_count(after, key)
            &&& bins@[key].red == bin_sum(after, key, 0)
            &&& bins@[key].green == bin_sum(after, key, 1)
            &&& bins@[key].blue == bin_sum(after, key, 2)
        } by {
            assert(bin_count(after, key) == bin_count(before, key) + if spec_histogram_key(color) == key { 1int } else { 0int });
        }
    }
    assert(pixels@.take(pixels@.len() as int) =~= pixels@);
    bins
}

/// A lookup from histogram bin to the palette entry nearest the bin's average color.
pub struct PaletteLookup {
    pub indices: Vec<u8>,
}

impl PaletteLookup {
    /// For every bin that `pixels` occupy, the nearest palette index to the bin's average
    /// color; zero for empty bins.
    pub fn new(pixels: &[[u8; 3]], palette: &[[u8; 3]]) -> (lookup: PaletteLookup)
        requires
            palette@.len() <= 256,
            pixels@.len() <= u32::MAX,
        ensures
            lookup.indices@.len() == COLOR_HISTOGRAM_SIZE,
            forall|key: int|
                0 <= key < COLOR_HISTOGRAM_SIZE ==> {
                    let count = bin_count(pixels@, key);
                    &&& count == 0 ==> #[trigger] lookup.indices@[key] == 0
                    &&& count != 0 ==> is_nearest_index(
                        [
                            (bin_sum(pixels@, key, 0) / count) as u8,
                            (bin_sum(pixels@, key, 1) / count) as u8,
                            (bin_sum(pixels@, key, 2) / count) as u8,
                        ],
                        palette@,
                        lookup.indices@[key] as int,
                    )
                },
    {
        let bins = build_histogram(pixels);
        let mut indices: Vec<u8> = Vec::new();
        let mut key: usize = 0;
        while key < COLOR_HISTOGRAM_SIZE
            invariant
                key <= COLOR_HISTOGRAM_SIZE,
                indices@.len() == key,
                is_histogram(bins@, pixels@),
                palette@.len() <= 256,
                forall|k: int|
                    0 <= k < key ==> {
                        let count = bin_count(pixels@, k);
                        &&& count == 0 ==> #[trigger] indices@[k] == 0
                        &&& count != 0 ==> is_nearest_index(
                            [
                                (bin_sum(pixels@, k, 0) / count) as u8,
                                (bin_sum(pixels@, k, 1) / count) as u8,
                                (bin_sum(pixels@, k, 2) / count) as u8,
                            ],
                            palette@,
                            indices@[k] as int,
                        )
                    },
            decreases COLOR_HISTOGRAM_SIZE - key,
        {
            let bin = bins[key];
            if bin.count == 0 {
                indices.push(0);
            } else {
                let representative = [
                    (bin.red / bin.count) as u8,
                    (bin.green / bin.count) as u8,
                    (bin.blue / bin.count) as u8,
                ];
                let nearest = nearest_palette_index(representative, palette);
                indices.push(nearest as u8);
            }
            key += 1;
        }
        PaletteLookup { indices }
    }

    pub fn index(&self, color: [u8; 3]) -> (index: usize)
        requires
            self.indices@.len() == COLOR_HISTOGRAM_SIZE,
        ensures
            index == self.indices@[spec_histogram_key(color)],
    {
        self.indices[histogram_key(color)] as usize
    }
}

} // verus!
