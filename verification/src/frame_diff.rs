//! Choosing the GIF frame for each video frame: a full adaptive or fixed-palette frame first,
//! then transparent frames that repaint only the pixels that get closer to the source.
use vstd::prelude::*;
use vstd::arithmetic::div_mod::lemma_fundamental_div_mod_converse;
use crate::gif::{GifFrame, Palette, encoded_frame_size, fits_canvas, fixed_color, fixed_gif_palette, spec_encoded_frame_size};
use crate::lzw::{clear_code, lemma_pow2_8, lzw_bytes, pow2};
use crate::palette::{
    PaletteLookup, bin_count, bin_sum, color_error, fixed_quantized_color, is_nearest_index, rgb_pixels,
    spec_color_error, spec_fixed_quantized_color, spec_histogram_key,
};
use crate::median_cut::{adaptive_palette, is_median_cut_palette};

verus! {

/// The RGB colors of the whole BGRA pixels of `bgra`.
pub open spec fn rgb_of(bgra: Seq<u8>) -> Seq<[u8; 3]> {
    Seq::new((bgra.len() / 4) as nat, |i: int| [bgra[4 * i + 2], bgra[4 * i + 1], bgra[4 * i]])
}

/// The color a GIF decoder shows for palette index `index`: black past the listed colors.
pub open spec fn frame_color(palette: Palette, index: u8) -> [u8; 3] {
    if (index as int) < palette.colors@.len() {
        palette.colors@[index as int]
    } else {
        [0u8, 0u8, 0u8]
    }
}

/// The canvas after a decoder draws `image` on a `canvas_width` wide `canvas`: pixels inside
/// the frame take their palette color, except transparent index zero, which keeps the canvas.
pub open spec fn composite(canvas: Seq<[u8; 3]>, canvas_width: int, image: GifFrame) -> Seq<[u8; 3]> {
    Seq::new(
        canvas.len(),
        |p: int|
            {
                let x = p % canvas_width;
                let y = p / canvas_width;
                if image.left <= x < image.left + image.width && image.top <= y < image.top
                    + image.height {
                    let index = image.indexed@[(y - image.top) * image.width + (x - image.left)];
                    if image.transparent && index == 0 {
                        canvas[p]
                    } else {
                        frame_color(image.palette, index)
                    }
                } else {
                    canvas[p]
                }
            },
    )
}

/// The palette index that a list of `(position, index)` changes leaves at `position`: the last
/// one listed there, or zero.
pub open spec fn change_at(changed: Seq<(usize, u8)>, position: int) -> u8
    decreases changed.len(),
{
    if changed.len() == 0 {
        0
    } else if changed.last().0 == position {
        changed.last().1
    } else {
        change_at(changed.drop_last(), position)
    }
}

/// `canvas` with the changed positions repainted in their palette colors.
pub open spec fn apply_changes(canvas: Seq<[u8; 3]>, changed: Seq<(usize, u8)>, palette: Palette) -> Seq<[u8; 3]> {
    Seq::new(
        canvas.len(),
        |p: int|
            {
                let index = change_at(changed, p);
                if index == 0 {
                    canvas[p]
                } else {
                    frame_color(palette, index)
                }
            },
    )
}

/// The fixed-palette index of an RGB color: three bits of red and green, two of blue.
pub open spec fn fixed_index(color: [u8; 3]) -> int {
    (color[0] / 32) * 32 + (color[1] / 32) * 4 + color[2] / 64
}

/// The fixed quantizer's color for `color` is the entry of the fixed palette (the table that
/// `fixed_palette` writes and `fixed_gif_palette` holds) at its bit-packed index
/// `(r >> 5) << 5 | (g >> 5) << 2 | b >> 6`.
pub proof fn lemma_fixed_index_color(color: [u8; 3])
    ensures
        0 <= fixed_index(color) < 256,
        fixed_color(fixed_index(color)) == spec_fixed_quantized_color(color),
{
    let red = color[0] / 32;
    let green = color[1] / 32;
    let blue = color[2] / 64;
    let index = fixed_index(color);
    assert(index / 32 == red as int);
    assert(index / 4 == red as int * 8 + green as int);
    assert((index / 4) % 8 == green as int);
    assert(index % 4 == blue as int);
    assert((index / 32) % 8 == red as int);
    assert(fixed_color(index) =~= spec_fixed_quantized_color(color));
}

/// The sum over all pixels of the squared distance between source and rendered color.
pub open spec fn total_error(source: Seq<[u8; 3]>, rendered: Seq<[u8; 3]>) -> int
    decreases source.len(),
{
    if source.len() == 0 {
        0
    } else {
        total_error(source.drop_last(), rendered) + spec_color_error(
            source.last(),
            rendered[source.len() - 1],
        )
    }
}

/// A palette of at most 256 colors indexes every one of them below its clear code.
pub proof fn lemma_palette_clear(palette: Palette)
    requires
        palette.wf(),
        palette.colors@.len() <= 256,
    ensures
        palette.colors@.len() <= clear_code(palette.spec_minimum_code_size() as u8),
        2 <= palette.spec_minimum_code_size() <= 8,
{
    lemma_pow2_8();
}

/// The canvas position of entry `q` of a `image_width` wide frame placed at `(left, top)`.
pub open spec fn box_position(q: int, image_width: int, left: int, top: int, canvas_width: int) -> int {
    (q / image_width + top) * canvas_width + q % image_width + left
}

/// The smallest column among the changed positions of a `width` wide canvas (`width` if none).
pub open spec fn changes_min_x(changed: Seq<(usize, u8)>, width: int) -> int
    decreases changed.len(),
{
    if changed.len() == 0 {
        width
    } else {
        let rest = changes_min_x(changed.drop_last(), width);
        let x = (changed.last().0 as int) % width;
        if x < rest {
            x
        } else {
            rest
        }
    }
}

/// The smallest row among the changed positions (`height` if none).
pub open spec fn changes_min_y(changed: Seq<(usize, u8)>, width: int, height: int) -> int
    decreases changed.len(),
{
    if changed.len() == 0 {
        height
    } else {
        let rest = changes_min_y(changed.drop_last(), width, height);
        let y = (changed.last().0 as int) / width;
        if y < rest {
            y
        } else {
            rest
        }
    }
}

/// The largest column among the changed positions (zero if none).
pub open spec fn changes_max_x(changed: Seq<(usize, u8)>, width: int) -> int
    decreases changed.len(),
{
    if changed.len() == 0 {
        0
    } else {
        let rest = changes_max_x(changed.drop_last(), width);
        let x = (changed.last().0 as int) % width;
        if x > rest {
            x
        } else {
            rest
        }
    }
}

/// The largest row among the changed positions (zero if none).
pub open spec fn changes_max_y(changed: Seq<(usize, u8)>, width: int) -> int
    decreases changed.len(),
{
    if changed.len() == 0 {
        0
    } else {
        let rest = changes_max_y(changed.drop_last(), width);
        let y = (changed.last().0 as int) / width;
        if y > rest {
            y
        } else {
            rest
        }
    }
}

proof fn lemma_changes_bounds(changed: Seq<(usize, u8)>, width: int, height: int)
    requires
        width >= 1,
        forall|k: int| 0 <= k < changed.len() ==> (#[trigger] changed[k]).0 < width * height,
    ensures
        changes_min_x(changed, width) <= width,
        changes_min_y(changed, width, height) <= height,
        0 <= changes_max_x(changed, width) < width,
        0 <= changes_max_y(changed, width) < height || (changed.len() == 0 && changes_max_y(changed, width) == 0),
        forall|k: int|
            0 <= k < changed.len() ==> {
                &&& changes_min_x(changed, width) <= ((#[trigger] changed[k]).0 as int) % width <= changes_max_x(changed, width)
                &&& changes_min_y(changed, width, height) <= (changed[k].0 as int) / width <= changes_max_y(changed, width)
            },
    decreases changed.len(),
{
    if changed.len() > 0 {
        let rest = changed.drop_last();
        assert forall|k: int| 0 <= k < rest.len() implies (#[trigger] rest[k]).0 < width * height by {
            assert(rest[k] == changed[k]);
        }
        lemma_changes_bounds(rest, width, height);
        let position = changed.last().0 as int;
        assert(position < width * height);
        assert(position / width < height) by (nonlinear_arith)
            requires
                position < width * height,
                width >= 1,
                position >= 0,
        ;
        assert forall|k: int| 0 <= k < changed.len() implies {
            &&& changes_min_x(changed, width) <= ((#[trigger] changed[k]).0 as int) % width <= changes_max_x(changed, width)
            &&& changes_min_y(changed, width, height) <= (changed[k].0 as int) / width <= changes_max_y(changed, width)
        } by {
            if k < rest.len() {
                assert(rest[k] == changed[k]);
            }
        }
    }
}

/// A change listed at a position leaves a nonzero index there only if it is listed.
proof fn lemma_change_at_listed(changed: Seq<(usize, u8)>, position: int)
    requires
        change_at(changed, position) != 0,
    ensures
        exists|k: int| 0 <= k < changed.len() && (#[trigger] changed[k]).0 == position,
    decreases changed.len(),
{
    if changed.last().0 != position {
        lemma_change_at_listed(changed.drop_last(), position);
        let k = choose|k: int| 0 <= k < changed.drop_last().len() && (#[trigger] changed.drop_last()[k]).0 == position;
        assert(changed[k] == changed.drop_last()[k]);
    } else {
        assert(changed[changed.len() - 1].0 == position);
    }
}

/// Entry `q` of a frame placed inside the canvas sits at column `q % image_width + left` and row
/// `q / image_width + top`.
proof fn lemma_box_position(q: int, image_width: int, left: int, top: int, canvas_width: int)
    requires
        0 <= q,
        image_width >= 1,
        0 <= left,
        0 <= top,
        left + image_width <= canvas_width,
    ensures
        box_position(q, image_width, left, top, canvas_width) % canvas_width == q % image_width + left,
        box_position(q, image_width, left, top, canvas_width) / canvas_width == q / image_width + top,
{
    let row = q / image_width + top;
    let column = q % image_width + left;
    assert(0 <= q % image_width < image_width);
    assert(0 <= q / image_width) by (nonlinear_arith)
        requires
            0 <= q,
            image_width >= 1,
    ;
    lemma_fundamental_div_mod_converse(row * canvas_width + column, canvas_width, row, column);
}

/// The frame entry for a canvas position inside the frame.
proof fn lemma_entry_of_position(position: int, image_width: int, left: int, top: int, canvas_width: int)
    requires
        0 <= position,
        canvas_width >= 1,
        image_width >= 1,
        0 <= left,
        0 <= top,
        left <= position % canvas_width < left + image_width,
        top <= position / canvas_width,
    ensures
        ({
            let q = (position / canvas_width - top) * image_width + (position % canvas_width - left);
            &&& q / image_width == position / canvas_width - top
            &&& q % image_width == position % canvas_width - left
            &&& box_position(q, image_width, left, top, canvas_width) == position
        }),
{
    let row = position / canvas_width - top;
    let column = position % canvas_width - left;
    let q = row * image_width + column;
    lemma_fundamental_div_mod_converse(q, image_width, row, column);
    vstd::arithmetic::div_mod::lemma_fundamental_div_mod(position, canvas_width);
    assert(position == canvas_width * (position / canvas_width) + position % canvas_width);
    assert(box_position(q, image_width, left, top, canvas_width) == (position / canvas_width) * canvas_width
        + position % canvas_width);
    assert((position / canvas_width) * canvas_width == canvas_width * (position / canvas_width)) by (nonlinear_arith);
}

/// Two entries of a frame at the same canvas position are the same entry.
proof fn lemma_box_position_injective(q1: int, q2: int, image_width: int, left: int, top: int, canvas_width: int)
    requires
        0 <= q1,
        0 <= q2,
        image_width >= 1,
        0 <= left,
        0 <= top,
        left + image_width <= canvas_width,
        box_position(q1, image_width, left, top, canvas_width) == box_position(q2, image_width, left, top, canvas_width),
    ensures
        q1 == q2,
{
    lemma_box_position(q1, image_width, left, top, canvas_width);
    lemma_box_position(q2, image_width, left, top, canvas_width);
    vstd::arithmetic::div_mod::lemma_fundamental_div_mod(q1, image_width);
    vstd::arithmetic::div_mod::lemma_fundamental_div_mod(q2, image_width);
}

/// `image` is the transparent frame for the `changed` pixels of a `width` wide canvas: it covers
/// their bounding box, holds each changed pixel's palette index and the transparent index zero
/// elsewhere, and carries `colors` as its well-formed local or global palette.
pub open spec fn is_difference_frame(
    image: GifFrame,
    changed: Seq<(usize, u8)>,
    colors: Seq<[u8; 3]>,
    local_palette: bool,
    width: u16,
    height: u16,
) -> bool {
    &&& image.left == changes_min_x(changed, width as int)
    &&& image.top == changes_min_y(changed, width as int, height as int)
    &&& image.width == changes_max_x(changed, width as int) - changes_min_x(changed, width as int) + 1
    &&& image.height == changes_max_y(changed, width as int) - changes_min_y(changed, width as int, height as int) + 1
    &&& image.indexed@.len() == image.width * image.height
    &&& forall|j: int|
        0 <= j < image.indexed@.len() ==> #[trigger] image.indexed@[j] == change_at(
            changed,
            box_position(j, image.width as int, image.left as int, image.top as int, width as int),
        )
    &&& image.palette.wf()
    &&& image.palette.colors@ == colors
    &&& image.local_palette == local_palette
    &&& image.transparent
}

/// The state a GIF decoder has after the frames emitted so far, and the source they stand for.
pub struct FrameDiffer {
    pub width: u16,
    pub height: u16,
    pub previous_source: Vec<[u8; 3]>,
    pub rendered: Vec<[u8; 3]>,
    pub global_palette: Palette,
}

impl FrameDiffer {
    /// One source and one rendered color per pixel, a frame small enough to hold as BGRA, and
    /// a palette that starts with black and has room for its colors.
    pub open spec fn wf(&self) -> bool {
        &&& self.width * self.height <= usize::MAX / 4
        &&& self.previous_source@.len() == self.width * self.height
        &&& self.rendered@.len() == self.width * self.height
        &&& self.global_palette.wf()
        &&& 2 <= self.global_palette.colors@.len() <= 256
    }

    /// A frame that covers the bounding box of the `changed` pixels, with each changed pixel's
    /// palette index and transparent index zero elsewhere; `None` when nothing changed.
    pub fn difference_image(&self, changed: Vec<(usize, u8)>, palette: Palette, local_palette: bool) -> (result: Option<GifFrame>)
        requires
            self.width * self.height <= usize::MAX / 4,
            palette.wf(),
            palette.colors@.len() <= 256,
            forall|k: int|
                0 <= k < changed@.len() ==> {
                    &&& (#[trigger] changed@[k]).0 < self.width * self.height
                    &&& changed@[k].1 >= 1
                    &&& (changed@[k].1 as nat) < clear_code(palette.spec_minimum_code_size() as u8)
                },
        ensures
            changed@.len() == 0 <==> result is None,
            result is Some ==> {
                let image = result->Some_0;
                let width = self.width as int;
                &&& is_difference_frame(image, changed@, palette.colors@, local_palette, self.width, self.height)
                &&& image.palette == palette
                &&& image.local_palette == local_palette
                &&& image.transparent
                &&& image.wf()
                &&& crate::gif::fits_canvas(image, self.width, self.height)
                &&& forall|canvas: Seq<[u8; 3]>|
                    canvas.len() == self.width * self.height ==> #[trigger] composite(canvas, width, image)
                        == apply_changes(canvas, changed@, palette)
            },
    {
        if changed.len() == 0 {
            return None;
        }
        let frame_width: usize = self.width as usize;
        let ghost w = self.width as int;
        let ghost h = self.height as int;
        proof {
            assert(changed@[0].0 < self.width * self.height);
            assert(frame_width >= 1) by (nonlinear_arith)
                requires
                    0 <= changed@[0].0 < self.width * self.height,
                    frame_width == self.width,
            ;
            lemma_changes_bounds(changed@, w, h);
        }
        let mut minimum_x: usize = self.width as usize;
        let mut minimum_y: usize = self.height as usize;
        let mut maximum_x: usize = 0;
        let mut maximum_y: usize = 0;
        let mut k: usize = 0;
        while k < changed.len()
            invariant
                k <= changed@.len(),
                frame_width == w,
                w >= 1,
                minimum_x == changes_min_x(changed@.take(k as int), w),
                minimum_y == changes_min_y(changed@.take(k as int), w, h),
                maximum_x == changes_max_x(changed@.take(k as int), w),
                maximum_y == changes_max_y(changed@.take(k as int), w),
            decreases changed@.len() - k,
        {
            let index = changed[k].0;
            assert(changed@.take(k + 1).drop_last() =~= changed@.take(k as int));
            let x = index % frame_width;
            let y = index / frame_width;
            if x < minimum_x {
                minimum_x = x;
            }
            if y < minimum_y {
                minimum_y = y;
            }
            if x > maximum_x {
                maximum_x = x;
            }
            if y > maximum_y {
                maximum_y = y;
            }
            k += 1;
        }
        assert(changed@.take(changed@.len() as int) =~= changed@);
        proof {
            assert(minimum_x <= (changed@[0].0 as int) % w <= maximum_x);
            assert(minimum_y <= (changed@[0].0 as int) / w <= maximum_y);
        }
        let box_width: usize = maximum_x - minimum_x + 1;
        let box_height: usize = maximum_y - minimum_y + 1;
        proof {
            assert(box_width * box_height <= w * h) by (nonlinear_arith)
                requires
                    1 <= box_width <= w,
                    1 <= box_height <= h,
            ;
        }
        let total: usize = box_width * box_height;
        let mut indexed: Vec<u8> = Vec::new();
        let mut q: usize = 0;
        while q < total
            invariant
                q <= total,
                indexed@.len() == q,
                forall|j: int| 0 <= j < q ==> #[trigger] indexed@[j] == 0,
            decreases total - q,
        {
            indexed.push(0);
            q += 1;
        }
        proof {
            assert forall|j: int| 0 <= j < total implies #[trigger] indexed@[j] == change_at(
                changed@.take(0),
                box_position(j, box_width as int, minimum_x as int, minimum_y as int, w),
            ) by {
                assert(changed@.take(0).len() == 0);
            }
        }
        let mut k: usize = 0;
        while k < changed.len()
            invariant
                k <= changed@.len(),
                frame_width == w,
                w >= 1,
                h == self.height,
                total == box_width * box_height,
                box_width == maximum_x - minimum_x + 1,
                box_height == maximum_y - minimum_y + 1,
                maximum_x < w,
                indexed@.len() == total,
                forall|i: int|
                    0 <= i < changed@.len() ==> {
                        &&& minimum_x <= ((#[trigger] changed@[i]).0 as int) % w <= maximum_x
                        &&& minimum_y <= (changed@[i].0 as int) / w <= maximum_y
                    },
                forall|j: int|
                    0 <= j < total ==> #[trigger] indexed@[j] == change_at(
                        changed@.take(k as int),
                        box_position(j, box_width as int, minimum_x as int, minimum_y as int, w),
                    ),
            decreases changed@.len() - k,
        {
            let (index, palette_index) = changed[k];
            let x = index % frame_width;
            let y = index / frame_width;
            let ghost before = changed@.take(k as int);
            let ghost after = changed@.take(k + 1);
            proof {
                assert(after.drop_last() =~= before);
                assert(after.last() == changed@[k as int]);
                assert(minimum_x <= x <= maximum_x);
                assert(minimum_y <= y <= maximum_y);
                lemma_entry_of_position(index as int, box_width as int, minimum_x as int, minimum_y as int, w);
                assert((y - minimum_y) * box_width + (x - minimum_x) < total) by (nonlinear_arith)
                    requires
                        0 <= y - minimum_y < box_height,
                        0 <= x - minimum_x < box_width,
                        total == box_width * box_height,
                ;
                assert((y - minimum_y) * box_width <= (y - minimum_y) * box_width + (x - minimum_x));
            }
            let target: usize = (y - minimum_y) * box_width + (x - minimum_x);
            indexed.set(target, palette_index);
            proof {
                assert forall|j: int| 0 <= j < total implies #[trigger] indexed@[j] == change_at(
                    after,
                    box_position(j, box_width as int, minimum_x as int, minimum_y as int, w),
                ) by {
                    let position = box_position(j, box_width as int, minimum_x as int, minimum_y as int, w);
                    if j != target {
                        if position == index {
                            lemma_box_position_injective(j, target as int, box_width as int, minimum_x as int, minimum_y as int, w);
                        }
                    }
                }
            }
            k += 1;
        }
        assert(changed@.take(changed@.len() as int) =~= changed@);
        assert(minimum_x < 65536 && minimum_y < 65536 && box_width < 65536 && box_height < 65536);
        let image = GifFrame {
            left: minimum_x as u16,
            top: minimum_y as u16,
            width: box_width as u16,
            height: box_height as u16,
            indexed,
            palette,
            local_palette,
            transparent: true,
        };
        proof {
            let clear = clear_code(image.palette.spec_minimum_code_size() as u8);
            lemma_palette_clear(image.palette);
            assert forall|j: int| 0 <= j < image.indexed@.len() implies (#[trigger] image.indexed@[j] as nat) < clear by {
                let position = box_position(j, box_width as int, minimum_x as int, minimum_y as int, w);
                if change_at(changed@, position) != 0 {
                    lemma_change_at_listed(changed@, position);
                    lemma_change_at_value(changed@, position);
                }
            }
            assert forall|canvas: Seq<[u8; 3]>| canvas.len() == self.width * self.height implies #[trigger] composite(
                canvas,
                w,
                image,
            ) == apply_changes(canvas, changed@, palette) by {
                let left = composite(canvas, w, image);
                let right = apply_changes(canvas, changed@, palette);
                assert forall|p: int| 0 <= p < canvas.len() implies left[p] == right[p] by {
                    let x = p % w;
                    let y = p / w;
                    if minimum_x <= x < minimum_x + box_width && minimum_y <= y < minimum_y + box_height {
                        lemma_entry_of_position(p, box_width as int, minimum_x as int, minimum_y as int, w);
                        let q = (y - minimum_y) * box_width + (x - minimum_x);
                        assert(q < total) by (nonlinear_arith)
                            requires
                                q == (y - minimum_y) * box_width + (x - minimum_x),
                                0 <= y - minimum_y < box_height,
                                0 <= x - minimum_x < box_width,
                                total == box_width * box_height,
                        ;
                        assert(0 <= q) by (nonlinear_arith)
                            requires
                                q == (y - minimum_y) * box_width + (x - minimum_x),
                                0 <= y - minimum_y,
                                0 <= x - minimum_x,
                                box_width >= 0,
                        ;
                        assert(image.indexed@[q] == change_at(changed@, p));
                    } else if change_at(changed@, p) != 0 {
                        lemma_change_at_listed(changed@, p);
                        let k = choose|k: int| 0 <= k < changed@.len() && (#[trigger] changed@[k]).0 == p;
                        assert(minimum_x <= (changed@[k].0 as int) % w <= maximum_x);
                        assert(minimum_y <= (changed@[k].0 as int) / w <= maximum_y);
                    }
                }
                assert(left =~= right);
            }
            assert(minimum_y + box_height <= h);
        }
        Some(image)
    }
}

/// A nonzero index left at a position is the index of one of the changes listed there.
proof fn lemma_change_at_value(changed: Seq<(usize, u8)>, position: int)
    requires
        change_at(changed, position) != 0,
    ensures
        exists|k: int| 0 <= k < changed.len() && (#[trigger] changed[k]).1 == change_at(changed, position),
    decreases changed.len(),
{
    if changed.last().0 != position {
        lemma_change_at_value(changed.drop_last(), position);
        let k = choose|k: int| 0 <= k < changed.drop_last().len() && (#[trigger] changed.drop_last()[k]).1
            == change_at(changed.drop_last(), position);
        assert(changed[k] == changed.drop_last()[k]);
    } else {
        assert(changed[changed.len() - 1].1 == change_at(changed, position));
    }
}

/// The fixed-palette index of every color.
fn fixed_indices(source: &Vec<[u8; 3]>) -> (indexed: Vec<u8>)
    ensures
        indexed@.len() == source@.len(),
        forall|i: int| 0 <= i < source@.len() ==> #[trigger] indexed@[i] == fixed_index(source@[i]),
{
    let mut indexed: Vec<u8> = Vec::new();
    let mut i: usize = 0;
    while i < source.len()
        invariant
            i <= source@.len(),
            indexed@.len() == i,
            forall|j: int| 0 <= j < i ==> #[trigger] indexed@[j] == fixed_index(source@[j]),
        decreases source@.len() - i,
    {
        let color = source[i];
        indexed.push((color[0] / 32) * 32 + (color[1] / 32) * 4 + color[2] / 64);
        i += 1;
    }
    indexed
}

/// The fixed palette's rendering of every color.
fn fixed_rendering(source: &Vec<[u8; 3]>) -> (rendered: Vec<[u8; 3]>)
    ensures
        rendered@.len() == source@.len(),
        forall|i: int| 0 <= i < source@.len() ==> #[trigger] rendered@[i] == spec_fixed_quantized_color(source@[i]),
{
    let mut rendered: Vec<[u8; 3]> = Vec::new();
    let mut i: usize = 0;
    while i < source.len()
        invariant
            i <= source@.len(),
            rendered@.len() == i,
            forall|j: int| 0 <= j < i ==> #[trigger] rendered@[j] == spec_fixed_quantized_color(source@[j]),
        decreases source@.len() - i,
    {
        rendered.push(fixed_quantized_color(source[i]));
        i += 1;
    }
    rendered
}

proof fn lemma_total_error_bound(source: Seq<[u8; 3]>, rendered: Seq<[u8; 3]>)
    ensures
        0 <= total_error(source, rendered) <= 195075 * source.len(),
    decreases source.len(),
{
    if source.len() > 0 {
        lemma_total_error_bound(source.drop_last(), rendered);
        let a = source.last();
        let b = rendered[source.len() - 1];
        assert(0 <= (a[0] - b[0]) * (a[0] - b[0]) <= 65025) by (nonlinear_arith)
            requires
                -255 <= a[0] - b[0] <= 255,
        ;
        assert(0 <= (a[1] - b[1]) * (a[1] - b[1]) <= 65025) by (nonlinear_arith)
            requires
                -255 <= a[1] - b[1] <= 255,
        ;
        assert(0 <= (a[2] - b[2]) * (a[2] - b[2]) <= 65025) by (nonlinear_arith)
            requires
                -255 <= a[2] - b[2] <= 255,
        ;
    }
}

/// The summed squared error of a rendering against its source.
fn error_total(source: &Vec<[u8; 3]>, rendered: &Vec<[u8; 3]>) -> (total: u64)
    requires
        source@.len() <= rendered@.len(),
        source@.len() <= u32::MAX,
    ensures
        total == total_error(source@, rendered@),
{
    let mut total: u64 = 0;
    let mut i: usize = 0;
    while i < source.len()
        invariant
            i <= source@.len(),
            source@.len() <= rendered@.len(),
            source@.len() <= u32::MAX,
            total == total_error(source@.take(i as int), rendered@),
        decreases source@.len() - i,
    {
        proof {
            assert(source@.take(i + 1).drop_last() =~= source@.take(i as int));
            lemma_total_error_bound(source@.take(i + 1), rendered@);
        }
        total = total + color_error(source[i], rendered[i]) as u64;
        i += 1;
    }
    assert(source@.take(source@.len() as int) =~= source@);
    total
}

/// Every color of a list lies in an occupied histogram bin of that list.
proof fn lemma_own_bin_occupied(pixels: Seq<[u8; 3]>, i: int)
    requires
        0 <= i < pixels.len(),
    ensures
        bin_count(pixels, spec_histogram_key(pixels[i])) >= 1,
    decreases pixels.len(),
{
    let key = spec_histogram_key(pixels[i]);
    crate::palette::lemma_bin_bounds(pixels.drop_last(), key, 0);
    if i < pixels.len() - 1 {
        lemma_own_bin_occupied(pixels.drop_last(), i);
        assert(pixels.drop_last()[i] == pixels[i]);
    }
}

impl Palette {
    /// A copy of the table.
    pub fn duplicate(&self) -> (copy: Palette)
        ensures
            copy.colors@ == self.colors@,
            copy.table_size == self.table_size,
    {
        let colors = vstd::slice::slice_to_vec(self.colors.as_slice());
        proof {
            assert(colors@ =~= self.colors@);
        }
        Palette { colors, table_size: self.table_size }
    }
}

/// The average color of the histogram bin that `color` falls in, over `pixels`.
pub open spec fn bin_color(pixels: Seq<[u8; 3]>, color: [u8; 3]) -> [u8; 3] {
    let key = spec_histogram_key(color);
    let count = bin_count(pixels, key);
    [
        (bin_sum(pixels, key, 0) / count) as u8,
        (bin_sum(pixels, key, 1) / count) as u8,
        (bin_sum(pixels, key, 2) / count) as u8,
    ]
}

/// The first index of a nearest palette color.
pub open spec fn nearest_index(color: [u8; 3], palette: Seq<[u8; 3]>) -> int {
    choose|index: int| is_nearest_index(color, palette, index)
}

proof fn lemma_nearest_index_unique(color: [u8; 3], palette: Seq<[u8; 3]>, index: int)
    requires
        is_nearest_index(color, palette, index),
    ensures
        nearest_index(color, palette) == index,
{
    let other = nearest_index(color, palette);
    assert(is_nearest_index(color, palette, other));
    if palette.len() > 0 {
        if other < index {
            assert(spec_color_error(color, palette[index]) < spec_color_error(color, palette[other]));
        } else if index < other {
            assert(spec_color_error(color, palette[other]) < spec_color_error(color, palette[index]));
        }
    }
}

/// Each pixel drawn in the adaptive color nearest its bin's average, where `colors` starts with
/// the transparent black entry.
pub open spec fn adaptive_rendering(source: Seq<[u8; 3]>, colors: Seq<[u8; 3]>) -> Seq<[u8; 3]> {
    Seq::new(source.len(), |p: int| colors[1 + nearest_index(bin_color(source, source[p]), colors.skip(1))])
}

/// Each pixel drawn in its fixed-palette color.
pub open spec fn fixed_rendered(source: Seq<[u8; 3]>) -> Seq<[u8; 3]> {
    Seq::new(source.len(), |p: int| spec_fixed_quantized_color(source[p]))
}

/// The opaque fixed-palette frame that covers a whole `width` by `height` canvas.
pub open spec fn is_fixed_frame(image: GifFrame, source: Seq<[u8; 3]>, width: u16, height: u16) -> bool {
    &&& image.left == 0
    &&& image.top == 0
    &&& image.width == width
    &&& image.height == height
    &&& image.indexed@.len() == source.len()
    &&& forall|i: int| 0 <= i < source.len() ==> #[trigger] image.indexed@[i] == fixed_index(source[i])
    &&& image.palette.colors@.len() == 256
    &&& image.palette.table_size == 256
    &&& forall|i: int| 0 <= i < 256 ==> #[trigger] image.palette.colors@[i] == fixed_color(i)
    &&& !image.local_palette
    &&& !image.transparent
}

/// The fixed-palette frame for `source`.
fn fixed_frame(source: &Vec<[u8; 3]>, width: u16, height: u16) -> (image: GifFrame)
    requires
        source@.len() == width * height,
    ensures
        is_fixed_frame(image, source@, width, height),
        image.wf(),
        forall|canvas: Seq<[u8; 3]>| canvas.len() == width * height ==> #[trigger] composite(canvas, width as int, image)
            == fixed_rendered(source@),
{
    let palette = fixed_gif_palette();
    let indexed = fixed_indices(source);
    let image = GifFrame {
        left: 0,
        top: 0,
        width,
        height,
        indexed,
        palette,
        local_palette: false,
        transparent: false,
    };
    proof {
        lemma_pow2_8();
        assert forall|i: int| 0 <= i < image.indexed@.len() implies (#[trigger] image.indexed@[i] as nat) < clear_code(
            image.palette.spec_minimum_code_size() as u8,
        ) by {
            lemma_fixed_index_color(source@[i]);
        }
        lemma_full_frame_composite(image, width, height);
        assert forall|canvas: Seq<[u8; 3]>| canvas.len() == width * height implies #[trigger] composite(
            canvas,
            width as int,
            image,
        ) == fixed_rendered(source@) by {
            assert forall|p: int| 0 <= p < canvas.len() implies composite(canvas, width as int, image)[p]
                == fixed_rendered(source@)[p] by {
                lemma_fixed_index_color(source@[p]);
                assert(composite(canvas, width as int, image)[p] == frame_color(image.palette, image.indexed@[p]));
            }
            assert(composite(canvas, width as int, image) =~= fixed_rendered(source@));
        }
    }
    image
}

/// An opaque frame that covers the whole canvas shows each pixel in its own palette color.
pub proof fn lemma_full_frame_composite(image: GifFrame, width: u16, height: u16)
    requires
        image.left == 0,
        image.top == 0,
        image.width == width,
        image.height == height,
        image.indexed@.len() == width * height,
        !image.transparent,
    ensures
        forall|canvas: Seq<[u8; 3]>, p: int|
            canvas.len() == width * height && 0 <= p < canvas.len() ==> #[trigger] composite(canvas, width as int, image)[p]
                == frame_color(image.palette, image.indexed@[p]),
{
    assert forall|canvas: Seq<[u8; 3]>, p: int|
        canvas.len() == width * height && 0 <= p < canvas.len() implies #[trigger] composite(
            canvas,
            width as int,
            image,
        )[p] == frame_color(image.palette, image.indexed@[p]) by {
        let w = width as int;
        assert(w >= 1) by (nonlinear_arith)
            requires
                0 <= p < w * height,
        ;
        vstd::arithmetic::div_mod::lemma_fundamental_div_mod(p, w);
        assert(p / w < height) by (nonlinear_arith)
            requires
                0 <= p < w * height,
                w >= 1,
        ;
        assert(0 <= p / w) by (nonlinear_arith)
            requires
                0 <= p,
                w >= 1,
        ;
        assert((p / w) * w == w * (p / w)) by (nonlinear_arith);
    }
}

/// Most colors an adaptive palette may hold beside the transparent entry.
pub const INITIAL_PALETTE_COLORS: usize = 255;

/// Most colors a difference frame's palette may hold beside the transparent entry.
pub const DIFFERENCE_PALETTE_COLORS: usize = 255;

/// `[black] + colors`.
fn with_transparent_entry(colors: &Vec<[u8; 3]>) -> (table: Vec<[u8; 3]>)
    ensures
        table@ == seq![[0u8, 0u8, 0u8]] + colors@,
{
    let mut table: Vec<[u8; 3]> = Vec::new();
    table.push([0, 0, 0]);
    let mut i: usize = 0;
    while i < colors.len()
        invariant
            i <= colors@.len(),
            table@ == seq![[0u8, 0u8, 0u8]] + colors@.take(i as int),
        decreases colors@.len() - i,
    {
        table.push(colors[i]);
        i += 1;
        assert(table@ =~= seq![[0u8, 0u8, 0u8]] + colors@.take(i as int));
    }
    assert(colors@.take(colors@.len() as int) =~= colors@);
    table
}

/// What `FrameDiffer::first` gives for the BGRA frame `bgra` of a `width` by `height` canvas:
/// the first GIF frame `image` and the state `differ` later frames are compared against.
pub open spec fn first_outcome(bgra: Seq<u8>, width: u16, height: u16, image: GifFrame, differ: FrameDiffer) -> bool {
    let source = rgb_of(bgra);
    let colors = differ.global_palette.colors@;
    &&& differ.wf()
    &&& differ.width == width
    &&& differ.height == height
    &&& differ.previous_source@ == source
    &&& colors.len() >= 2
    &&& colors[0] == [0u8, 0u8, 0u8]
    &&& is_median_cut_palette(source, INITIAL_PALETTE_COLORS, colors.skip(1))
    &&& image.wf()
    &&& crate::gif::fits_canvas(image, width, height)
    &&& image.left == 0
    &&& image.top == 0
    &&& image.width == width
    &&& image.height == height
    &&& !image.transparent
    &&& forall|canvas: Seq<[u8; 3]>|
        canvas.len() == width * height ==> #[trigger] composite(canvas, width as int, image)
            == differ.rendered@
    &&& image.local_palette <==> total_error(source, adaptive_rendering(source, colors))
        <= total_error(source, fixed_rendered(source))
    &&& image.local_palette ==> {
        &&& image.palette.colors@ == colors
        &&& image.palette.table_size == differ.global_palette.table_size
        &&& differ.rendered@ == adaptive_rendering(source, colors)
        &&& image.indexed@.len() == source.len()
        &&& forall|p: int|
            0 <= p < source.len() ==> #[trigger] image.indexed@[p] == 1 + nearest_index(
                bin_color(source, source[p]),
                colors.skip(1),
            )
    }
    &&& !image.local_palette ==> {
        &&& is_fixed_frame(image, source, width, height)
        &&& differ.rendered@ == fixed_rendered(source)
    }
    &&& total_error(source, differ.rendered@) <= total_error(source, fixed_rendered(source))
}

impl FrameDiffer {
    /// The first GIF frame for a `width` by `height` BGRA frame: every pixel in the color of an
    /// adaptive palette chosen for it, or in the fixed palette when that renders the frame with
    /// less total error; and the state that later frames are compared against.
    pub fn first(bgra: &[u8], width: u16, height: u16) -> (result: (GifFrame, FrameDiffer))
        requires
            bgra@.len() == width * height * 4,
        ensures
            first_outcome(bgra@, width, height, result.0, result.1),
    {
        let bgra_len: usize = bgra.len();
        let source = rgb_pixels(bgra);
        let ghost src = rgb_of(bgra@);
        assert(source@ =~= src);
        proof {
            assert(src.len() == width * height);
            assert(width * height <= 0xffff * 0xffff) by (nonlinear_arith)
                requires
                    width <= 0xffff,
                    height <= 0xffff,
            ;
        }
        let opaque_colors = adaptive_palette(source.as_slice(), INITIAL_PALETTE_COLORS);
        let lookup = PaletteLookup::new(source.as_slice(), opaque_colors.as_slice());
        let colors = with_transparent_entry(&opaque_colors);
        let palette = Palette::new(colors);
        let ghost table = palette.colors@;
        assert(table.skip(1) =~= opaque_colors@);
        let mut rendered: Vec<[u8; 3]> = Vec::new();
        let mut indexed: Vec<u8> = Vec::new();
        let mut i: usize = 0;
        while i < source.len()
            invariant
                i <= src.len(),
                source@ == src,
                table == palette.colors@,
                table == seq![[0u8, 0u8, 0u8]] + opaque_colors@,
                table.skip(1) == opaque_colors@,
                1 <= opaque_colors@.len() <= 255,
                lookup.indices@.len() == crate::palette::COLOR_HISTOGRAM_SIZE,
                forall|key: int|
                    0 <= key < crate::palette::COLOR_HISTOGRAM_SIZE ==> {
                        let count = bin_count(src, key);
                        &&& count != 0 ==> is_nearest_index(
                            [
                                (bin_sum(src, key, 0) / count) as u8,
                                (bin_sum(src, key, 1) / count) as u8,
                                (bin_sum(src, key, 2) / count) as u8,
                            ],
                            opaque_colors@,
                            #[trigger] lookup.indices@[key] as int,
                        )
                    },
                rendered@.len() == i,
                indexed@.len() == i,
                forall|p: int|
                    0 <= p < i ==> {
                        &&& 1 <= #[trigger] indexed@[p] < table.len()
                        &&& indexed@[p] == 1 + nearest_index(bin_color(src, src[p]), table.skip(1))
                        &&& rendered@[p] == table[indexed@[p] as int]
                        &&& rendered@[p] == adaptive_rendering(src, table)[p]
                    },
            decreases src.len() - i,
        {
            let color = source[i];
            let index = lookup.index(color);
            proof {
                let key = spec_histogram_key(color);
                lemma_own_bin_occupied(src, i as int);
                assert(0 <= key < 32768);
                assert(is_nearest_index(bin_color(src, color), opaque_colors@, index as int));
                lemma_nearest_index_unique(bin_color(src, color), opaque_colors@, index as int);
            }
            rendered.push(opaque_colors[index]);
            indexed.push((index + 1) as u8);
            i += 1;
        }
        assert forall|p: int| 0 <= p < rendered@.len() implies rendered@[p] == adaptive_rendering(src, table)[p] by {
            assert(1 <= indexed@[p] < table.len());
        }
        assert(rendered@ =~= adaptive_rendering(src, table));
        let fixed = fixed_rendering(&source);
        assert(fixed@ =~= fixed_rendered(src));
        let adaptive_error = error_total(&source, &rendered);
        let fixed_error = error_total(&source, &fixed);
        let image: GifFrame;
        if adaptive_error <= fixed_error {
            image = GifFrame {
                left: 0,
                top: 0,
                width,
                height,
                indexed,
                palette: palette.duplicate(),
                local_palette: true,
                transparent: false,
            };
            proof {
                lemma_palette_clear(image.palette);
                lemma_full_frame_composite(image, width, height);
                assert forall|canvas: Seq<[u8; 3]>| canvas.len() == width * height implies #[trigger] composite(
                    canvas,
                    width as int,
                    image,
                ) == rendered@ by {
                    assert forall|p: int| 0 <= p < canvas.len() implies composite(canvas, width as int, image)[p]
                        == rendered@[p] by {
                        assert(1 <= indexed@[p] < table.len());
                    }
                    assert(composite(canvas, width as int, image) =~= rendered@);
                }
                assert forall|p: int| 0 <= p < image.indexed@.len() implies (#[trigger] image.indexed@[p] as nat)
                    < clear_code(image.palette.spec_minimum_code_size() as u8) by {
                    assert(1 <= indexed@[p] < table.len());
                }
            }
        } else {
            image = fixed_frame(&source, width, height);
            rendered = fixed;
        }
        let differ = FrameDiffer { width, height, previous_source: source, rendered, global_palette: palette };
        (image, differ)
    }
}

/// The bytes the opaque fixed-palette frame of `source` takes in a GIF.
pub open spec fn fixed_frame_size(source: Seq<[u8; 3]>) -> int {
    let compressed = lzw_bytes(Seq::new(source.len(), |i: int| fixed_index(source[i]) as u8), 8);
    (8 + 10 + 1 + compressed.len() + (compressed.len() + 254) / 255 + 1) as int
}

proof fn lemma_fixed_frame_size(image: GifFrame, source: Seq<[u8; 3]>, width: u16, height: u16)
    requires
        is_fixed_frame(image, source, width, height),
    ensures
        spec_encoded_frame_size(image) == fixed_frame_size(source),
{
    lemma_pow2_8();
    assert(image.indexed@ =~= Seq::new(source.len(), |i: int| fixed_index(source[i]) as u8));
}

/// Whether two colors differ in some channel.
pub open spec fn colors_differ(a: [u8; 3], b: [u8; 3]) -> bool {
    a[0] != b[0] || a[1] != b[1] || a[2] != b[2]
}

impl FrameDiffer {
    /// Keeps a difference frame unless the opaque fixed-palette frame of the current source is
    /// smaller; choosing that frame renders every pixel in its fixed color.
    pub fn choose_smaller_encoding(&mut self, difference: Option<GifFrame>) -> (result: Option<GifFrame>)
        requires
            old(self).wf(),
            difference is Some ==> {
                &&& difference->Some_0.wf()
                &&& difference->Some_0.indexed@.len() <= old(self).width * old(self).height
            },
        ensures
            final(self).width == old(self).width,
            final(self).height == old(self).height,
            final(self).previous_source@ == old(self).previous_source@,
            final(self).global_palette == old(self).global_palette,
            final(self).wf(),
            difference is None ==> result is None && final(self).rendered@ == old(self).rendered@,
            difference is Some ==> {
                let kept = fixed_frame_size(old(self).previous_source@) >= spec_encoded_frame_size(difference->Some_0);
                &&& kept ==> result == difference && final(self).rendered@ == old(self).rendered@
                &&& !kept ==> {
                    &&& result is Some
                    &&& is_fixed_frame(result->Some_0, old(self).previous_source@, old(self).width, old(self).height)
                    &&& result->Some_0.wf()
                    &&& final(self).rendered@ == fixed_rendered(old(self).previous_source@)
                    &&& forall|canvas: Seq<[u8; 3]>|
                        canvas.len() == old(self).width * old(self).height ==> #[trigger] composite(
                            canvas,
                            old(self).width as int,
                            result->Some_0,
                        ) == fixed_rendered(old(self).previous_source@)
                }
            },
    {
        let difference = match difference {
            Some(difference) => difference,
            None => return None,
        };
        let fixed = fixed_frame(&self.previous_source, self.width, self.height);
        proof {
            lemma_fixed_frame_size(fixed, self.previous_source@, self.width, self.height);
        }
        if encoded_frame_size(&fixed) >= encoded_frame_size(&difference) {
            return Some(difference);
        }
        self.rendered = fixed_rendering(&self.previous_source);
        assert(self.rendered@ =~= fixed_rendered(self.previous_source@));
        Some(fixed)
    }
}

/// The source colors of the first `count` pixels whose source differs from `previous`, in
/// pixel order.
pub open spec fn changed_colors(source: Seq<[u8; 3]>, previous: Seq<[u8; 3]>, count: int) -> Seq<[u8; 3]>
    decreases count,
{
    if count <= 0 {
        Seq::empty()
    } else if colors_differ(source[count - 1], previous[count - 1]) {
        changed_colors(source, previous, count - 1).push(source[count - 1])
    } else {
        changed_colors(source, previous, count - 1)
    }
}

/// The entry of `table`, past the first, nearest the average of the bin of pixel `q`'s source
/// color over all changed colors.
pub open spec fn repaint_index(source: Seq<[u8; 3]>, previous: Seq<[u8; 3]>, table: Seq<[u8; 3]>, q: int) -> int {
    let changed = changed_colors(source, previous, source.len() as int);
    1 + nearest_index(bin_color(changed, source[q]), table.skip(1))
}

/// Whether pixel `q` is repainted from `table`: its source changed and its entry of `table` is
/// closer to its source than its `rendered` color.
pub open spec fn is_repainted(
    source: Seq<[u8; 3]>,
    previous: Seq<[u8; 3]>,
    rendered: Seq<[u8; 3]>,
    table: Seq<[u8; 3]>,
    q: int,
) -> bool {
    let candidate = table[repaint_index(source, previous, table, q)];
    colors_differ(source[q], previous[q]) && spec_color_error(source[q], candidate) < spec_color_error(
        source[q],
        rendered[q],
    )
}

/// The color pixel `q` shows once the changed pixels are repainted from `table`.
pub open spec fn repainted_color(
    source: Seq<[u8; 3]>,
    previous: Seq<[u8; 3]>,
    rendered: Seq<[u8; 3]>,
    table: Seq<[u8; 3]>,
    q: int,
) -> [u8; 3] {
    if is_repainted(source, previous, rendered, table, q) {
        table[repaint_index(source, previous, table, q)]
    } else {
        rendered[q]
    }
}

/// The `(position, palette index)` list of the pixels below `count` that are repainted from
/// `table`, in pixel order.
pub open spec fn repaint_list(
    source: Seq<[u8; 3]>,
    previous: Seq<[u8; 3]>,
    rendered: Seq<[u8; 3]>,
    table: Seq<[u8; 3]>,
    count: int,
) -> Seq<(usize, u8)>
    decreases count,
{
    if count <= 0 {
        Seq::empty()
    } else if is_repainted(source, previous, rendered, table, count - 1) {
        repaint_list(source, previous, rendered, table, count - 1).push(
            ((count - 1) as usize, repaint_index(source, previous, table, count - 1) as u8),
        )
    } else {
        repaint_list(source, previous, rendered, table, count - 1)
    }
}

/// Pixels that are not repainted add nothing to the list.
proof fn lemma_repaint_list_gap(
    source: Seq<[u8; 3]>,
    previous: Seq<[u8; 3]>,
    rendered: Seq<[u8; 3]>,
    table: Seq<[u8; 3]>,
    from: int,
    to: int,
)
    requires
        0 <= from <= to,
        forall|q: int| from <= q < to ==> !#[trigger] is_repainted(source, previous, rendered, table, q),
    ensures
        repaint_list(source, previous, rendered, table, to) == repaint_list(source, previous, rendered, table, from),
    decreases to - from,
{
    if from < to {
        lemma_repaint_list_gap(source, previous, rendered, table, from, to - 1);
    }
}

/// `rendered` once the changed pixels are repainted from `table`.
pub open spec fn repainted(
    source: Seq<[u8; 3]>,
    previous: Seq<[u8; 3]>,
    rendered: Seq<[u8; 3]>,
    table: Seq<[u8; 3]>,
) -> Seq<[u8; 3]> {
    Seq::new(rendered.len(), |q: int| repainted_color(source, previous, rendered, table, q))
}

/// The table a difference frame repaints from: the `global` palette when repainting from it
/// keeps the total error within the fixed palette's, else black followed by a median-cut
/// palette of the changed colors.
pub open spec fn is_difference_table(
    source: Seq<[u8; 3]>,
    previous: Seq<[u8; 3]>,
    rendered: Seq<[u8; 3]>,
    global: Seq<[u8; 3]>,
    table: Seq<[u8; 3]>,
) -> bool {
    if total_error(source, repainted(source, previous, rendered, global)) <= total_error(
        source,
        fixed_rendered(source),
    ) {
        table == global
    } else {
        &&& table.len() >= 1
        &&& table[0] == [0u8, 0u8, 0u8]
        &&& is_median_cut_palette(
            changed_colors(source, previous, source.len() as int),
            DIFFERENCE_PALETTE_COLORS,
            table.skip(1),
        )
    }
}

/// `candidates` lists every pixel whose source differs from `previous`, once, in pixel order,
/// with its source color.
spec fn lists_changes(candidates: Seq<(usize, [u8; 3])>, source: Seq<[u8; 3]>, previous: Seq<[u8; 3]>) -> bool {
    &&& forall|j: int|
        0 <= j < candidates.len() ==> {
            &&& (#[trigger] candidates[j]).0 < source.len()
            &&& candidates[j].1 == source[candidates[j].0 as int]
            &&& colors_differ(source[candidates[j].0 as int], previous[candidates[j].0 as int])
        }
    &&& forall|j1: int, j2: int|
        0 <= j1 < j2 < candidates.len() ==> (#[trigger] candidates[j1]).0 < (#[trigger] candidates[j2]).0
    &&& forall|q: int|
        0 <= q < source.len() && #[trigger] colors_differ(source[q], previous[q]) ==> exists|j: int|
            0 <= j < candidates.len() && (#[trigger] candidates[j]).0 == q
}

/// The position of candidate `k`, or `count` past the last one.
spec fn next_position(candidates: Seq<(usize, [u8; 3])>, k: int, count: int) -> int {
    if k < candidates.len() {
        candidates[k].0 as int
    } else {
        count
    }
}

/// A pixel between two consecutive listed changes did not change.
proof fn lemma_unlisted_unchanged(
    candidates: Seq<(usize, [u8; 3])>,
    source: Seq<[u8; 3]>,
    previous: Seq<[u8; 3]>,
    k: int,
    q: int,
)
    requires
        lists_changes(candidates, source, previous),
        0 <= k <= candidates.len(),
        0 <= q < source.len(),
        k > 0 ==> candidates[k - 1].0 < q,
        q < next_position(candidates, k, source.len() as int),
    ensures
        !colors_differ(source[q], previous[q]),
{
    if colors_differ(source[q], previous[q]) {
        let j = choose|j: int| 0 <= j < candidates.len() && (#[trigger] candidates[j]).0 == q;
        if j < k - 1 {
            assert(candidates[j].0 < candidates[k - 1].0);
        } else if k < j {
            assert(candidates[k].0 < candidates[j].0);
        }
    }
}

/// With no changed pixel there are no changed colors.
proof fn lemma_no_changed_colors(source: Seq<[u8; 3]>, previous: Seq<[u8; 3]>, count: int)
    requires
        forall|q: int| 0 <= q < count ==> !colors_differ(#[trigger] source[q], previous[q]),
    ensures
        changed_colors(source, previous, count).len() == 0,
    decreases count,
{
    if count > 0 {
        lemma_no_changed_colors(source, previous, count - 1);
    }
}

/// With no changed pixel the difference table repaints nothing.
proof fn lemma_unchanged_repaint(
    source: Seq<[u8; 3]>,
    previous: Seq<[u8; 3]>,
    rendered: Seq<[u8; 3]>,
    global: Seq<[u8; 3]>,
) -> (table: Seq<[u8; 3]>)
    requires
        forall|q: int| 0 <= q < source.len() ==> !colors_differ(#[trigger] source[q], previous[q]),
        rendered.len() == source.len(),
    ensures
        is_difference_table(source, previous, rendered, global, table),
        repainted(source, previous, rendered, table) == rendered,
        repaint_list(source, previous, rendered, table, source.len() as int).len() == 0,
{
    let black = seq![[0u8, 0u8, 0u8]];
    assert(repainted(source, previous, rendered, global) =~= rendered);
    let table = if total_error(source, rendered) <= total_error(source, fixed_rendered(source)) {
        global
    } else {
        black + black
    };
    lemma_no_changed_colors(source, previous, source.len() as int);
    assert((black + black).skip(1) =~= black);
    assert(is_median_cut_palette(
        changed_colors(source, previous, source.len() as int),
        DIFFERENCE_PALETTE_COLORS,
        black,
    ));
    assert(repainted(source, previous, rendered, table) =~= rendered);
    lemma_repaint_list_gap(source, previous, rendered, table, 0, source.len() as int);
    table
}

/// The pixels whose source differs from `previous`, with their source colors, in pixel order;
/// and those colors alone.
fn changed_pixels(source: &Vec<[u8; 3]>, previous: &Vec<[u8; 3]>) -> (result: (Vec<(usize, [u8; 3])>, Vec<[u8; 3]>))
    requires
        source@.len() == previous@.len(),
    ensures
        lists_changes(result.0@, source@, previous@),
        result.1@ == changed_colors(source@, previous@, source@.len() as int),
        result.1@.len() == result.0@.len(),
        result.0@.len() <= source@.len(),
        forall|j: int| 0 <= j < result.1@.len() ==> #[trigger] result.1@[j] == result.0@[j].1,
{
    let mut candidates: Vec<(usize, [u8; 3])> = Vec::new();
    let mut colors: Vec<[u8; 3]> = Vec::new();
    let mut i: usize = 0;
    while i < source.len()
        invariant
            i <= source@.len(),
            source@.len() == previous@.len(),
            colors@ == changed_colors(source@, previous@, i as int),
            colors@.len() == candidates@.len(),
            candidates@.len() <= i,
            forall|j: int| 0 <= j < colors@.len() ==> #[trigger] colors@[j] == candidates@[j].1,
            forall|j: int|
                0 <= j < candidates@.len() ==> {
                    &&& (#[trigger] candidates@[j]).0 < i
                    &&& candidates@[j].1 == source@[candidates@[j].0 as int]
                    &&& colors_differ(source@[candidates@[j].0 as int], previous@[candidates@[j].0 as int])
                },
            forall|j1: int, j2: int|
                0 <= j1 < j2 < candidates@.len() ==> (#[trigger] candidates@[j1]).0 < (#[trigger] candidates@[j2]).0,
            forall|q: int|
                0 <= q < i && #[trigger] colors_differ(source@[q], previous@[q]) ==> exists|j: int|
                    0 <= j < candidates@.len() && (#[trigger] candidates@[j]).0 == q,
        decreases source@.len() - i,
    {
        let ghost earlier = candidates@;
        let current = source[i];
        let before = previous[i];
        if current[0] != before[0] || current[1] != before[1] || current[2] != before[2] {
            candidates.push((i, current));
            colors.push(current);
        }
        proof {
            assert forall|q: int| 0 <= q < i + 1 && #[trigger] colors_differ(source@[q], previous@[q]) implies exists|j: int|
                0 <= j < candidates@.len() && (#[trigger] candidates@[j]).0 == q by {
                if q < i {
                    let j = choose|j: int| 0 <= j < earlier.len() && (#[trigger] earlier[j]).0 == q;
                    assert(candidates@[j] == earlier[j]);
                } else {
                    assert(candidates@[earlier.len() as int].0 == q);
                }
            }
        }
        i += 1;
    }
    (candidates, colors)
}

/// `rendered` with each listed change repainted from `palette` where that brings it closer to
/// its source, and the `(position, index)` list of those repaints.
fn repaint_changes(
    source: &Vec<[u8; 3]>,
    rendered: &Vec<[u8; 3]>,
    candidates: &Vec<(usize, [u8; 3])>,
    lookup: &PaletteLookup,
    palette: &Palette,
    Ghost(previous): Ghost<Seq<[u8; 3]>>,
) -> (result: (Vec<[u8; 3]>, Vec<(usize, u8)>))
    requires
        rendered@.len() == source@.len(),
        previous.len() == source@.len(),
        lists_changes(candidates@, source@, previous),
        changed_colors(source@, previous, source@.len() as int).len() == candidates@.len(),
        forall|j: int|
            0 <= j < candidates@.len() ==> #[trigger] changed_colors(source@, previous, source@.len() as int)[j]
                == candidates@[j].1,
        2 <= palette.colors@.len() <= 256,
        lookup.indices@.len() == crate::palette::COLOR_HISTOGRAM_SIZE,
        forall|key: int|
            0 <= key < crate::palette::COLOR_HISTOGRAM_SIZE ==> {
                let basis = changed_colors(source@, previous, source@.len() as int);
                let c = bin_count(basis, key);
                &&& c != 0 ==> is_nearest_index(
                    [
                        (bin_sum(basis, key, 0) / c) as u8,
                        (bin_sum(basis, key, 1) / c) as u8,
                        (bin_sum(basis, key, 2) / c) as u8,
                    ],
                    palette.colors@.skip(1),
                    #[trigger] lookup.indices@[key] as int,
                )
            },
    ensures
        result.0@ == repainted(source@, previous, rendered@, palette.colors@),
        result.0@ == apply_changes(rendered@, result.1@, *palette),
        forall|j: int|
            0 <= j < result.1@.len() ==> {
                &&& (#[trigger] result.1@[j]).0 < source@.len()
                &&& result.1@[j].1 >= 1
                &&& (result.1@[j].1 as int) < palette.colors@.len()
            },
        result.1@.len() == 0 <==> result.0@ == rendered@,
        result.1@ == repaint_list(source@, previous, rendered@, palette.colors@, source@.len() as int),
{
    let ghost n = source@.len() as int;
    let ghost basis = changed_colors(source@, previous, n);
    let ghost table = palette.colors@;
    let mut out = vstd::slice::slice_to_vec(rendered.as_slice());
    let mut changed: Vec<(usize, u8)> = Vec::new();
    proof {
        assert(out@ =~= rendered@);
        assert(apply_changes(rendered@, changed@, *palette) =~= rendered@);
        assert forall|q: int| 0 <= q < next_position(candidates@, 0, n) implies !#[trigger] is_repainted(
            source@,
            previous,
            rendered@,
            table,
            q,
        ) by {
            lemma_unlisted_unchanged(candidates@, source@, previous, 0, q);
        }
        lemma_repaint_list_gap(source@, previous, rendered@, table, 0, next_position(candidates@, 0, n));
        assert(changed@ =~= repaint_list(source@, previous, rendered@, table, 0));
    }
    let mut k: usize = 0;
    while k < candidates.len()
        invariant
            k <= candidates@.len(),
            n == source@.len(),
            rendered@.len() == n,
            previous.len() == n,
            basis == changed_colors(source@, previous, n),
            table == palette.colors@,
            2 <= table.len() <= 256,
            lists_changes(candidates@, source@, previous),
            basis.len() == candidates@.len(),
            forall|j: int| 0 <= j < candidates@.len() ==> #[trigger] basis[j] == candidates@[j].1,
            lookup.indices@.len() == crate::palette::COLOR_HISTOGRAM_SIZE,
            forall|key: int|
                0 <= key < crate::palette::COLOR_HISTOGRAM_SIZE ==> {
                    let c = bin_count(basis, key);
                    &&& c != 0 ==> is_nearest_index(
                        [
                            (bin_sum(basis, key, 0) / c) as u8,
                            (bin_sum(basis, key, 1) / c) as u8,
                            (bin_sum(basis, key, 2) / c) as u8,
                        ],
                        table.skip(1),
                        #[trigger] lookup.indices@[key] as int,
                    )
                },
            out@.len() == n,
            forall|q: int|
                0 <= q < n ==> #[trigger] out@[q] == if q < next_position(candidates@, k as int, n) {
                    repainted_color(source@, previous, rendered@, table, q)
                } else {
                    rendered@[q]
                },
            out@ == apply_changes(rendered@, changed@, *palette),
            forall|j: int|
                0 <= j < changed@.len() ==> {
                    &&& (#[trigger] changed@[j]).0 < next_position(candidates@, k as int, n)
                    &&& changed@[j].0 < n
                    &&& changed@[j].1 >= 1
                    &&& (changed@[j].1 as int) < table.len()
                },
            changed@.len() == 0 ==> out@ == rendered@,
            changed@.len() > 0 ==> out@[changed@[0].0 as int] != rendered@[changed@[0].0 as int],
            changed@ == repaint_list(source@, previous, rendered@, table, next_position(candidates@, k as int, n)),
        decreases candidates@.len() - k,
    {
        let (index, color) = candidates[k];
        let palette_index = lookup.index(color);
        proof {
            assert(candidates@[k as int].0 == index);
            lemma_own_bin_occupied(basis, k as int);
            assert(basis[k as int] == color);
            lemma_nearest_index_unique(bin_color(basis, color), table.skip(1), palette_index as int);
        }
        let replacement = palette.colors[palette_index + 1];
        let ghost before_out = out@;
        if color_error(color, replacement) < color_error(color, rendered[index]) {
            let ghost before = changed@;
            out.set(index, replacement);
            changed.push((index, (palette_index + 1) as u8));
            proof {
                assert(changed@.drop_last() =~= before);
                assert(frame_color(*palette, (palette_index + 1) as u8) == replacement);
                assert(out@ =~= apply_changes(rendered@, changed@, *palette));
            }
        }
        proof {
            assert forall|q: int| 0 <= q < n implies #[trigger] out@[q] == if q < next_position(
                candidates@,
                k + 1,
                n,
            ) {
                repainted_color(source@, previous, rendered@, table, q)
            } else {
                rendered@[q]
            } by {
                if index < q && q < next_position(candidates@, k + 1, n) {
                    lemma_unlisted_unchanged(candidates@, source@, previous, k + 1, q);
                }
                if k + 1 < candidates@.len() {
                    assert(candidates@[k as int].0 < candidates@[k + 1].0);
                }
            }
            if k + 1 < candidates@.len() {
                assert(candidates@[k as int].0 < candidates@[k + 1].0);
            }
            assert(repaint_index(source@, previous, table, index as int) == palette_index + 1);
            assert(changed@ =~= repaint_list(source@, previous, rendered@, table, index + 1));
            assert forall|q: int| index + 1 <= q < next_position(candidates@, k + 1, n) implies !#[trigger] is_repainted(
                source@,
                previous,
                rendered@,
                table,
                q,
            ) by {
                lemma_unlisted_unchanged(candidates@, source@, previous, k + 1, q);
            }
            lemma_repaint_list_gap(source@, previous, rendered@, table, index + 1, next_position(candidates@, k + 1, n));
        }
        k += 1;
    }
    proof {
        assert(out@ =~= repainted(source@, previous, rendered@, table));
    }
    (out, changed)
}

/// What `FrameDiffer::difference` does: from `before`, given the next BGRA frame `bgra`, it
/// reaches `after` and returns `result`.
pub open spec fn difference_outcome(before: FrameDiffer, bgra: Seq<u8>, after: FrameDiffer, result: Option<GifFrame>) -> bool {
    &&& after.wf()
    &&& after.width == before.width
    &&& after.height == before.height
    &&& after.global_palette.colors@ == before.global_palette.colors@
    &&& after.global_palette.table_size == before.global_palette.table_size
    &&& after.previous_source@ == rgb_of(bgra)
    &&& result is None ==> after.rendered@ == before.rendered@
    &&& result is Some ==> {
        &&& result->Some_0.wf()
        &&& fits_canvas(result->Some_0, before.width, before.height)
        &&& composite(before.rendered@, before.width as int, result->Some_0) == after.rendered@
    }
    &&& result is Some && result->Some_0.local_palette ==> {
        &&& result->Some_0.transparent
        &&& spec_encoded_frame_size(result->Some_0) <= fixed_frame_size(rgb_of(bgra))
    }
    &&& result is None || result->Some_0.local_palette ==> exists|table: Seq<[u8; 3]>|
        {
            let changes = repaint_list(
                rgb_of(bgra),
                before.previous_source@,
                before.rendered@,
                table,
                rgb_of(bgra).len() as int,
            );
            &&& #[trigger] is_difference_table(
                rgb_of(bgra),
                before.previous_source@,
                before.rendered@,
                before.global_palette.colors@,
                table,
            )
            &&& after.rendered@ == repainted(
                rgb_of(bgra),
                before.previous_source@,
                before.rendered@,
                table,
            )
            &&& result is None <==> changes.len() == 0
            &&& result is Some ==> is_difference_frame(
                result->Some_0,
                changes,
                table,
                true,
                before.width,
                before.height,
            )
        }
    &&& result is Some && !result->Some_0.local_palette ==> {
        &&& is_fixed_frame(result->Some_0, rgb_of(bgra), before.width, before.height)
        &&& after.rendered@ == fixed_rendered(rgb_of(bgra))
        &&& exists|table: Seq<[u8; 3]>, repaint: GifFrame|
            #![trigger is_difference_table(rgb_of(bgra), before.previous_source@, before.rendered@, before.global_palette.colors@, table), spec_encoded_frame_size(repaint)]
            {
                let changes = repaint_list(
                    rgb_of(bgra),
                    before.previous_source@,
                    before.rendered@,
                    table,
                    rgb_of(bgra).len() as int,
                );
                &&& is_difference_table(
                    rgb_of(bgra),
                    before.previous_source@,
                    before.rendered@,
                    before.global_palette.colors@,
                    table,
                )
                &&& changes.len() > 0
                &&& is_difference_frame(repaint, changes, table, true, before.width, before.height)
                &&& fixed_frame_size(rgb_of(bgra)) < spec_encoded_frame_size(repaint)
            }
    }
}

impl FrameDiffer {
    /// The GIF frame for the next BGRA frame, or `None` when nothing needs repainting.
    ///
    /// Pixels whose source changed are repainted only where that brings them closer to the
    /// source: in the first palette's colors when that keeps the total error within the fixed
    /// palette's, else in a palette chosen for the changed pixels. The repaint is a transparent
    /// frame over the changes' bounding box, replaced by the opaque fixed-palette frame when
    /// that encodes smaller.
    pub fn difference(&mut self, bgra: &[u8]) -> (result: Option<GifFrame>)
        requires
            old(self).wf(),
            bgra@.len() == old(self).width * old(self).height * 4,
        ensures
            difference_outcome(*old(self), bgra@, *final(self), result),
    {
        let ghost old_rendered = self.rendered@;
        let ghost previous = self.previous_source@;
        let ghost global = self.global_palette.colors@;
        let ghost w = self.width as int;
        let ghost n = w * self.height;
        let source = rgb_pixels(bgra);
        let ghost src = rgb_of(bgra@);
        assert(source@ =~= src);
        proof {
            assert(src.len() == n);
            assert(n <= 0xffff * 0xffff) by (nonlinear_arith)
                requires
                    n == w * self.height,
                    w <= 0xffff,
                    self.height <= 0xffff,
            ;
        }
        let (candidates, candidate_colors) = changed_pixels(&source, &self.previous_source);
        if candidates.len() == 0 {
            proof {
                assert forall|q: int| 0 <= q < src.len() implies !colors_differ(#[trigger] src[q], previous[q]) by {
                    if colors_differ(src[q], previous[q]) {
                        let j = choose|j: int| 0 <= j < candidates@.len() && (#[trigger] candidates@[j]).0 == q;
                    }
                }
                let table = lemma_unchanged_repaint(src, previous, old_rendered, global);
                assert(is_difference_table(src, previous, old_rendered, global, table));
            }
            self.previous_source = source;
            return None;
        }
        let ghost basis = candidate_colors@;
        let palette_len = self.global_palette.colors.len();
        let global_colors = vstd::slice::slice_subrange(self.global_palette.colors.as_slice(), 1, palette_len);
        let global_lookup = PaletteLookup::new(candidate_colors.as_slice(), global_colors);
        proof {
            assert(global_colors@ =~= global.skip(1));
        }
        let (global_rendering, global_changed) = repaint_changes(
            &source,
            &self.rendered,
            &candidates,
            &global_lookup,
            &self.global_palette,
            Ghost(previous),
        );
        let global_error = error_total(&source, &global_rendering);
        let fixed = fixed_rendering(&source);
        proof {
            assert(fixed@ =~= fixed_rendered(src));
        }
        let baseline_error = error_total(&source, &fixed);
        if global_error <= baseline_error {
            self.rendered = global_rendering;
            self.previous_source = source;
            let ghost after = self.rendered@;
            let ghost palette = self.global_palette;
            proof {
                lemma_palette_clear(palette);
            }
            let difference = self.difference_image(global_changed, self.global_palette.duplicate(), true);
            proof {
                if difference is Some {
                    let image = difference->Some_0;
                    assert(composite(old_rendered, w, image) == apply_changes(old_rendered, global_changed@, image.palette));
                    assert(apply_changes(old_rendered, global_changed@, image.palette) =~= apply_changes(
                        old_rendered,
                        global_changed@,
                        palette,
                    ));
                    assert(image.indexed@.len() <= n) by (nonlinear_arith)
                        requires
                            image.indexed@.len() == image.width * image.height,
                            image.left + image.width <= w,
                            image.top + image.height <= self.height,
                            n == w * self.height,
                    ;
                    assert(composite(old_rendered, w, image) == after);
                }
                assert(is_difference_table(src, previous, old_rendered, global, global));
            }
            let result = self.choose_smaller_encoding(difference);
            proof {
                assert(is_difference_table(src, previous, old_rendered, global, global));
                if result is Some && !result->Some_0.local_palette {
                    let image = difference->Some_0;
                    assert(spec_encoded_frame_size(image) > fixed_frame_size(src));
                }
            }
            return result;
        }
        let opaque_colors = adaptive_palette(candidate_colors.as_slice(), DIFFERENCE_PALETTE_COLORS);
        let lookup = PaletteLookup::new(candidate_colors.as_slice(), opaque_colors.as_slice());
        let palette = Palette::new(with_transparent_entry(&opaque_colors));
        proof {
            assert(palette.colors@.skip(1) =~= opaque_colors@);
            lemma_palette_clear(palette);
        }
        let (rendering, changed) = repaint_changes(
            &source,
            &self.rendered,
            &candidates,
            &lookup,
            &palette,
            Ghost(previous),
        );
        self.rendered = rendering;
        self.previous_source = source;
        let ghost after = self.rendered@;
        proof {
            assert(is_median_cut_palette(basis, DIFFERENCE_PALETTE_COLORS, opaque_colors@));
            assert(palette.colors@ == seq![[0u8, 0u8, 0u8]] + opaque_colors@);
            assert(is_difference_table(src, previous, old_rendered, global, palette.colors@));
        }
        let difference = self.difference_image(changed, palette, true);
        proof {
            if difference is Some {
                let image = difference->Some_0;
                assert(image.indexed@.len() <= n) by (nonlinear_arith)
                    requires
                        image.indexed@.len() == image.width * image.height,
                        image.left + image.width <= w,
                        image.top + image.height <= self.height,
                        n == w * self.height,
                ;
                assert(composite(old_rendered, w, image) == after);
            }
        }
        let result = self.choose_smaller_encoding(difference);
        proof {
            assert(is_difference_table(src, previous, old_rendered, global, palette.colors@));
            if result is Some && !result->Some_0.local_palette {
                let image = difference->Some_0;
                assert(spec_encoded_frame_size(image) > fixed_frame_size(src));
            }
        }
        result
    }
}

} // verus!
