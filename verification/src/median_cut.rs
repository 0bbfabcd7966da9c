//! Median-cut palette selection over the five-bit color histogram.
use vstd::prelude::*;
use vstd::multiset::Multiset;
use crate::palette::{ColorBin, COLOR_HISTOGRAM_SIZE, bin_count, bin_sum, build_histogram, is_histogram, lemma_bin_bounds, spec_histogram_key};

verus! {

broadcast use {vstd::seq_lib::group_to_multiset_ensures, vstd::multiset::group_multiset_axioms};

/// The five-bit red (axis 0), green (axis 1) or blue (axis 2) component of a histogram key.
pub open spec fn component(key: usize, axis: usize) -> usize {
    if axis == 0 {
        (key >> 10usize) & 31usize
    } else if axis == 1 {
        (key >> 5usize) & 31usize
    } else {
        key & 31usize
    }
}

pub fn key_component(key: usize, axis: usize) -> (value: usize)
    ensures
        value == component(key, axis),
        value < 32,
{
    if axis == 0 {
        assert((key >> 10usize) & 31usize < 32usize) by (bit_vector);
        (key >> 10) & 31
    } else if axis == 1 {
        assert((key >> 5usize) & 31usize < 32usize) by (bit_vector);
        (key >> 5) & 31
    } else {
        assert(key & 31usize < 32usize) by (bit_vector);
        key & 31
    }
}

/// Keys below the histogram size are told apart by their three components.
pub proof fn lemma_components_determine_key(a: usize, b: usize)
    requires
        a < 32768,
        b < 32768,
        component(a, 0) == component(b, 0),
        component(a, 1) == component(b, 1),
        component(a, 2) == component(b, 2),
    ensures
        a == b,
{
    assert(a < 32768usize && b < 32768usize && ((a >> 10usize) & 31usize) == ((b >> 10usize) & 31usize)
        && ((a >> 5usize) & 31usize) == ((b >> 5usize) & 31usize) && (a & 31usize) == (b & 31usize)
        ==> a == b) by (bit_vector);
}

proof fn lemma_component_bound(key: usize, axis: usize)
    ensures
        component(key, axis) < 32,
{
    assert((key >> 10usize) & 31usize < 32usize) by (bit_vector);
    assert((key >> 5usize) & 31usize < 32usize) by (bit_vector);
    assert(key & 31usize < 32usize) by (bit_vector);
}

/// The smallest component along `axis` of the keys in `bins`; 31 for none.
pub open spec fn axis_min(bins: Seq<usize>, axis: usize) -> int
    decreases bins.len(),
{
    if bins.len() == 0 {
        31
    } else {
        let rest = axis_min(bins.drop_last(), axis);
        let value = component(bins.last(), axis) as int;
        if value < rest {
            value
        } else {
            rest
        }
    }
}

/// The largest component along `axis` of the keys in `bins`; 0 for none.
pub open spec fn axis_max(bins: Seq<usize>, axis: usize) -> int
    decreases bins.len(),
{
    if bins.len() == 0 {
        0
    } else {
        let rest = axis_max(bins.drop_last(), axis);
        let value = component(bins.last(), axis) as int;
        if value > rest {
            value
        } else {
            rest
        }
    }
}

/// How far the keys in `bins` spread along `axis`.
pub open spec fn axis_range(bins: Seq<usize>, axis: usize) -> int {
    axis_max(bins, axis) - axis_min(bins, axis)
}

proof fn lemma_axis_bounds(bins: Seq<usize>, axis: usize)
    ensures
        0 <= axis_min(bins, axis) <= 31,
        0 <= axis_max(bins, axis) <= 31,
        forall|j: int|
            0 <= j < bins.len() ==> axis_min(bins, axis) <= component(#[trigger] bins[j], axis) <= axis_max(
                bins,
                axis,
            ),
    decreases bins.len(),
{
    if bins.len() > 0 {
        lemma_axis_bounds(bins.drop_last(), axis);
        lemma_component_bound(bins.last(), axis);
        assert forall|j: int| 0 <= j < bins.len() implies axis_min(bins, axis) <= component(
            #[trigger] bins[j],
            axis,
        ) <= axis_max(bins, axis) by {
            if j < bins.len() - 1 {
                assert(bins[j] == bins.drop_last()[j]);
            }
        }
    }
}

/// The widest spread of `bins` over the three axes.
pub open spec fn widest_range(bins: Seq<usize>) -> int {
    let r0 = axis_range(bins, 0);
    let r1 = axis_range(bins, 1);
    let r2 = axis_range(bins, 2);
    if r2 >= r0 && r2 >= r1 {
        r2
    } else if r1 >= r0 {
        r1
    } else {
        r0
    }
}

/// The axis of the widest spread of `bins`, the last one where axes tie.
pub open spec fn widest_axis(bins: Seq<usize>) -> usize {
    let r0 = axis_range(bins, 0);
    let r1 = axis_range(bins, 1);
    let r2 = axis_range(bins, 2);
    if r2 >= r0 && r2 >= r1 {
        2
    } else if r1 >= r0 {
        1
    } else {
        0
    }
}

/// A group of histogram keys to be replaced by one palette color, with its pixel count.
pub struct ColorBox {
    pub bins: Vec<usize>,
    pub population: u64,
}

impl ColorBox {
    /// The widest spread of the keys over the three axes, and the axis it lies on (the last
    /// such axis where two tie).
    pub fn range_and_axis(&self) -> (result: (u8, usize))
        requires
            self.bins@.len() >= 1,
        ensures
            result.0 == widest_range(self.bins@),
            result.1 == widest_axis(self.bins@),
            result.1 < 3,
            result.0 == axis_range(self.bins@, result.1),
            forall|axis: usize| axis < 3 ==> axis_range(self.bins@, axis) <= result.0,
            forall|axis: usize| result.1 < axis < 3 ==> axis_range(self.bins@, axis) < result.0,
    {
        let mut minimum0: usize = 31;
        let mut minimum1: usize = 31;
        let mut minimum2: usize = 31;
        let mut maximum0: usize = 0;
        let mut maximum1: usize = 0;
        let mut maximum2: usize = 0;
        let mut i: usize = 0;
        while i < self.bins.len()
            invariant
                i <= self.bins@.len(),
                minimum0 == axis_min(self.bins@.take(i as int), 0),
                minimum1 == axis_min(self.bins@.take(i as int), 1),
                minimum2 == axis_min(self.bins@.take(i as int), 2),
                maximum0 == axis_max(self.bins@.take(i as int), 0),
                maximum1 == axis_max(self.bins@.take(i as int), 1),
                maximum2 == axis_max(self.bins@.take(i as int), 2),
            decreases self.bins@.len() - i,
        {
            let key = self.bins[i];
            let ghost before = self.bins@.take(i as int);
            assert(self.bins@.take(i + 1).drop_last() =~= before);
            let red = key_component(key, 0);
            let green = key_component(key, 1);
            let blue = key_component(key, 2);
            if red < minimum0 {
                minimum0 = red;
            }
            if green < minimum1 {
                minimum1 = green;
            }
            if blue < minimum2 {
                minimum2 = blue;
            }
            if red > maximum0 {
                maximum0 = red;
            }
            if green > maximum1 {
                maximum1 = green;
            }
            if blue > maximum2 {
                maximum2 = blue;
            }
            i += 1;
        }
        assert(self.bins@.take(self.bins@.len() as int) =~= self.bins@);
        proof {
            lemma_axis_bounds(self.bins@, 0);
            lemma_axis_bounds(self.bins@, 1);
            lemma_axis_bounds(self.bins@, 2);
            assert(axis_min(self.bins@, 0) <= component(self.bins@[0], 0) <= axis_max(self.bins@, 0));
            assert(axis_min(self.bins@, 1) <= component(self.bins@[0], 1) <= axis_max(self.bins@, 1));
            assert(axis_min(self.bins@, 2) <= component(self.bins@[0], 2) <= axis_max(self.bins@, 2));
        }
        let range0 = (maximum0 - minimum0) as u8;
        let range1 = (maximum1 - minimum1) as u8;
        let range2 = (maximum2 - minimum2) as u8;
        if range2 >= range0 && range2 >= range1 {
            (range2, 2)
        } else if range1 >= range0 {
            (range1, 1)
        } else {
            (range0, 0)
        }
    }
}

/// Two different keys of a group give it a nonzero spread on some axis.
proof fn lemma_distinct_keys_spread(bins: Seq<usize>, i: int, j: int)
    requires
        0 <= i < bins.len(),
        0 <= j < bins.len(),
        bins[i] != bins[j],
        bins[i] < 32768,
        bins[j] < 32768,
    ensures
        axis_range(bins, 0) >= 1 || axis_range(bins, 1) >= 1 || axis_range(bins, 2) >= 1,
{
    lemma_axis_bounds(bins, 0);
    lemma_axis_bounds(bins, 1);
    lemma_axis_bounds(bins, 2);
    if component(bins[i], 0) == component(bins[j], 0) && component(bins[i], 1) == component(bins[j], 1)
        && component(bins[i], 2) == component(bins[j], 2) {
        lemma_components_determine_key(bins[i], bins[j]);
    }
}

/// Orders `bins` by their component along `axis`, through `slice::sort_unstable_by_key`.
///
/// The standard library documents that the result is sorted by the key and a permutation of
/// the input; it leaves the order of equal keys open, and so does this contract.
#[verifier::external_body]
fn sort_by_component(bins: &mut Vec<usize>, axis: usize)
    ensures
        final(bins)@.to_multiset() == old(bins)@.to_multiset(),
        forall|i: int, j: int|
            0 <= i <= j < final(bins)@.len() ==> component(final(bins)@[i], axis) <= component(
                final(bins)@[j],
                axis,
            ),
{
    bins.sort_unstable_by_key(|&key| key_component(key, axis));
}

/// All keys of all groups, counted with multiplicity.
pub open spec fn groups_multiset(groups: Seq<Seq<usize>>) -> Multiset<usize>
    decreases groups.len(),
{
    if groups.len() == 0 {
        Multiset::empty()
    } else {
        groups_multiset(groups.drop_last()).add(groups.last().to_multiset())
    }
}

/// The number of keys in all groups together.
pub open spec fn groups_len(groups: Seq<Seq<usize>>) -> int
    decreases groups.len(),
{
    if groups.len() == 0 {
        0
    } else {
        groups_len(groups.drop_last()) + groups.last().len()
    }
}

proof fn lemma_groups_update(groups: Seq<Seq<usize>>, i: int, x: Seq<usize>)
    requires
        0 <= i < groups.len(),
    ensures
        groups_multiset(groups.update(i, x)).add(groups[i].to_multiset()) =~= groups_multiset(groups).add(
            x.to_multiset(),
        ),
        groups_len(groups.update(i, x)) + groups[i].len() == groups_len(groups) + x.len(),
    decreases groups.len(),
{
    let updated = groups.update(i, x);
    let rest = groups.drop_last();
    let lhs = groups_multiset(updated).add(groups[i].to_multiset());
    let rhs = groups_multiset(groups).add(x.to_multiset());
    if i == groups.len() - 1 {
        assert(updated.drop_last() =~= rest);
        assert(updated.last() == x);
        assert(groups_multiset(updated) == groups_multiset(rest).add(x.to_multiset()));
        assert(groups_multiset(groups) == groups_multiset(rest).add(groups[i].to_multiset()));
        assert forall|k: usize| lhs.count(k) == rhs.count(k) by {}
    } else {
        lemma_groups_update(rest, i, x);
        assert(updated.drop_last() =~= rest.update(i, x));
        assert(updated.last() == groups.last());
        assert(rest[i] == groups[i]);
        let inner_lhs = groups_multiset(rest.update(i, x)).add(groups[i].to_multiset());
        let inner_rhs = groups_multiset(rest).add(x.to_multiset());
        assert(inner_lhs =~= inner_rhs);
        assert(groups_multiset(updated) == groups_multiset(rest.update(i, x)).add(groups.last().to_multiset()));
        assert(groups_multiset(groups) == groups_multiset(rest).add(groups.last().to_multiset()));
        assert forall|k: usize| lhs.count(k) == rhs.count(k) by {
            assert(inner_lhs.count(k) == inner_rhs.count(k));
        }
    }
    assert(lhs =~= rhs);
}

proof fn lemma_groups_swap_remove(groups: Seq<Seq<usize>>, i: int)
    requires
        0 <= i < groups.len(),
    ensures
        groups_multiset(groups) =~= groups_multiset(groups.update(i, groups.last()).drop_last()).add(
            groups[i].to_multiset(),
        ),
        groups_len(groups) == groups_len(groups.update(i, groups.last()).drop_last()) + groups[i].len(),
{
    if i == groups.len() - 1 {
        assert(groups.update(i, groups.last()) =~= groups);
    } else {
        let rest = groups.drop_last();
        lemma_groups_update(rest, i, groups.last());
        assert(groups.update(i, groups.last()).drop_last() =~= rest.update(i, groups.last()));
    }
}

proof fn lemma_group_within(groups: Seq<Seq<usize>>, i: int, key: usize)
    requires
        0 <= i < groups.len(),
    ensures
        groups[i].to_multiset().count(key) <= groups_multiset(groups).count(key),
        groups[i].len() <= groups_len(groups),
    decreases groups.len(),
{
    if i < groups.len() - 1 {
        lemma_group_within(groups.drop_last(), i, key);
        assert(groups.drop_last()[i] == groups[i]);
    }
    lemma_groups_len_nonnegative(groups.drop_last());
}

proof fn lemma_groups_len_nonnegative(groups: Seq<Seq<usize>>)
    ensures
        groups_len(groups) >= 0,
        groups_multiset(groups).len() == groups_len(groups),
    decreases groups.len(),
{
    if groups.len() > 0 {
        lemma_groups_len_nonnegative(groups.drop_last());
    }
}

/// Groups of one key each hold as many keys as there are groups.
proof fn lemma_singleton_groups_len(groups: Seq<Seq<usize>>)
    requires
        forall|i: int| 0 <= i < groups.len() ==> (#[trigger] groups[i]).len() == 1,
    ensures
        groups_len(groups) == groups.len(),
    decreases groups.len(),
{
    if groups.len() > 0 {
        assert forall|i: int| 0 <= i < groups.len() - 1 implies (#[trigger] groups.drop_last()[i]).len() == 1 by {
            assert(groups.drop_last()[i] == groups[i]);
        }
        lemma_singleton_groups_len(groups.drop_last());
    }
}

/// Groups of at least one key each hold at least as many keys as there are groups.
proof fn lemma_nonempty_groups_len(groups: Seq<Seq<usize>>)
    requires
        forall|i: int| 0 <= i < groups.len() ==> (#[trigger] groups[i]).len() >= 1,
    ensures
        groups_len(groups) >= groups.len(),
    decreases groups.len(),
{
    if groups.len() > 0 {
        assert forall|i: int| 0 <= i < groups.len() - 1 implies (#[trigger] groups.drop_last()[i]).len() >= 1 by {
            assert(groups.drop_last()[i] == groups[i]);
        }
        lemma_nonempty_groups_len(groups.drop_last());
    }
}

/// The pixel count of the keys in `bins`, read from a histogram.
pub open spec fn bins_population(histogram: Seq<ColorBin>, bins: Seq<usize>) -> int
    decreases bins.len(),
{
    if bins.len() == 0 {
        0
    } else {
        bins_population(histogram, bins.drop_last()) + histogram[bins.last() as int].count
    }
}

pub open spec fn add_count(histogram: Seq<ColorBin>) -> spec_fn(int, usize) -> int {
    |total: int, key: usize| total + histogram[key as int].count
}

proof fn lemma_population_fold(histogram: Seq<ColorBin>, bins: Seq<usize>)
    ensures
        bins_population(histogram, bins) == bins.fold_left(0int, add_count(histogram)),
    decreases bins.len(),
{
    if bins.len() > 0 {
        lemma_population_fold(histogram, bins.drop_last());
    }
}

proof fn lemma_population_permutation(histogram: Seq<ColorBin>, a: Seq<usize>, b: Seq<usize>)
    requires
        a.to_multiset() == b.to_multiset(),
    ensures
        bins_population(histogram, a) == bins_population(histogram, b),
{
    let f = add_count(histogram);
    assert(vstd::seq_lib::commutative_foldl(f)) by {
        assert forall|x: usize, y: usize, v: int| #[trigger] f(f(v, x), y) == f(f(v, y), x) by {}
    }
    vstd::seq_lib::lemma_fold_left_permutation(a, b, f, 0int);
    lemma_population_fold(histogram, a);
    lemma_population_fold(histogram, b);
}

proof fn lemma_population_split(histogram: Seq<ColorBin>, bins: Seq<usize>, k: int)
    requires
        0 <= k <= bins.len(),
    ensures
        bins_population(histogram, bins) == bins_population(histogram, bins.take(k)) + bins_population(
            histogram,
            bins.skip(k),
        ),
    decreases bins.len(),
{
    if k == bins.len() {
        assert(bins.take(k) =~= bins);
        assert(bins.skip(k) =~= Seq::<usize>::empty());
    } else {
        let rest = bins.drop_last();
        lemma_population_split(histogram, rest, k);
        assert(rest.take(k) =~= bins.take(k));
        assert(bins.skip(k).drop_last() =~= rest.skip(k));
    }
}

proof fn lemma_population_bound(histogram: Seq<ColorBin>, bins: Seq<usize>, bound: int)
    requires
        forall|j: int| 0 <= j < bins.len() ==> histogram[#[trigger] bins[j] as int].count <= bound,
    ensures
        0 <= bins_population(histogram, bins) <= bins.len() * bound,
    decreases bins.len(),
{
    if bins.len() > 0 {
        assert forall|j: int| 0 <= j < bins.len() - 1 implies histogram[#[trigger] bins.drop_last()[j] as int].count <= bound by {
            assert(bins.drop_last()[j] == bins[j]);
        }
        lemma_population_bound(histogram, bins.drop_last(), bound);
        assert(histogram[bins[bins.len() - 1] as int].count <= bound);
        assert((bins.len() - 1) * bound + bound == bins.len() * bound) by (nonlinear_arith);
    }
}

/// The pixel count of the bins below `n`.
pub open spec fn keys_count(pixels: Seq<[u8; 3]>, n: nat) -> int
    decreases n,
{
    if n == 0 {
        0
    } else {
        keys_count(pixels, (n - 1) as nat) + bin_count(pixels, n - 1)
    }
}

/// The number of occupied bins below `n`.
pub open spec fn occupied_count(pixels: Seq<[u8; 3]>, n: nat) -> int
    decreases n,
{
    if n == 0 {
        0
    } else {
        occupied_count(pixels, (n - 1) as nat) + if bin_count(pixels, n - 1) > 0 {
            1int
        } else {
            0int
        }
    }
}

proof fn lemma_keys_count_push(pixels: Seq<[u8; 3]>, color: [u8; 3], n: nat)
    ensures
        keys_count(pixels.push(color), n) == keys_count(pixels, n) + if spec_histogram_key(color) < n {
            1int
        } else {
            0int
        },
    decreases n,
{
    if n > 0 {
        lemma_keys_count_push(pixels, color, (n - 1) as nat);
        assert(pixels.push(color).drop_last() =~= pixels);
    }
}

proof fn lemma_keys_count_total(pixels: Seq<[u8; 3]>)
    ensures
        keys_count(pixels, 32768) == pixels.len(),
    decreases pixels.len(),
{
    if pixels.len() == 0 {
        lemma_keys_count_empty(pixels, 32768);
    } else {
        let rest = pixels.drop_last();
        lemma_keys_count_total(rest);
        lemma_keys_count_push(rest, pixels.last(), 32768);
        assert(rest.push(pixels.last()) =~= pixels);
        assert(spec_histogram_key(pixels.last()) < 32768);
    }
}

proof fn lemma_keys_count_empty(pixels: Seq<[u8; 3]>, n: nat)
    requires
        pixels.len() == 0,
    ensures
        keys_count(pixels, n) == 0,
    decreases n,
{
    if n > 0 {
        lemma_keys_count_empty(pixels, (n - 1) as nat);
    }
}

proof fn lemma_occupied_count_bound(pixels: Seq<[u8; 3]>, n: nat)
    ensures
        0 <= occupied_count(pixels, n) <= n,
    decreases n,
{
    if n > 0 {
        lemma_occupied_count_bound(pixels, (n - 1) as nat);
    }
}

/// Whether `key` is an occupied bin of `pixels`.
pub open spec fn is_occupied(pixels: Seq<[u8; 3]>, key: usize) -> bool {
    key < 32768 && bin_count(pixels, key as int) > 0
}

/// The keys of each group are occupied bins, none twice.
proof fn lemma_group_keys(groups: Seq<Seq<usize>>, i: int, pixels: Seq<[u8; 3]>)
    requires
        0 <= i < groups.len(),
        forall|key: usize| #[trigger] groups_multiset(groups).count(key) == if is_occupied(pixels, key) {
            1nat
        } else {
            0nat
        },
    ensures
        forall|j: int| 0 <= j < groups[i].len() ==> is_occupied(pixels, #[trigger] groups[i][j]),
        groups[i].no_duplicates(),
{
    let group = groups[i];
    assert forall|j: int| 0 <= j < group.len() implies is_occupied(pixels, #[trigger] group[j]) by {
        lemma_group_within(groups, i, group[j]);
        assert(group.contains(group[j]));
    }
    assert forall|key: usize| group.to_multiset().contains(key) implies group.to_multiset().count(key) == 1 by {
        lemma_group_within(groups, i, key);
    }
    group.lemma_multiset_has_no_duplicates_conv();
}

proof fn lemma_permutation_occupied(a: Seq<usize>, b: Seq<usize>, pixels: Seq<[u8; 3]>)
    requires
        a.to_multiset() == b.to_multiset(),
        forall|j: int| 0 <= j < a.len() ==> is_occupied(pixels, #[trigger] a[j]),
    ensures
        forall|j: int| 0 <= j < b.len() ==> is_occupied(pixels, #[trigger] b[j]),
{
    assert forall|j: int| 0 <= j < b.len() implies is_occupied(pixels, #[trigger] b[j]) by {
        assert(b.contains(b[j]));
        assert(a.to_multiset().count(b[j]) > 0);
        assert(a.contains(b[j]));
        let k = choose|k: int| 0 <= k < a.len() && a[k] == b[j];
        assert(is_occupied(pixels, a[k]));
    }
}

/// The pixel count of the bins in a group.
pub open spec fn group_count(pixels: Seq<[u8; 3]>, group: Seq<usize>) -> int
    decreases group.len(),
{
    if group.len() == 0 {
        0
    } else {
        group_count(pixels, group.drop_last()) + bin_count(pixels, group.last() as int)
    }
}

/// The sum of one channel over the pixels in a group of bins.
pub open spec fn group_sum(pixels: Seq<[u8; 3]>, group: Seq<usize>, channel: int) -> int
    decreases group.len(),
{
    if group.len() == 0 {
        0
    } else {
        group_sum(pixels, group.drop_last(), channel) + bin_sum(pixels, group.last() as int, channel)
    }
}

/// The average color of the pixels in a group of bins.
pub open spec fn group_average(pixels: Seq<[u8; 3]>, group: Seq<usize>) -> [u8; 3] {
    let count = group_count(pixels, group);
    [
        (group_sum(pixels, group, 0) / count) as u8,
        (group_sum(pixels, group, 1) / count) as u8,
        (group_sum(pixels, group, 2) / count) as u8,
    ]
}

/// Whether `groups` split the occupied bins of `pixels` into nonempty groups, each occupied
/// bin in exactly one group.
pub open spec fn is_bin_partition(groups: Seq<Seq<usize>>, pixels: Seq<[u8; 3]>) -> bool {
    &&& forall|i: int| 0 <= i < groups.len() ==> (#[trigger] groups[i]).len() >= 1
    &&& forall|key: usize| #[trigger] groups_multiset(groups).count(key) == if is_occupied(pixels, key) {
        1nat
    } else {
        0nat
    }
}

/// How many colors the median cut yields: one for a limit below two, else the limit or the
/// number of occupied bins, whichever is smaller.
pub open spec fn palette_size(pixels: Seq<[u8; 3]>, maximum_colors: usize) -> int {
    let occupied = occupied_count(pixels, 32768);
    if maximum_colors <= 1 {
        1
    } else if maximum_colors < occupied {
        maximum_colors as int
    } else {
        occupied
    }
}

/// The score by which median cut picks the next box to split: its pixel count times its
/// widest spread, for a box of more than one bin with some spread; -1 for any other box.
pub open spec fn box_score(pixels: Seq<[u8; 3]>, bins: Seq<usize>) -> int {
    if bins.len() > 1 && widest_range(bins) != 0 {
        group_count(pixels, bins) * widest_range(bins)
    } else {
        -1
    }
}

/// Whether box `s` is the one median cut splits next: the last of the highest score, which
/// is not -1.
pub open spec fn is_selected(pixels: Seq<[u8; 3]>, groups: Seq<Seq<usize>>, s: int) -> bool {
    &&& 0 <= s < groups.len()
    &&& box_score(pixels, groups[s]) >= 0
    &&& forall|b: int| 0 <= b < groups.len() ==> box_score(pixels, #[trigger] groups[b]) <= box_score(pixels, groups[s])
    &&& forall|b: int| s < b < groups.len() ==> box_score(pixels, #[trigger] groups[b]) < box_score(pixels, groups[s])
}

/// Whether the keys are in order of their component along `axis`.
pub open spec fn sorted_along(bins: Seq<usize>, axis: usize) -> bool {
    forall|i: int, j: int| 0 <= i <= j < bins.len() ==> component(#[trigger] bins[i], axis) <= component(#[trigger] bins[j], axis)
}

/// The pixel count of the first `n` keys.
pub open spec fn prefix_count(pixels: Seq<[u8; 3]>, bins: Seq<usize>, n: int) -> int {
    group_count(pixels, bins.take(n))
}

/// Whether `split` is where median cut divides `sorted`: after the first `n` keys, for the
/// least `n` whose pixels make at least half of the total, though at most before the last key;
/// after the first key when no such `n` exists.
pub open spec fn is_median_split(pixels: Seq<[u8; 3]>, sorted: Seq<usize>, split: int) -> bool {
    let total = group_count(pixels, sorted);
    ||| exists|n: int| {
        &&& 1 <= n <= sorted.len()
        &&& 2 * #[trigger] prefix_count(pixels, sorted, n) >= total
        &&& forall|m: int| 1 <= m < n ==> 2 * #[trigger] prefix_count(pixels, sorted, m) < total
        &&& split == if n < sorted.len() - 1 {
            n
        } else {
            sorted.len() - 1
        }
    }
    ||| {
        &&& forall|m: int| 1 <= m <= sorted.len() ==> 2 * #[trigger] prefix_count(pixels, sorted, m) < total
        &&& split == 1
    }
}

/// One median-cut step from `before` to `after`: box `s` is selected, its keys are ordered
/// along its widest axis as `sorted` and divided at `split`, and the two halves replace it
/// (the last box takes its place, the halves go last).
pub open spec fn is_split(
    pixels: Seq<[u8; 3]>,
    before: Seq<Seq<usize>>,
    after: Seq<Seq<usize>>,
    s: int,
    sorted: Seq<usize>,
    split: int,
) -> bool {
    &&& is_selected(pixels, before, s)
    &&& sorted.to_multiset() == before[s].to_multiset()
    &&& sorted_along(sorted, widest_axis(before[s]))
    &&& is_median_split(pixels, sorted, split)
    &&& after == before.update(s, before.last()).drop_last().push(sorted.take(split)).push(sorted.skip(split))
}

pub open spec fn is_split_step(pixels: Seq<[u8; 3]>, before: Seq<Seq<usize>>, after: Seq<Seq<usize>>) -> bool {
    exists|s: int, sorted: Seq<usize>, split: int| #[trigger] is_split(pixels, before, after, s, sorted, split)
}

/// Whether `trace` is a run of median cut over the occupied bins of `pixels`: one box holding
/// them all, then one split after another, until there are `maximum_colors` boxes or no box can
/// be split.
pub open spec fn is_median_cut(pixels: Seq<[u8; 3]>, maximum_colors: usize, trace: Seq<Seq<Seq<usize>>>) -> bool {
    &&& trace.len() >= 1
    &&& trace[0].len() == 1
    &&& is_bin_partition(trace[0], pixels)
    &&& forall|i: int| 0 <= i < trace.len() - 1 ==> is_split_step(pixels, #[trigger] trace[i], trace[i + 1])
    &&& trace.last().len() >= maximum_colors || forall|b: int|
        0 <= b < trace.last().len() ==> box_score(pixels, #[trigger] trace.last()[b]) < 0
}

/// A histogram reads the pixel count of any keys below its size.
proof fn lemma_population_is_count(histogram: Seq<ColorBin>, pixels: Seq<[u8; 3]>, bins: Seq<usize>)
    requires
        is_histogram(histogram, pixels),
        forall|j: int| 0 <= j < bins.len() ==> (#[trigger] bins[j]) < COLOR_HISTOGRAM_SIZE,
    ensures
        bins_population(histogram, bins) == group_count(pixels, bins),
    decreases bins.len(),
{
    if bins.len() > 0 {
        assert forall|j: int| 0 <= j < bins.drop_last().len() implies (#[trigger] bins.drop_last()[j])
            < COLOR_HISTOGRAM_SIZE by {
            assert(bins.drop_last()[j] == bins[j]);
        }
        lemma_population_is_count(histogram, pixels, bins.drop_last());
        assert(bins.last() == bins[bins.len() - 1]);
    }
}

/// The key lists of a list of boxes.
pub open spec fn box_groups(boxes: Seq<ColorBox>) -> Seq<Seq<usize>> {
    boxes.map_values(|color_box: ColorBox| color_box.bins@)
}

/// The keys of the occupied bins in increasing order, read from the histogram of `pixels`.
fn occupied_bins(histogram: &Vec<ColorBin>, Ghost(pixels): Ghost<Seq<[u8; 3]>>) -> (occupied: Vec<usize>)
    requires
        is_histogram(histogram@, pixels),
    ensures
        bins_population(histogram@, occupied@) == keys_count(pixels, 32768),
        occupied@.len() == occupied_count(pixels, 32768),
        forall|key: usize| #[trigger] occupied@.to_multiset().count(key) == if is_occupied(pixels, key) {
            1nat
        } else {
            0nat
        },
{
    let mut occupied: Vec<usize> = Vec::new();
    let mut key: usize = 0;
    while key < COLOR_HISTOGRAM_SIZE
        invariant
            key <= COLOR_HISTOGRAM_SIZE,
            is_histogram(histogram@, pixels),
            bins_population(histogram@, occupied@) == keys_count(pixels, key as nat),
            occupied@.len() == occupied_count(pixels, key as nat),
            forall|k: usize| #[trigger] occupied@.to_multiset().count(k) == if k < key && bin_count(
                pixels,
                k as int,
            ) > 0 {
                1nat
            } else {
                0nat
            },
        decreases COLOR_HISTOGRAM_SIZE - key,
    {
        let ghost before = occupied@;
        assert(histogram@[key as int].count == bin_count(pixels, key as int));
        if histogram[key].count != 0 {
            occupied.push(key);
            assert(occupied@.drop_last() =~= before);
        }
        key += 1;
    }
    occupied
}

/// Whether `palette` is what median cut chooses for `pixels` with at most `maximum_colors`
/// colors: black alone for no pixels; otherwise the averages of the boxes that a run of median
/// cut ends with (which box gets which keys of equal component is left open).
pub open spec fn is_median_cut_palette(pixels: Seq<[u8; 3]>, maximum_colors: usize, palette: Seq<[u8; 3]>) -> bool {
    &&& 1 <= palette.len() <= if maximum_colors <= 1 {
        1
    } else {
        maximum_colors as int
    }
    &&& pixels.len() == 0 ==> palette == seq![[0u8, 0u8, 0u8]]
    &&& pixels.len() > 0 ==> {
        &&& palette.len() == palette_size(pixels, maximum_colors)
        &&& exists|trace: Seq<Seq<Seq<usize>>>|
            {
                &&& #[trigger] is_median_cut(pixels, maximum_colors, trace)
                &&& is_bin_partition(trace.last(), pixels)
                &&& trace.last().len() == palette.len()
                &&& forall|i: int|
                    0 <= i < palette.len() ==> palette[i] == #[trigger] group_average(pixels, trace.last()[i])
            }
    }
}

/// Chooses up to `maximum_colors` colors for `pixels` by median cut over the five-bit
/// histogram: the box with the largest population times spread is split at its population
/// median along its widest axis, until the limit is reached or every box holds one bin; each
/// color is the average of its box.
#[verifier::rlimit(40)]
pub fn adaptive_palette(pixels: &[[u8; 3]], maximum_colors: usize) -> (palette: Vec<[u8; 3]>)
    requires
        pixels@.len() <= u32::MAX,
    ensures
        is_median_cut_palette(pixels@, maximum_colors, palette@),
{
    let histogram = build_histogram(pixels);
    let ghost px = pixels@;
    assert forall|key: int| 0 <= key < COLOR_HISTOGRAM_SIZE implies (#[trigger] histogram@[key]).count
        <= 0xffff_ffff && histogram@[key].red <= 255 * histogram@[key].count && histogram@[key].green <= 255
        * histogram@[key].count && histogram@[key].blue <= 255 * histogram@[key].count by {
        lemma_bin_bounds(px, key, 0);
        lemma_bin_bounds(px, key, 1);
        lemma_bin_bounds(px, key, 2);
    }
    let occupied = occupied_bins(&histogram, Ghost(px));
    let ghost occ = occupied@;
    proof {
        lemma_keys_count_total(px);
        lemma_occupied_count_bound(px, 32768);
    }
    if occupied.len() == 0 {
        proof {
            assert(occ =~= Seq::<usize>::empty());
        }
        let mut palette: Vec<[u8; 3]> = Vec::new();
        palette.push([0, 0, 0]);
        assert(palette@ =~= seq![[0u8, 0u8, 0u8]]);
        return palette;
    }
    proof {
        if px.len() == 0 {
            assert forall|k: usize| occ.to_multiset().count(k) == 0 by {
                assert(bin_count(px, k as int) == 0);
            }
            assert(occ.to_multiset() =~= Multiset::<usize>::empty());
            assert(occ.to_multiset().len() == occ.len());
            assert(false);
        }
    }
    let mut boxes: Vec<ColorBox> = Vec::new();
    boxes.push(ColorBox { bins: occupied, population: pixels.len() as u64 });
    proof {
        assert(box_groups(boxes@) =~= seq![occ]);
        assert(seq![occ].drop_last() =~= Seq::<Seq<usize>>::empty());
        assert(seq![occ].last() == occ);
        assert(groups_multiset(Seq::<Seq<usize>>::empty()) =~= Multiset::<usize>::empty());
        assert(groups_len(Seq::<Seq<usize>>::empty()) == 0);
        assert(groups_multiset(seq![occ]) == Multiset::<usize>::empty().add(occ.to_multiset()));
        assert(groups_multiset(seq![occ]) =~= occ.to_multiset());
        assert(groups_len(seq![occ]) == occ.len());
    }
    let ghost mut trace: Seq<Seq<Seq<usize>>> = seq![seq![occ]];
    proof {
        assert(occ.len() >= 1);
        assert(is_bin_partition(seq![occ], px)) by {
            assert forall|key: usize| #[trigger] groups_multiset(seq![occ]).count(key) == if is_occupied(px, key) {
                1nat
            } else {
                0nat
            } by {}
        }
    }
    let ghost limit: int = if maximum_colors <= 1 {
        1
    } else {
        maximum_colors as int
    };
    let mut done = false;
    while !done && boxes.len() < maximum_colors
        invariant
            is_histogram(histogram@, px),
            px == pixels@,
            forall|key: int|
                0 <= key < COLOR_HISTOGRAM_SIZE ==> (#[trigger] histogram@[key]).count <= 0xffff_ffff,
            occ.len() == occupied_count(px, 32768),
            occ.len() <= 32768,
            forall|key: usize| #[trigger] occ.to_multiset().count(key) == if is_occupied(px, key) {
                1nat
            } else {
                0nat
            },
            1 <= boxes@.len() <= limit,
            limit == (if maximum_colors <= 1 { 1 } else { maximum_colors as int }),
            groups_multiset(box_groups(boxes@)) == occ.to_multiset(),
            groups_len(box_groups(boxes@)) == occ.len(),
            forall|b: int|
                0 <= b < boxes@.len() ==> {
                    &&& (#[trigger] boxes@[b]).bins@.len() >= 1
                    &&& boxes@[b].population == bins_population(histogram@, boxes@[b].bins@)
                },
            done ==> boxes@.len() < maximum_colors,
            done ==> forall|b: int| 0 <= b < boxes@.len() ==> (#[trigger] boxes@[b]).bins@.len() == 1,
            done ==> forall|b: int| 0 <= b < boxes@.len() ==> box_score(px, #[trigger] box_groups(boxes@)[b]) < 0,
            trace.len() >= 1,
            trace[0] == seq![occ],
            is_bin_partition(seq![occ], px),
            trace.last() == box_groups(boxes@),
            forall|t: int| 0 <= t < trace.len() - 1 ==> is_split_step(px, #[trigger] trace[t], trace[t + 1]),
        decreases maximum_colors - boxes@.len(), if done {
            0int
        } else {
            1int
        },
    {
        let ghost groups = box_groups(boxes@);
        let mut selected: usize = 0;
        let mut found = false;
        let mut best: u64 = 0;
        let mut i: usize = 0;
        while i < boxes.len()
            invariant
                i <= boxes@.len(),
                groups == box_groups(boxes@),
                forall|key: usize| #[trigger] groups_multiset(groups).count(key) == if is_occupied(px, key) {
                    1nat
                } else {
                    0nat
                },
                groups_len(groups) == occ.len(),
                occ.len() <= 32768,
                forall|key: int|
                    0 <= key < COLOR_HISTOGRAM_SIZE ==> (#[trigger] histogram@[key]).count <= 0xffff_ffff,
                forall|b: int|
                    0 <= b < boxes@.len() ==> {
                        &&& (#[trigger] boxes@[b]).bins@.len() >= 1
                        &&& boxes@[b].population == bins_population(histogram@, boxes@[b].bins@)
                    },
                found ==> selected < i && boxes@[selected as int].bins@.len() > 1,
                !found ==> forall|b: int| 0 <= b < i ==> (#[trigger] boxes@[b]).bins@.len() <= 1,
                is_histogram(histogram@, px),
                found ==> {
                    &&& box_score(px, groups[selected as int]) >= 0
                    &&& best == box_score(px, groups[selected as int])
                    &&& forall|b: int| 0 <= b < i ==> box_score(px, #[trigger] groups[b]) <= best
                    &&& forall|b: int| selected < b < i ==> box_score(px, #[trigger] groups[b]) < best
                },
                !found ==> forall|b: int| 0 <= b < i ==> box_score(px, #[trigger] groups[b]) < 0,
            decreases boxes@.len() - i,
        {
            let ghost bins = boxes@[i as int].bins@;
            proof {
                assert(groups[i as int] == bins);
                lemma_group_keys(groups, i as int, px);
                lemma_group_within(groups, i as int, 0);
                assert forall|j: int| 0 <= j < bins.len() implies histogram@[#[trigger] bins[j] as int].count
                    <= 0xffff_ffff by {
                    assert(is_occupied(px, bins[j]));
                }
                lemma_population_bound(histogram@, bins, 0xffff_ffff);
                assert(bins.len() * 0xffff_ffff <= 32768 * 0xffff_ffff) by (nonlinear_arith)
                    requires
                        bins.len() <= 32768,
                ;
                assert(boxes@[i as int].population <= 32768 * 0xffff_ffff);
                if bins.len() > 1 {
                    lemma_distinct_keys_spread(bins, 0, 1);
                }
            }
            let (range, range_axis) = boxes[i].range_and_axis();
            proof {
                lemma_axis_bounds(bins, range_axis);
                assert(boxes@[i as int].population * range <= 32768 * 0xffff_ffff * 31) by (nonlinear_arith)
                    requires
                        boxes@[i as int].population <= 32768 * 0xffff_ffff,
                        range <= 31,
                ;
            }
            proof {
                assert forall|j: int| 0 <= j < bins.len() implies (#[trigger] bins[j]) < COLOR_HISTOGRAM_SIZE by {
                    assert(is_occupied(px, bins[j]));
                }
                lemma_population_is_count(histogram@, px, bins);
                assert(boxes@[i as int].population == group_count(px, bins));
                if bins.len() > 1 && range != 0 {
                    assert(box_score(px, groups[i as int]) == boxes@[i as int].population * range);
                } else {
                    assert(box_score(px, groups[i as int]) == -1);
                }
            }
            if boxes[i].bins.len() > 1 && range != 0 {
                let score: u64 = boxes[i].population * range as u64;
                if !found || score >= best {
                    selected = i;
                    best = score;
                    found = true;
                }
            }
            i += 1;
        }
        if !found {
            done = true;
            proof {
                assert forall|b: int| 0 <= b < boxes@.len() implies box_score(px, #[trigger] box_groups(boxes@)[b]) < 0 by {
                    assert(box_groups(boxes@)[b] == groups[b]);
                }
            }
        } else {
            let ghost old_boxes = boxes@;
            let ghost old_groups = box_groups(old_boxes);
            proof {
                lemma_group_keys(old_groups, selected as int, px);
                assert(old_groups[selected as int] == old_boxes[selected as int].bins@);
            }
            let color_box = boxes.swap_remove(selected);
            let (_, axis) = color_box.range_and_axis();
            let population = color_box.population;
            let mut bins = color_box.bins;
            let ghost original = bins@;
            proof {
                lemma_groups_swap_remove(old_groups, selected as int);
                assert(box_groups(boxes@) =~= old_groups.update(selected as int, old_groups.last()).drop_last());
            }
            sort_by_component(&mut bins, axis);
            let ghost sorted = bins@;
            proof {
                lemma_permutation_occupied(original, sorted, px);
                lemma_population_permutation(histogram@, original, sorted);
                assert(sorted.len() == original.len()) by {
                    assert(sorted.to_multiset().len() == original.to_multiset().len());
                }
            }
            let ghost total = group_count(px, sorted);
            proof {
                assert forall|j: int| 0 <= j < sorted.len() implies (#[trigger] sorted[j]) < COLOR_HISTOGRAM_SIZE by {
                    assert(is_occupied(px, sorted[j]));
                }
                lemma_population_is_count(histogram@, px, sorted);
            }
            let target: u64 = population / 2 + population % 2;
            let length = bins.len();
            let mut accumulated: u64 = 0;
            let mut split: usize = 1;
            let mut position: usize = 0;
            let mut reached = false;
            let ghost mut first_n: int = 0;
            while position < length && !reached
                invariant
                    total == population,
                    target == population / 2 + population % 2,
                    !reached ==> split == 1,
                    !reached ==> forall|m: int| 1 <= m <= position ==> 2 * #[trigger] prefix_count(px, sorted, m) < total,
                    reached ==> {
                        &&& 1 <= first_n <= position
                        &&& 2 * prefix_count(px, sorted, first_n) >= total
                        &&& forall|m: int| 1 <= m < first_n ==> 2 * #[trigger] prefix_count(px, sorted, m) < total
                        &&& split == if first_n < length - 1 {
                            first_n
                        } else {
                            length - 1
                        }
                    },
                    length == sorted.len(),
                    bins@ == sorted,
                    length >= 2,
                    position <= length,
                    1 <= split <= length - 1,
                    accumulated == bins_population(histogram@, sorted.take(position as int)),
                    population == bins_population(histogram@, sorted),
                    is_histogram(histogram@, px),
                    forall|key: int|
                        0 <= key < COLOR_HISTOGRAM_SIZE ==> (#[trigger] histogram@[key]).count <= 0xffff_ffff,
                    forall|j: int| 0 <= j < sorted.len() ==> is_occupied(px, #[trigger] sorted[j]),
                decreases length - position, if reached {
                    0int
                } else {
                    1int
                },
            {
                proof {
                    lemma_population_split(histogram@, sorted, position + 1);
                    assert(sorted.take(position + 1).drop_last() =~= sorted.take(position as int));
                    assert forall|j: int| 0 <= j < sorted.skip(position + 1).len() implies histogram@[
                        #[trigger] sorted.skip(position + 1)[j] as int].count <= 0xffff_ffff by {
                        assert(sorted.skip(position + 1)[j] == sorted[position + 1 + j]);
                        assert(is_occupied(px, sorted[position + 1 + j]));
                    }
                    lemma_population_bound(histogram@, sorted.skip(position + 1), 0xffff_ffff);
                    assert(is_occupied(px, sorted[position as int]));
                }
                accumulated = accumulated + histogram[bins[position]].count;
                proof {
                    let prefix = sorted.take(position + 1);
                    assert forall|j: int| 0 <= j < prefix.len() implies (#[trigger] prefix[j]) < COLOR_HISTOGRAM_SIZE by {
                        assert(prefix[j] == sorted[j]);
                        assert(is_occupied(px, sorted[j]));
                    }
                    lemma_population_is_count(histogram@, px, prefix);
                    assert(accumulated == prefix_count(px, sorted, position + 1));
                }
                if accumulated >= target {
                    split = if position + 1 < length - 1 {
                        position + 1
                    } else {
                        length - 1
                    };
                    reached = true;
                    proof {
                        first_n = position + 1;
                    }
                }
                position += 1;
            }
            proof {
                if reached {
                    assert(2 * prefix_count(px, sorted, first_n) >= total);
                } else {
                    assert(position == length);
                }
                assert(is_median_split(px, sorted, split as int));
            }
            let right_bins = bins.split_off(split);
            let ghost left = bins@;
            let ghost right = right_bins@;
            proof {
                assert(left =~= sorted.take(split as int));
                assert(right =~= sorted.skip(split as int));
                lemma_population_split(histogram@, sorted, split as int);
                assert(sorted =~= left + right);
                vstd::seq_lib::lemma_multiset_commutative(left, right);
                assert forall|k: int| 0 <= k < left.len() implies is_occupied(px, #[trigger] left[k]) by {
                    assert(left[k] == sorted[k]);
                }
                assert forall|k: int| 0 <= k < right.len() implies histogram@[#[trigger] right[k] as int].count
                    <= 0xffff_ffff by {
                    assert(right[k] == sorted[split + k]);
                    assert(is_occupied(px, sorted[split + k]));
                }
                lemma_population_bound(histogram@, right, 0xffff_ffff);
            }
            let mut left_population: u64 = 0;
            let mut j: usize = 0;
            while j < bins.len()
                invariant
                    bins@ == left,
                    j <= left.len(),
                    left_population == bins_population(histogram@, left.take(j as int)),
                    population == bins_population(histogram@, left) + bins_population(histogram@, right),
                    bins_population(histogram@, right) >= 0,
                    is_histogram(histogram@, px),
                    forall|key: int|
                        0 <= key < COLOR_HISTOGRAM_SIZE ==> (#[trigger] histogram@[key]).count <= 0xffff_ffff,
                    forall|k: int| 0 <= k < left.len() ==> is_occupied(px, #[trigger] left[k]),
                decreases left.len() - j,
            {
                proof {
                    lemma_population_split(histogram@, left, j + 1);
                    assert(left.take(j + 1).drop_last() =~= left.take(j as int));
                    assert forall|k: int| 0 <= k < left.skip(j + 1).len() implies histogram@[
                        #[trigger] left.skip(j + 1)[k] as int].count <= 0xffff_ffff by {
                        assert(left.skip(j + 1)[k] == left[j + 1 + k]);
                        assert(is_occupied(px, left[j + 1 + k]));
                    }
                    lemma_population_bound(histogram@, left.skip(j + 1), 0xffff_ffff);
                    assert(is_occupied(px, left[j as int]));
                }
                left_population = left_population + histogram[bins[j]].count;
                j += 1;
            }
            proof {
                assert(left.take(left.len() as int) =~= left);
            }
            let right_population = population - left_population;
            let ghost removed = boxes@;
            boxes.push(ColorBox { bins, population: left_population });
            boxes.push(ColorBox { bins: right_bins, population: right_population });
            proof {
                let new_groups = box_groups(boxes@);
                assert(new_groups =~= box_groups(removed).push(left).push(right));
                assert(new_groups.drop_last() =~= box_groups(removed).push(left));
                assert(new_groups.drop_last().drop_last() =~= box_groups(removed));
                let removed_groups = box_groups(removed);
                let with_left = removed_groups.push(left);
                assert(new_groups.last() == right);
                assert(new_groups.drop_last() == with_left);
                assert(with_left.last() == left);
                assert(with_left.drop_last() =~= removed_groups);
                assert(groups_multiset(with_left) == groups_multiset(removed_groups).add(left.to_multiset()));
                assert(groups_len(with_left) == groups_len(removed_groups) + left.len());
                assert(removed_groups =~= old_groups.update(selected as int, old_groups.last()).drop_last());
                assert(groups_multiset(old_groups) == groups_multiset(removed_groups).add(original.to_multiset()));
                assert(groups_multiset(new_groups) == groups_multiset(removed_groups).add(left.to_multiset()).add(
                    right.to_multiset(),
                ));
                assert(original.to_multiset() == sorted.to_multiset());
                assert(sorted.to_multiset() =~= left.to_multiset().add(right.to_multiset()));
                assert forall|key: usize| groups_multiset(new_groups).count(key) == occ.to_multiset().count(key) by {
                    assert(groups_multiset(old_groups).count(key) == occ.to_multiset().count(key));
                }
                assert(groups_multiset(new_groups) =~= occ.to_multiset());
                assert(groups_len(new_groups) == groups_len(removed_groups) + left.len() + right.len());
                assert forall|b: int| 0 <= b < boxes@.len() implies {
                    &&& (#[trigger] boxes@[b]).bins@.len() >= 1
                    &&& boxes@[b].population == bins_population(histogram@, boxes@[b].bins@)
                } by {
                    if b < removed.len() {
                        if b == selected {
                            assert(removed[b] == old_boxes.last());
                        } else {
                            assert(removed[b] == old_boxes[b]);
                        }
                    }
                }
                assert(old_groups[selected as int] == original);
                assert(is_selected(px, old_groups, selected as int));
                assert(sorted_along(sorted, widest_axis(original)));
                assert(new_groups == old_groups.update(selected as int, old_groups.last()).drop_last().push(
                    sorted.take(split as int),
                ).push(sorted.skip(split as int)));
                assert(is_split(px, old_groups, new_groups, selected as int, sorted, split as int));
                assert(is_split_step(px, old_groups, new_groups));
                let old_trace = trace;
                trace = trace.push(new_groups);
                assert forall|t: int| 0 <= t < trace.len() - 1 implies is_split_step(px, #[trigger] trace[t], trace[t + 1]) by {
                    if t < old_trace.len() - 1 {
                        assert(trace[t] == old_trace[t]);
                        assert(trace[t + 1] == old_trace[t + 1]);
                    } else {
                        assert(trace[t] == old_trace.last());
                        assert(trace[t + 1] == new_groups);
                    }
                }
            }
        }
    }
    let ghost final_groups = box_groups(boxes@);
    proof {
        assert forall|b: int| 0 <= b < final_groups.len() implies (#[trigger] final_groups[b]).len() >= 1 by {
            assert(final_groups[b] == boxes@[b].bins@);
        }
        lemma_nonempty_groups_len(final_groups);
        if done {
            assert forall|b: int| 0 <= b < final_groups.len() implies (#[trigger] final_groups[b]).len() == 1 by {
                assert(final_groups[b] == boxes@[b].bins@);
            }
            lemma_singleton_groups_len(final_groups);
        }
    }
    let mut palette: Vec<[u8; 3]> = Vec::new();
    let mut b: usize = 0;
    while b < boxes.len()
        invariant
            b <= boxes@.len(),
            1 <= boxes@.len() <= limit,
            limit == (if maximum_colors <= 1 { 1 } else { maximum_colors as int }),
            final_groups == box_groups(boxes@),
            is_histogram(histogram@, px),
            forall|key: int|
                0 <= key < COLOR_HISTOGRAM_SIZE ==> {
                    &&& (#[trigger] histogram@[key]).count <= 0xffff_ffff
                    &&& histogram@[key].red <= 255 * histogram@[key].count
                    &&& histogram@[key].green <= 255 * histogram@[key].count
                    &&& histogram@[key].blue <= 255 * histogram@[key].count
                },
            forall|key: usize| #[trigger] groups_multiset(final_groups).count(key) == if is_occupied(px, key) {
                1nat
            } else {
                0nat
            },
            groups_len(final_groups) == occ.len(),
            occ.len() <= 32768,
            forall|i: int| 0 <= i < boxes@.len() ==> (#[trigger] boxes@[i]).bins@.len() >= 1,
            palette@.len() == b,
            forall|i: int| 0 <= i < b ==> palette@[i] == #[trigger] group_average(px, final_groups[i]),
        decreases boxes@.len() - b,
    {
        let bins = &boxes[b].bins;
        let ghost group = bins@;
        proof {
            assert(final_groups[b as int] == group);
            lemma_group_keys(final_groups, b as int, px);
            lemma_group_within(final_groups, b as int, 0);
        }
        let mut count: u64 = 0;
        let mut red: u64 = 0;
        let mut green: u64 = 0;
        let mut blue: u64 = 0;
        let mut j: usize = 0;
        while j < bins.len()
            invariant
                bins@ == group,
                group.len() <= 32768,
                group.len() >= 1,
                j <= group.len(),
                is_histogram(histogram@, px),
                forall|key: int|
                    0 <= key < COLOR_HISTOGRAM_SIZE ==> {
                        &&& (#[trigger] histogram@[key]).count <= 0xffff_ffff
                        &&& histogram@[key].red <= 255 * histogram@[key].count
                        &&& histogram@[key].green <= 255 * histogram@[key].count
                        &&& histogram@[key].blue <= 255 * histogram@[key].count
                    },
                forall|k: int| 0 <= k < group.len() ==> is_occupied(px, #[trigger] group[k]),
                count == group_count(px, group.take(j as int)),
                red == group_sum(px, group.take(j as int), 0),
                green == group_sum(px, group.take(j as int), 1),
                blue == group_sum(px, group.take(j as int), 2),
                count <= j * 0xffff_ffff,
                red <= j * 255 * 0xffff_ffff,
                green <= j * 255 * 0xffff_ffff,
                blue <= j * 255 * 0xffff_ffff,
                j > 0 ==> count > 0,
            decreases group.len() - j,
        {
            let key = bins[j];
            proof {
                assert(is_occupied(px, group[j as int]));
                assert(group.take(j + 1).drop_last() =~= group.take(j as int));
                assert((j + 1) * 0xffff_ffff == j * 0xffff_ffff + 0xffff_ffff) by (nonlinear_arith);
                assert((j + 1) * 255 * 0xffff_ffff == j * 255 * 0xffff_ffff + 255 * 0xffff_ffff) by (nonlinear_arith);
                assert((j + 1) * 255 * 0xffff_ffff <= 32768 * 255 * 0xffff_ffff) by (nonlinear_arith)
                    requires
                        j + 1 <= 32768,
                ;
                assert(histogram@[key as int].red <= 255 * 0xffff_ffff) by (nonlinear_arith)
                    requires
                        histogram@[key as int].red <= 255 * histogram@[key as int].count,
                        histogram@[key as int].count <= 0xffff_ffff,
                ;
                assert(histogram@[key as int].green <= 255 * 0xffff_ffff) by (nonlinear_arith)
                    requires
                        histogram@[key as int].green <= 255 * histogram@[key as int].count,
                        histogram@[key as int].count <= 0xffff_ffff,
                ;
                assert(histogram@[key as int].blue <= 255 * 0xffff_ffff) by (nonlinear_arith)
                    requires
                        histogram@[key as int].blue <= 255 * histogram@[key as int].count,
                        histogram@[key as int].count <= 0xffff_ffff,
                ;
            }
            let bin = histogram[key];
            count = count + bin.count;
            red = red + bin.red;
            green = green + bin.green;
            blue = blue + bin.blue;
            j += 1;
        }
        proof {
            assert(group.take(group.len() as int) =~= group);
        }
        palette.push([(red / count) as u8, (green / count) as u8, (blue / count) as u8]);
        b += 1;
    }
    proof {
        assert(is_bin_partition(final_groups, px)) by {
            assert forall|i: int| 0 <= i < final_groups.len() implies (#[trigger] final_groups[i]).len() >= 1 by {
                assert(final_groups[i] == boxes@[i].bins@);
            }
        }
        assert(final_groups.len() == palette@.len());
        assert(trace.last() == final_groups);
        assert(is_median_cut(px, maximum_colors, trace));
    }
    palette
}

} // verus!
