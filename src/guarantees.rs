use vstd::prelude::*;

use crate::histogram::{accepted, coordinate, high, lemma_tally_bound, low, pixel_count, quantize, tally};
use crate::pixel_encoding::PixelEncoding;
use crate::quantize::{
    first_target,
    first_over,
    insert_sorted,
    iterate_spec,
    median_cut,
    palette,
    palette_of,
    refine,
    sampled_bounds,
    sampled_histogram,
    sort_spec,
    rank,
    split_point,
    start_point,
    walk_down,
    walk_up,
    Priority,
};
use crate::types::{white_spec, Color, ColorChannel, Pixel};
use crate::vbox::{average_of, box_sum, cell_value, cube_sum, plane_sum, population, row_sum, volume_of, widest, Bounds};
use crate::util::index_of;

verus! {

/// Extraction depends on its arguments alone: the same buffer and options
/// always give the same palette.
pub proof fn lemma_extract_deterministic(
    px1: Seq<u8>,
    px2: Seq<u8>,
    enc: PixelEncoding,
    q: int,
    max_colors: int,
    ignore_white: bool,
)
    requires
        px1 == px2,
    ensures
        palette(px1, enc, q, max_colors, ignore_white) == palette(px2, enc, q, max_colors, ignore_white),
{
}

/// Sorting a single box leaves it as it is.
pub proof fn lemma_sort_single(h: Seq<u64>, b: Bounds, p: Priority)
    ensures
        sort_spec(h, seq![b], p) == seq![b],
{
    assert(seq![b].drop_last() =~= Seq::<Bounds>::empty());
    assert(sort_spec(h, Seq::<Bounds>::empty(), p) == Seq::<Bounds>::empty());
    assert(insert_sorted(h, Seq::<Bounds>::empty(), b, p) == seq![b]);
}

/// Asked for one color, extraction returns exactly one: the average color of
/// the box that bounds every accepted sample.
pub proof fn lemma_single_color(px: Seq<u8>, enc: PixelEncoding, q: int, ignore_white: bool)
    ensures
        palette(px, enc, q, 1, ignore_white) == seq![
            average_of(sampled_histogram(px, enc, q, ignore_white), sampled_bounds(px, enc, q, ignore_white)),
        ],
{
    let h = sampled_histogram(px, enc, q, ignore_white);
    let root = sampled_bounds(px, enc, q, ignore_white);
    assert(first_target(1) == 1);
    lemma_sort_single(h, root, Priority::Product);
    assert(refine(h, root, 1) == seq![root]);
    assert(palette_of(h, root, 1) =~= seq![average_of(h, root)]);
}

/// A pass over a worklist that holds one empty box changes nothing.
pub proof fn lemma_iterate_empty(
    h: Seq<u64>,
    b: Bounds,
    p: Priority,
    target: int,
    color: int,
    fuel: nat,
)
    requires
        population(h, b) == 0,
    ensures
        iterate_spec(h, seq![b], p, target, color, fuel) == seq![b],
    decreases fuel,
{
    if fuel > 0 {
        lemma_sort_single(h, b, p);
        lemma_iterate_empty(h, b, p, target, color, (fuel - 1) as nat);
    }
}

/// With no accepted sample from position `p` on, nothing is counted and the
/// bounds stay at their initial values.
proof fn lemma_nothing_accepted(
    px: Seq<u8>,
    enc: PixelEncoding,
    q: int,
    ignore_white: bool,
    c: ColorChannel,
    p: int,
)
    requires
        q > 0,
        forall|t: int| p <= t < pixel_count(px, enc) ==> !accepted(px, enc, t, ignore_white),
    ensures
        low(px, enc, q, ignore_white, c, p) == 255,
        high(px, enc, q, ignore_white, c, p) == 0,
    decreases pixel_count(px, enc) + q - p,
{
    if p < pixel_count(px, enc) {
        lemma_nothing_accepted(px, enc, q, ignore_white, c, p + q);
    }
}

/// When every pixel is white and white pixels are ignored, extraction still
/// ends, with a single color.
pub proof fn lemma_all_filtered(px: Seq<u8>, enc: PixelEncoding, q: int, max_colors: int)
    requires
        q >= 1,
        forall|t: int| 0 <= t < pixel_count(px, enc) ==> white_spec(#[trigger] enc.pixel_at(px, t)),
    ensures
        palette(px, enc, q, max_colors, true).len() == 1,
{
    let h = sampled_histogram(px, enc, q, true);
    let root = sampled_bounds(px, enc, q, true);
    lemma_nothing_accepted(px, enc, q, true, ColorChannel::R, 0);
    assert(root.r_min > root.r_max);
    assert(population(h, root) == 0);
    lemma_iterate_empty(h, root, Priority::Count, first_target(max_colors), 1, 1000);
    lemma_sort_single(h, root, Priority::Product);
    lemma_iterate_empty(h, root, Priority::Product, max_colors - 1, 1, 1000);
    assert(refine(h, root, max_colors) == seq![root]);
}

/// The box made of the single cell `(r, g, b)`.
pub open spec fn cell_box(r: u8, g: u8, b: u8) -> Bounds {
    Bounds { r_min: r, r_max: r, g_min: g, g_max: g, b_min: b, b_max: b }
}

/// A box that is empty on the red axis.
pub open spec fn hollow(x: Bounds) -> bool {
    x.r_min > x.r_max
}

/// Every entry of the worklist is the cell box or hollow.
pub open spec fn cells_or_hollow(q: Seq<Bounds>, cb: Bounds) -> bool {
    forall|i: int| 0 <= i < q.len() ==> q[i] == cb || hollow(q[i])
}

/// The worklist while a single populated cell is refined: the cell box and
/// hollow boxes, with the cell box last.
pub open spec fn cell_last(q: Seq<Bounds>, cb: Bounds) -> bool {
    q.len() >= 1 && q.last() == cb && cells_or_hollow(q, cb)
}

proof fn lemma_hollow_rank(h: Seq<u64>, x: Bounds, p: Priority)
    requires
        hollow(x),
    ensures
        population(h, x) == 0,
        volume_of(x) == 0,
        rank(h, x, p) == 0,
{
    let er = crate::vbox::extent(x.r_min as int, x.r_max as int);
    let eg = crate::vbox::extent(x.g_min as int, x.g_max as int);
    let eb = crate::vbox::extent(x.b_min as int, x.b_max as int);
    assert(er == 0);
    assert(er * eg * eb == 0) by (nonlinear_arith)
        requires
            er == 0,
    ;
    assert(0 * volume_of(x) * 65536 == 0) by (nonlinear_arith);
}

proof fn lemma_insert_keeps(h: Seq<u64>, s: Seq<Bounds>, x: Bounds, p: Priority, cb: Bounds)
    requires
        cells_or_hollow(s, cb),
        x == cb || hollow(x),
    ensures
        cells_or_hollow(insert_sorted(h, s, x, p), cb),
        insert_sorted(h, s, x, p).len() == s.len() + 1,
    decreases s.len(),
{
    if s.len() > 0 && rank(h, s.last(), p) > rank(h, x, p) {
        lemma_insert_keeps(h, s.drop_last(), x, p, cb);
    }
}

/// Sorting a worklist of the cell box and hollow boxes that holds the cell box
/// puts the cell box last.
proof fn lemma_sort_cell_last(h: Seq<u64>, s: Seq<Bounds>, p: Priority, cb: Bounds)
    requires
        cells_or_hollow(s, cb),
        exists|i: int| 0 <= i < s.len() && s[i] == cb,
        population(h, cb) > 0,
        volume_of(cb) > 0,
    ensures
        cell_last(sort_spec(h, s, p), cb),
        sort_spec(h, s, p).len() == s.len(),
    decreases s.len(),
{
    let rest = s.drop_last();
    let x = s.last();
    let i = choose|i: int| 0 <= i < s.len() && s[i] == cb;
    assert(cells_or_hollow(rest, cb));
    assert(rank(h, cb, p) > 0) by {
        assert(population(h, cb) * volume_of(cb) > 0) by (nonlinear_arith)
            requires
                population(h, cb) > 0,
                volume_of(cb) > 0,
        ;
    }
    if rest.len() == 0 {
        assert(sort_spec(h, rest, p) == rest);
    } else if x == cb {
        lemma_sort_keeps(h, rest, p, cb);
        let sr = sort_spec(h, rest, p);
        if hollow(sr.last()) {
            lemma_hollow_rank(h, sr.last(), p);
        }
    } else {
        assert(i < rest.len());
        assert(rest[i] == cb);
        lemma_sort_cell_last(h, rest, p, cb);
        lemma_hollow_rank(h, x, p);
    }
    lemma_sort_keeps(h, s, p, cb);
}

proof fn lemma_sort_keeps(h: Seq<u64>, s: Seq<Bounds>, p: Priority, cb: Bounds)
    requires
        cells_or_hollow(s, cb),
    ensures
        cells_or_hollow(sort_spec(h, s, p), cb),
        sort_spec(h, s, p).len() == s.len(),
    decreases s.len(),
{
    if s.len() > 0 {
        assert(cells_or_hollow(s.drop_last(), cb));
        lemma_sort_keeps(h, s.drop_last(), p, cb);
        lemma_insert_keeps(h, sort_spec(h, s.drop_last(), p), s.last(), p, cb);
    }
}

/// Cutting the cell box gives the cell box back, and a hollow box when it
/// holds two samples or more.
proof fn lemma_cut_cell(h: Seq<u64>, cb: Bounds)
    requires
        cb.r_min == cb.r_max < 32,
        cb.g_min == cb.g_max,
        cb.b_min == cb.b_max,
        population(h, cb) > 0,
    ensures
        median_cut(h, cb).len() >= 1,
        median_cut(h, cb)[0] == cb,
        cells_or_hollow(median_cut(h, cb), cb),
{
    if population(h, cb) >= 2 {
        let c = ColorChannel::R;
        let r = cb.r_min as int;
        assert(widest(cb) == c);
        assert(cb.with_max(c, r as u8) == cb);
        assert(first_over(h, cb, c, r) == r);
        assert(start_point(r, r, r) == r - 1);
        assert(walk_up(h, cb, c, r) == r);
        assert(walk_up(h, cb, c, r - 1) == r);
        assert(walk_down(h, cb, c, r) == r);
        assert(split_point(h, cb) == r);
    }
}

/// A refinement pass keeps the cell box last.
proof fn lemma_iterate_cell(
    h: Seq<u64>,
    q: Seq<Bounds>,
    p: Priority,
    target: int,
    color: int,
    fuel: nat,
    cb: Bounds,
)
    requires
        cell_last(q, cb),
        cb.r_min == cb.r_max < 32,
        cb.g_min == cb.g_max,
        cb.b_min == cb.b_max,
        population(h, cb) > 0,
        volume_of(cb) > 0,
    ensures
        cell_last(iterate_spec(h, q, p, target, color, fuel), cb),
    decreases fuel,
{
    if fuel > 0 {
        let parts = median_cut(h, cb);
        lemma_cut_cell(h, cb);
        let joined = q.drop_last() + parts;
        assert(cells_or_hollow(joined, cb));
        assert(joined[q.len() - 1] == cb);
        lemma_sort_cell_last(h, joined, p, cb);
        let grown = if parts.len() == 2 {
            color + 1
        } else {
            color
        };
        lemma_iterate_cell(h, sort_spec(h, joined, p), p, target, grown, (fuel - 1) as nat, cb);
    }
}

/// The cell box ends last in the final worklist.
proof fn lemma_refine_cell(h: Seq<u64>, cb: Bounds, max_colors: int)
    requires
        cb.r_min == cb.r_max < 32,
        cb.g_min == cb.g_max,
        cb.b_min == cb.b_max,
        population(h, cb) > 0,
        volume_of(cb) > 0,
    ensures
        cell_last(refine(h, cb, max_colors), cb),
{
    let q0 = seq![cb];
    assert(cell_last(q0, cb));
    lemma_iterate_cell(h, q0, Priority::Count, first_target(max_colors), 1, 1000, cb);
    let q1 = if first_target(max_colors) > 1 {
        iterate_spec(h, q0, Priority::Count, first_target(max_colors), 1, 1000)
    } else {
        q0
    };
    assert(q1[q1.len() - 1] == cb);
    lemma_sort_cell_last(h, q1, Priority::Product, cb);
    let q2 = sort_spec(h, q1, Priority::Product);
    lemma_iterate_cell(h, q2, Priority::Product, max_colors - q2.len(), 1, 1000, cb);
}

/// The sums over the cell box are those of its one cell.
proof fn lemma_cell_sum(h: Seq<u64>, k: int, cb: Bounds)
    requires
        cb.r_min == cb.r_max,
        cb.g_min == cb.g_max,
        cb.b_min == cb.b_max,
    ensures
        box_sum(h, k, cb) == cell_value(h, k, cb.r_min as int, cb.g_min as int, cb.b_min as int),
{
    let (r, g, b) = (cb.r_min as int, cb.g_min as int, cb.b_min as int);
    assert(cube_sum(h, k, r, r - 1, g, g, b, b) == 0);
    assert(plane_sum(h, k, r, g, g - 1, b, b) == 0);
    assert(row_sum(h, k, r, g, b, b - 1) == 0);
    assert(row_sum(h, k, r, g, b, b) == cell_value(h, k, r, g, b));
    assert(plane_sum(h, k, r, g, g, b, b) == row_sum(h, k, r, g, b, b));
}

/// From position `p` on, every pixel is `pixel` and accepted: the bounds on
/// axis `c` are its coordinate while a sample remains.
proof fn lemma_uniform_bounds(
    px: Seq<u8>,
    enc: PixelEncoding,
    q: int,
    ignore_white: bool,
    c: ColorChannel,
    p: int,
    pixel: Pixel,
)
    requires
        q > 0,
        forall|t: int| 0 <= t < pixel_count(px, enc) ==> #[trigger] enc.pixel_at(px, t) == pixel,
        forall|t: int| 0 <= t < pixel_count(px, enc) ==> #[trigger] accepted(px, enc, t, ignore_white),
        p >= 0,
    ensures
        p < pixel_count(px, enc) ==> low(px, enc, q, ignore_white, c, p) == coordinate(pixel, c),
        p < pixel_count(px, enc) ==> high(px, enc, q, ignore_white, c, p) == coordinate(pixel, c),
        p >= pixel_count(px, enc) ==> low(px, enc, q, ignore_white, c, p) == 255,
        p >= pixel_count(px, enc) ==> high(px, enc, q, ignore_white, c, p) == 0,
    decreases pixel_count(px, enc) + q - p,
{
    if p < pixel_count(px, enc) {
        lemma_uniform_bounds(px, enc, q, ignore_white, c, p + q, pixel);
        assert(enc.pixel_at(px, p) == pixel);
        assert(accepted(px, enc, p, ignore_white));
    }
}

/// The uniform buffer whose color is accepted: the cell box ends last, and its
/// average is the center of the cell.
proof fn lemma_uniform_kept(px: Seq<u8>, q: int, max_colors: int, ignore_white: bool, color: Pixel)
    requires
        q >= 1,
        px.len() <= usize::MAX,
        pixel_count(px, PixelEncoding::Rgb) >= 2,
        color.a == 255,
        forall|t: int|
            0 <= t < pixel_count(px, PixelEncoding::Rgb) ==> #[trigger] PixelEncoding::Rgb.pixel_at(px, t)
                == color,
        !(ignore_white && white_spec(color)),
    ensures
        palette(px, PixelEncoding::Rgb, q, max_colors, ignore_white).len() >= 1,
        palette(px, PixelEncoding::Rgb, q, max_colors, ignore_white)[0] == (Color {
            r: (8 * quantize(color.r) + 4) as u8,
            g: (8 * quantize(color.g) + 4) as u8,
            b: (8 * quantize(color.b) + 4) as u8,
        }),
{
    let enc = PixelEncoding::Rgb;
    let h = sampled_histogram(px, enc, q, ignore_white);
    let root = sampled_bounds(px, enc, q, ignore_white);
    let (r, g, b) = (quantize(color.r), quantize(color.g), quantize(color.b));
    let cb = cell_box(r as u8, g as u8, b as u8);
    assert forall|t: int| 0 <= t < pixel_count(px, enc) implies #[trigger] accepted(px, enc, t, ignore_white) by {
        assert(enc.pixel_at(px, t) == color);
    }
    lemma_uniform_bounds(px, enc, q, ignore_white, ColorChannel::R, 0, color);
    lemma_uniform_bounds(px, enc, q, ignore_white, ColorChannel::G, 0, color);
    lemma_uniform_bounds(px, enc, q, ignore_white, ColorChannel::B, 0, color);
    assert(root == cb);
    let i = index_of(r, g, b);
    assert(enc.pixel_at(px, 0) == color);
    assert(crate::histogram::cell_of(color) == i);
    lemma_tally_bound(px, enc, q, ignore_white, i, 0);
    lemma_tally_bound(px, enc, q, ignore_white, i, q);
    assert(tally(px, enc, q, ignore_white, i, 0) >= 1);
    assert(0 <= i < 32768);
    let n = h[i] as int;
    assert(n == tally(px, enc, q, ignore_white, i, 0));
    lemma_cell_sum(h, 0, cb);
    lemma_cell_sum(h, 1, cb);
    lemma_cell_sum(h, 2, cb);
    lemma_cell_sum(h, 3, cb);
    assert(population(h, cb) == n);
    assert(crate::vbox::extent(r, r) == 1);
    assert(crate::vbox::extent(g, g) == 1);
    assert(crate::vbox::extent(b, b) == 1);
    assert(volume_of(cb) == 1);
    lemma_refine_cell(h, cb, max_colors);
    let fin = refine(h, root, max_colors);
    assert(fin[fin.len() - 1] == cb);
    vstd::arithmetic::div_mod::lemma_div_multiples_vanish(8 * r + 4, n);
    vstd::arithmetic::div_mod::lemma_div_multiples_vanish(8 * g + 4, n);
    vstd::arithmetic::div_mod::lemma_div_multiples_vanish(8 * b + 4, n);
    assert(n * (8 * r + 4) == (8 * r + 4) * n) by (nonlinear_arith);
    assert(n * (8 * g + 4) == (8 * g + 4) * n) by (nonlinear_arith);
    assert(n * (8 * b + 4) == (8 * b + 4) * n) by (nonlinear_arith);
    assert(average_of(h, cb) == (Color { r: (8 * r + 4) as u8, g: (8 * g + 4) as u8, b: (8 * b + 4) as u8 }));
}

/// A buffer of one opaque color with at least two pixels gives first a color
/// in the same cell as the input: the center of that cell when the color is
/// not filtered out.
pub proof fn lemma_uniform_color(
    px: Seq<u8>,
    q: int,
    max_colors: int,
    ignore_white: bool,
    color: Pixel,
)
    requires
        q >= 1,
        px.len() <= usize::MAX,
        pixel_count(px, PixelEncoding::Rgb) >= 2,
        color.a == 255,
        forall|t: int|
            0 <= t < pixel_count(px, PixelEncoding::Rgb) ==> #[trigger] PixelEncoding::Rgb.pixel_at(px, t)
                == color,
    ensures
        palette(px, PixelEncoding::Rgb, q, max_colors, ignore_white).len() >= 1,
        !(ignore_white && white_spec(color)) ==> palette(px, PixelEncoding::Rgb, q, max_colors, ignore_white)[0] == (Color {
            r: (8 * quantize(color.r) + 4) as u8,
            g: (8 * quantize(color.g) + 4) as u8,
            b: (8 * quantize(color.b) + 4) as u8,
        }),
        quantize(palette(px, PixelEncoding::Rgb, q, max_colors, ignore_white)[0].r) == quantize(color.r),
        quantize(palette(px, PixelEncoding::Rgb, q, max_colors, ignore_white)[0].g) == quantize(color.g),
        quantize(palette(px, PixelEncoding::Rgb, q, max_colors, ignore_white)[0].b) == quantize(color.b),
{
    let enc = PixelEncoding::Rgb;
    let h = sampled_histogram(px, enc, q, ignore_white);
    let root = sampled_bounds(px, enc, q, ignore_white);
    if ignore_white && white_spec(color) {
        assert forall|t: int| 0 <= t < pixel_count(px, enc) implies white_spec(#[trigger] enc.pixel_at(px, t)) by {
            assert(enc.pixel_at(px, t) == color);
        }
        lemma_all_filtered(px, enc, q, max_colors);
        lemma_nothing_accepted(px, enc, q, true, ColorChannel::R, 0);
        lemma_nothing_accepted(px, enc, q, true, ColorChannel::G, 0);
        lemma_nothing_accepted(px, enc, q, true, ColorChannel::B, 0);
        lemma_sort_single(h, root, Priority::Product);
        lemma_iterate_empty(h, root, Priority::Count, first_target(max_colors), 1, 1000);
        lemma_iterate_empty(h, root, Priority::Product, max_colors - 1, 1, 1000);
        assert(refine(h, root, max_colors) == seq![root]);
        assert(average_of(h, root) == (Color { r: 255, g: 255, b: 255 }));
    } else {
        lemma_uniform_kept(px, q, max_colors, ignore_white, color);
    }

}

proof fn lemma_insert_len(h: Seq<u64>, s: Seq<Bounds>, x: Bounds, p: Priority)
    ensures
        insert_sorted(h, s, x, p).len() == s.len() + 1,
    decreases s.len(),
{
    if s.len() > 0 && rank(h, s.last(), p) > rank(h, x, p) {
        lemma_insert_len(h, s.drop_last(), x, p);
    }
}

/// Sorting keeps the number of boxes.
proof fn lemma_sort_len(h: Seq<u64>, s: Seq<Bounds>, p: Priority)
    ensures
        sort_spec(h, s, p).len() == s.len(),
    decreases s.len(),
{
    if s.len() > 0 {
        lemma_sort_len(h, s.drop_last(), p);
        lemma_insert_len(h, sort_spec(h, s.drop_last(), p), s.last(), p);
    }
}

/// A pass adds one box per color produced, and produces colors up to
/// `target`, or one when `target` is already reached.
proof fn lemma_iterate_len(
    h: Seq<u64>,
    q: Seq<Bounds>,
    p: Priority,
    target: int,
    color: int,
    fuel: nat,
)
    ensures
        iterate_spec(h, q, p, target, color, fuel).len() <= q.len() + (if target - color >= 1 {
            target - color
        } else {
            1
        }),
    decreases fuel,
{
    if fuel > 0 && q.len() > 0 {
        if population(h, q.last()) == 0 {
            lemma_sort_len(h, q, p);
            lemma_iterate_len(h, sort_spec(h, q, p), p, target, color, (fuel - 1) as nat);
        } else {
            let parts = median_cut(h, q.last());
            let grown = if parts.len() == 2 {
                color + 1
            } else {
                color
            };
            lemma_sort_len(h, q.drop_last() + parts, p);
            lemma_iterate_len(h, sort_spec(h, q.drop_last() + parts, p), p, target, grown, (fuel - 1) as nat);
        }
    }
}

/// The palette never holds more colors than asked for.
pub proof fn lemma_palette_size(
    px: Seq<u8>,
    enc: PixelEncoding,
    q: int,
    max_colors: int,
    ignore_white: bool,
)
    requires
        max_colors >= 1,
    ensures
        palette(px, enc, q, max_colors, ignore_white).len() <= max_colors,
{
    let h = sampled_histogram(px, enc, q, ignore_white);
    let root = sampled_bounds(px, enc, q, ignore_white);
    let t = first_target(max_colors);
    lemma_iterate_len(h, seq![root], Priority::Count, t, 1, 1000);
    let q1 = if t > 1 {
        iterate_spec(h, seq![root], Priority::Count, t, 1, 1000)
    } else {
        seq![root]
    };
    assert(q1.len() <= max_colors);
    lemma_sort_len(h, q1, Priority::Product);
    let q2 = sort_spec(h, q1, Priority::Product);
    lemma_iterate_len(h, q2, Priority::Product, max_colors - q2.len(), 1, 1000);
}

} // verus!
