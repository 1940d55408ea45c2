use vstd::prelude::*;

use crate::config::{MAX_ITERATIONS, VBOX_LENGTH};
use crate::histogram::{create_histogram_and_vbox, high, low, tally};
use crate::pixel_encoding::PixelEncoding;
use crate::types::{Color, ColorChannel};
use crate::vbox::{
    average_of,
    box_sum,
    box_sums,
    cell_cap,
    cell_value,
    cube_sum,
    lemma_accumulate,
    plane_sum,
    population,
    row_sum,
    volume_of,
    widest,
    Bounds,
    VBox,
};

verus! {

/// Population of the part of `b` whose coordinate on axis `c` is at most `v`.
pub open spec fn partial(h: Seq<u64>, b: Bounds, c: ColorChannel, v: int) -> int {
    population(h, b.with_max(c, v as u8))
}

/// Population of the slice of `b` at coordinate `v` on axis `c`.
pub open spec fn slice(h: Seq<u64>, b: Bounds, c: ColorChannel, v: int) -> int {
    population(h, b.with_min(c, v as u8).with_max(c, v as u8))
}

/// The smallest coordinate from `v` on, up to the upper bound, at which the
/// partial population on axis `c` exceeds half the box.
pub open spec fn first_over(h: Seq<u64>, b: Bounds, c: ColorChannel, v: int) -> int
    decreases b.hi(c) + 1 - v,
{
    if v < b.hi(c) && partial(h, b, c, v) <= population(h, b) / 2 {
        first_over(h, b, c, v + 1)
    } else {
        v
    }
}

/// First candidate for the cut after the median coordinate `l` of `lo..=hi`:
/// right of the median when more room lies right of it, else left of it.
pub open spec fn start_point(lo: int, hi: int, l: int) -> int {
    let left = l - lo;
    let right = hi - l;
    if left <= right {
        let x = l + right / 2;
        if hi - 1 < x {
            hi - 1
        } else {
            x
        }
    } else {
        let x = (2 * (l - 1) - left) / 2;
        if lo > x {
            lo
        } else {
            x
        }
    }
}

/// Coordinate `d` lies in the box on axis `c` and has a populated part at or
/// below it.
pub open spec fn populated_upto(h: Seq<u64>, b: Bounds, c: ColorChannel, d: int) -> bool {
    b.lo(c) <= d <= b.hi(c) && partial(h, b, c, d) > 0
}

/// Moves `d` up past the coordinates with nothing at or below them.
pub open spec fn walk_up(h: Seq<u64>, b: Bounds, c: ColorChannel, d: int) -> int
    decreases b.hi(c) + 1 - d,
{
    if d < b.hi(c) && !populated_upto(h, b, c, d) {
        walk_up(h, b, c, d + 1)
    } else {
        d
    }
}

/// Moves `d` down while nothing lies above it and something lies below it.
pub open spec fn walk_down(h: Seq<u64>, b: Bounds, c: ColorChannel, d: int) -> int
    decreases d,
{
    if d > 0 && partial(h, b, c, d) == population(h, b) && populated_upto(h, b, c, d - 1) {
        walk_down(h, b, c, d - 1)
    } else {
        d
    }
}

/// The coordinate on the widest axis at which a box is cut: its first half
/// keeps the coordinates up to it.
pub open spec fn split_point(h: Seq<u64>, b: Bounds) -> int {
    let c = widest(b);
    let l = first_over(h, b, c, b.lo(c));
    walk_down(h, b, c, walk_up(h, b, c, start_point(b.lo(c), b.hi(c), l)))
}

/// The boxes that replace a box in the worklist: none for an empty box, the
/// box itself for a single sample, else its two halves.
pub open spec fn median_cut(h: Seq<u64>, b: Bounds) -> Seq<Bounds> {
    let n = population(h, b);
    if n == 0 {
        seq![]
    } else if n == 1 {
        seq![b]
    } else {
        let c = widest(b);
        let d = split_point(h, b);
        seq![b.with_max(c, d as u8), b.with_min(c, (d + 1) as u8)]
    }
}

proof fn lemma_plane_split_blue(h: Seq<u64>, k: int, r: int, gl: int, gh: int, bl: int, v: int)
    requires
        bl <= v,
    ensures
        plane_sum(h, k, r, gl, gh, bl, v) == plane_sum(h, k, r, gl, gh, bl, v - 1) + plane_sum(
            h,
            k,
            r,
            gl,
            gh,
            v,
            v,
        ),
    decreases gh + 1 - gl,
{
    if gl <= gh {
        lemma_plane_split_blue(h, k, r, gl, gh - 1, bl, v);
        assert(row_sum(h, k, r, gh, v, v - 1) == 0);
        assert(row_sum(h, k, r, gh, v, v) == cell_value(h, k, r, gh, v));
    }
}

proof fn lemma_cube_split_blue(
    h: Seq<u64>,
    k: int,
    rl: int,
    rh: int,
    gl: int,
    gh: int,
    bl: int,
    v: int,
)
    requires
        bl <= v,
    ensures
        cube_sum(h, k, rl, rh, gl, gh, bl, v) == cube_sum(h, k, rl, rh, gl, gh, bl, v - 1)
            + cube_sum(h, k, rl, rh, gl, gh, v, v),
    decreases rh + 1 - rl,
{
    if rl <= rh {
        lemma_cube_split_blue(h, k, rl, rh - 1, gl, gh, bl, v);
        lemma_plane_split_blue(h, k, rh, gl, gh, bl, v);
    }
}

proof fn lemma_cube_split_green(
    h: Seq<u64>,
    k: int,
    rl: int,
    rh: int,
    gl: int,
    v: int,
    bl: int,
    bh: int,
)
    requires
        gl <= v,
    ensures
        cube_sum(h, k, rl, rh, gl, v, bl, bh) == cube_sum(h, k, rl, rh, gl, v - 1, bl, bh)
            + cube_sum(h, k, rl, rh, v, v, bl, bh),
    decreases rh + 1 - rl,
{
    if rl <= rh {
        lemma_cube_split_green(h, k, rl, rh - 1, gl, v, bl, bh);
        assert(plane_sum(h, k, rh, v, v - 1, bl, bh) == 0);
        assert(plane_sum(h, k, rh, v, v, bl, bh) == row_sum(h, k, rh, v, bl, bh));
    }
}

/// The partial population at `v` is the one at `v - 1` plus the slice at `v`.
proof fn lemma_partial_step(h: Seq<u64>, b: Bounds, c: ColorChannel, v: int)
    requires
        b.in_cube(),
        b.lo(c) <= v <= b.hi(c),
    ensures
        v == b.lo(c) ==> partial(h, b, c, v) == slice(h, b, c, v),
        v > b.lo(c) ==> partial(h, b, c, v) == partial(h, b, c, v - 1) + slice(h, b, c, v),
{
    assert(b.with_min(c, v as u8).with_max(c, v as u8) == b.with_max(c, v as u8).with_min(c, v as u8));
    if v == b.lo(c) {
        assert(b.with_min(c, v as u8) == b);
    } else {
        match c {
            ColorChannel::R => {
                let s = b.with_min(c, v as u8).with_max(c, v as u8);
                assert(cube_sum(h, 0, v, v - 1, b.g_min as int, b.g_max as int, b.b_min as int, b.b_max as int) == 0);
                assert(box_sum(h, 0, s) == plane_sum(h, 0, v, b.g_min as int, b.g_max as int, b.b_min as int, b.b_max as int));
            },
            ColorChannel::G => {
                lemma_cube_split_green(h, 0, b.r_min as int, b.r_max as int, b.g_min as int, v, b.b_min as int, b.b_max as int);
            },
            ColorChannel::B => {
                lemma_cube_split_blue(h, 0, b.r_min as int, b.r_max as int, b.g_min as int, b.g_max as int, b.b_min as int, v);
            },
        }
    }
}

proof fn lemma_plane_empty_blue(h: Seq<u64>, k: int, r: int, gl: int, gh: int, bl: int, bh: int)
    requires
        bl > bh,
    ensures
        plane_sum(h, k, r, gl, gh, bl, bh) == 0,
    decreases gh + 1 - gl,
{
    if gl <= gh {
        lemma_plane_empty_blue(h, k, r, gl, gh - 1, bl, bh);
    }
}

proof fn lemma_cube_empty(h: Seq<u64>, k: int, rl: int, rh: int, gl: int, gh: int, bl: int, bh: int)
    requires
        gl > gh || bl > bh,
    ensures
        cube_sum(h, k, rl, rh, gl, gh, bl, bh) == 0,
    decreases rh + 1 - rl,
{
    if rl <= rh {
        lemma_cube_empty(h, k, rl, rh - 1, gl, gh, bl, bh);
        if bl > bh {
            lemma_plane_empty_blue(h, k, rh, gl, gh, bl, bh);
        }
    }
}

/// A box with an empty axis has no population.
proof fn lemma_populated_non_empty(h: Seq<u64>, b: Bounds)
    ensures
        population(h, b) != 0 ==> b.non_empty(),
{
    if b.r_min > b.r_max {
    } else if !b.non_empty() {
        lemma_cube_empty(h, 0, b.r_min as int, b.r_max as int, b.g_min as int, b.g_max as int, b.b_min as int, b.b_max as int);
    }
}

/// Bounds of the slice of `b` at coordinate `v` on axis `c`.
fn slice_of(b: Bounds, c: ColorChannel, v: u8) -> (s: Bounds)
    ensures
        s == b.with_min(c, v).with_max(c, v),
{
    match c {
        ColorChannel::R => Bounds { r_min: v, r_max: v, ..b },
        ColorChannel::G => Bounds { g_min: v, g_max: v, ..b },
        ColorChannel::B => Bounds { b_min: v, b_max: v, ..b },
    }
}

fn lower_bound(b: Bounds, c: ColorChannel) -> (v: u8)
    ensures
        v == b.lo(c),
{
    match c {
        ColorChannel::R => b.r_min,
        ColorChannel::G => b.g_min,
        ColorChannel::B => b.b_min,
    }
}

fn upper_bound(b: Bounds, c: ColorChannel) -> (v: u8)
    ensures
        v == b.hi(c),
{
    match c {
        ColorChannel::R => b.r_max,
        ColorChannel::G => b.g_max,
        ColorChannel::B => b.b_max,
    }
}

/// The worklist entries that replace `vbox`: `median_cut` of its bounds, each
/// over the same histogram.
fn apply_median_cut(vbox: VBox) -> (r: Vec<VBox>)
    requires
        vbox.wf(),
    ensures
        r@.len() == median_cut(vbox.hist(), vbox@).len(),
        forall|i: int|
            0 <= i < r@.len() ==> r@[i].wf() && r@[i].hist() == vbox.hist() && r@[i]@
                == median_cut(vbox.hist(), vbox@)[i],
{
    let count = vbox.get_count();
    if count == 0 {
        return Vec::new();
    }
    if count == 1 {
        let mut single = Vec::new();
        single.push(vbox);
        return single;
    }
    proof {
        lemma_populated_non_empty(vbox.hist(), vbox@);
    }
    let b = vbox.bounds();
    let h = vbox.histogram();
    let axis = vbox.widest_color_channel();
    let lo = lower_bound(b, axis);
    let hi = upper_bound(b, axis);
    // partial_sum[v] is the population at or below v on the axis, for v in lo..=hi
    let mut partial_sum: Vec<u128> = vec![0; VBOX_LENGTH];
    let mut total: u128 = 0;
    let mut v: u8 = lo;
    while v <= hi
        invariant
            b == vbox@,
            h@ == vbox.hist(),
            h@.len() == 32768,
            b.in_cube(),
            lo == b.lo(axis),
            hi == b.hi(axis),
            lo <= v <= hi + 1,
            partial_sum@.len() == 32,
            forall|x: int| lo <= x < v ==> partial_sum@[x] == partial(h@, b, axis, x),
            v == lo ==> total == 0,
            v > lo ==> total == partial(h@, b, axis, v - 1),
            total <= (v - lo) * (32768 * cell_cap()),
        decreases hi + 1 - v,
    {
        let s = box_sums(h, slice_of(b, axis, v));
        proof {
            lemma_partial_step(h@, b, axis, v as int);
            lemma_accumulate(total as int, s.0 as int, v - lo, 32768 * cell_cap());
        }
        total = total + s.0;
        partial_sum.set(v as usize, total);
        v = v + 1;
    }
    assert(b.with_max(axis, hi) == b);
    cut(axis, &vbox, &partial_sum, total)
}

/// Cuts `vbox` in two on `axis` at `split_point`, given the partial
/// populations along the axis and the population of the box.
fn cut(axis: ColorChannel, vbox: &VBox, partial_sum: &Vec<u128>, total: u128) -> (r: Vec<VBox>)
    requires
        vbox.wf(),
        vbox@.non_empty(),
        axis == widest(vbox@),
        total == population(vbox.hist(), vbox@),
        total >= 2,
        partial_sum@.len() == 32,
        forall|x: int|
            vbox@.lo(axis) <= x <= vbox@.hi(axis) ==> partial_sum@[x] == partial(
                vbox.hist(),
                vbox@,
                axis,
                x,
            ),
    ensures
        r@.len() == 2,
        forall|i: int| 0 <= i < 2 ==> r@[i].wf() && r@[i].hist() == vbox.hist(),
        r@[0]@ == vbox@.with_max(axis, split_point(vbox.hist(), vbox@) as u8),
        r@[1]@ == vbox@.with_min(axis, (split_point(vbox.hist(), vbox@) + 1) as u8),
{
    let ghost h = vbox.hist();
    let ghost b = vbox@;
    let lo = lower_bound(vbox.bounds(), axis) as i32;
    let hi = upper_bound(vbox.bounds(), axis) as i32;
    assert(b.with_max(axis, hi as u8) == b);
    // the median: the first coordinate where more than half the population lies at or below
    let mut l: i32 = lo;
    while l < hi && partial_sum[l as usize] <= total / 2
        invariant
            lo == b.lo(axis),
            hi == b.hi(axis),
            0 <= lo <= l <= hi < 32,
            partial_sum@.len() == 32,
            forall|x: int| lo <= x <= hi ==> partial_sum@[x] == partial(h, b, axis, x),
            total == population(h, b),
            first_over(h, b, axis, l as int) == first_over(h, b, axis, lo as int),
        decreases hi - l,
    {
        l = l + 1;
    }
    let left = l - lo;
    let right = hi - l;
    let mut d2: i32 = if left <= right {
        if hi - 1 < l + right / 2 {
            hi - 1
        } else {
            l + right / 2
        }
    } else {
        // the floor of l - 1 - left / 2, kept at lo or above
        let m = 2 * (l - 1) - left;
        if m < 0 || lo > m / 2 {
            lo
        } else {
            m / 2
        }
    };
    assert(d2 == start_point(lo as int, hi as int, l as int));
    let ghost start = d2 as int;
    // skip coordinates with nothing at or below them
    while d2 < hi && !(lo <= d2 && partial_sum[d2 as usize] > 0)
        invariant
            lo == b.lo(axis),
            hi == b.hi(axis),
            0 <= lo <= hi < 32,
            lo - 1 <= d2 <= hi,
            partial_sum@.len() == 32,
            forall|x: int| lo <= x <= hi ==> partial_sum@[x] == partial(h, b, axis, x),
            walk_up(h, b, axis, d2 as int) == walk_up(h, b, axis, start),
        decreases hi - d2,
    {
        d2 = d2 + 1;
    }
    assert(lo <= d2) by {
        if d2 < lo {
            assert(d2 == hi);
        }
    }
    let ghost up = d2 as int;
    // step back over coordinates with nothing above them, while something lies below
    while d2 > 0 && partial_sum[d2 as usize] == total && (lo <= d2 - 1 && partial_sum[(d2 - 1) as usize] > 0)
        invariant
            lo == b.lo(axis),
            hi == b.hi(axis),
            0 <= lo <= d2 <= hi < 32,
            partial_sum@.len() == 32,
            forall|x: int| lo <= x <= hi ==> partial_sum@[x] == partial(h, b, axis, x),
            total == population(h, b),
            walk_down(h, b, axis, d2 as int) == walk_down(h, b, axis, up),
        decreases d2,
    {
        d2 = d2 - 1;
    }
    let mut vbox1 = VBox::new_from(vbox);
    let mut vbox2 = VBox::new_from(vbox);
    vbox1.set_max(d2 as u8, &axis);
    vbox2.set_min((d2 + 1) as u8, &axis);
    let mut halves = Vec::new();
    halves.push(vbox1);
    halves.push(vbox2);
    halves
}

/// The order a refinement pass keeps its worklist in.
#[derive(Copy, Clone, PartialEq, Eq, Structural, Debug)]
pub enum Priority {
    /// Ascending population.
    Count,
    /// Ascending population times volume; empty boxes by volume.
    Product,
}

/// Sort key of a box: boxes with larger keys are split first.
pub open spec fn rank(h: Seq<u64>, b: Bounds, p: Priority) -> int {
    let n = population(h, b);
    match p {
        Priority::Count => n,
        Priority::Product => n * volume_of(b) * 65536 + (if n == 0 {
            volume_of(b)
        } else {
            0
        }),
    }
}

/// Places `x` after the last entry of the sorted `s` whose key is not above
/// its own.
pub open spec fn insert_sorted(h: Seq<u64>, s: Seq<Bounds>, x: Bounds, p: Priority) -> Seq<Bounds>
    decreases s.len(),
{
    if s.len() == 0 {
        seq![x]
    } else if rank(h, s.last(), p) <= rank(h, x, p) {
        s.push(x)
    } else {
        insert_sorted(h, s.drop_last(), x, p).push(s.last())
    }
}

/// Stable sort of `s` by ascending key: equal keys keep their order.
pub open spec fn sort_spec(h: Seq<u64>, s: Seq<Bounds>, p: Priority) -> Seq<Bounds>
    decreases s.len(),
{
    if s.len() == 0 {
        s
    } else {
        insert_sorted(h, sort_spec(h, s.drop_last(), p), s.last(), p)
    }
}

/// Bounds of each box of a worklist.
pub open spec fn views(q: Seq<VBox>) -> Seq<Bounds> {
    q.map_values(|v: VBox| v@)
}

/// Every box of the worklist is well formed and counts in `h`.
pub open spec fn over(q: Seq<VBox>, h: Seq<u64>) -> bool {
    forall|i: int| 0 <= i < q.len() ==> q[i].wf() && q[i].hist() == h
}

/// Key of a box when the worklist is ordered by population.
fn sort_by_count(v: &VBox) -> (k: u128)
    requires
        v.wf(),
    ensures
        k == rank(v.hist(), v@, Priority::Count),
{
    v.get_count()
}

/// Key of a box when the worklist is ordered by population times volume.
fn sort_by_product(v: &VBox) -> (k: u128)
    requires
        v.wf(),
    ensures
        k == rank(v.hist(), v@, Priority::Product),
{
    let count = v.get_count();
    let volume = v.get_volume();
    assert(volume <= 32768) by {
        crate::vbox::lemma_volume_bound(v@);
    }
    assert(count * volume <= 32768 * cell_cap() * 32768) by (nonlinear_arith)
        requires
            count <= 32768 * cell_cap(),
            volume <= 32768,
    ;
    let tie: u128 = if count == 0 {
        volume as u128
    } else {
        0
    };
    count * volume as u128 * 65536 + tie
}

fn key(v: &VBox, p: Priority) -> (k: u128)
    requires
        v.wf(),
    ensures
        k == rank(v.hist(), v@, p),
{
    match p {
        Priority::Count => sort_by_count(v),
        Priority::Product => sort_by_product(v),
    }
}

/// Inserting `x` at `j`, after every entry whose key is not above its own and
/// before the rest, is `insert_sorted`.
proof fn lemma_insert_at(h: Seq<u64>, s: Seq<Bounds>, x: Bounds, p: Priority, j: int)
    requires
        0 <= j <= s.len(),
        forall|k: int| j <= k < s.len() ==> rank(h, s[k], p) > rank(h, x, p),
        j > 0 ==> rank(h, s[j - 1], p) <= rank(h, x, p),
    ensures
        insert_sorted(h, s, x, p) == s.insert(j, x),
    decreases s.len(),
{
    if s.len() == 0 {
        assert(s.insert(j, x) =~= seq![x]);
    } else if j == s.len() {
        assert(s.insert(j, x) =~= s.push(x));
    } else {
        lemma_insert_at(h, s.drop_last(), x, p, j);
        assert(s.insert(j, x) =~= s.drop_last().insert(j, x).push(s.last()));
    }
}

/// Sorts the worklist stably by ascending key.
fn sort_boxes(queue: &mut Vec<VBox>, p: Priority)
    requires
        over(old(queue)@, old(queue)@[0].hist()) || old(queue)@.len() == 0,
    ensures
        final(queue)@.len() == old(queue)@.len(),
        old(queue)@.len() > 0 ==> over(final(queue)@, old(queue)@[0].hist()),
        views(final(queue)@) == sort_spec(old(queue)@[0].hist(), views(old(queue)@), p),
{
    let ghost q0 = queue@;
    let ghost h = queue@[0].hist();
    let n = queue.len();
    if n == 0 {
        assert(views(q0) =~= seq![]);
        return;
    }
    let mut i: usize = 1;
    proof {
        let s1 = views(q0).subrange(0, 1);
        assert(s1.drop_last() =~= seq![]);
        assert(sort_spec(h, s1.drop_last(), p) == Seq::<Bounds>::empty());
        assert(views(queue@).subrange(0, 1) =~= seq![s1.last()]);
    }
    while i < n
        invariant
            n == q0.len(),
            n > 0,
            1 <= i <= n,
            queue@.len() == n,
            over(q0, h),
            over(queue@, h),
            views(queue@).subrange(0, i as int) == sort_spec(h, views(q0).subrange(0, i as int), p),
            queue@.subrange(i as int, n as int) == q0.subrange(i as int, n as int),
        decreases n - i,
    {
        let ghost before = queue@;
        let x = queue.remove(i);
        let k = key(&x, p);
        assert(over(queue@, h)) by {
            assert forall|t: int| 0 <= t < queue@.len() implies queue@[t].wf() && queue@[t].hist() == h by {
                if t >= i {
                    assert(queue@[t] == before[t + 1]);
                }
            }
        }
        let mut j: usize = i;
        while j > 0 && key(&queue[j - 1], p) > k
            invariant
                0 <= j <= i < n,
                before.len() == n,
                queue@ == before.remove(i as int),
                over(queue@, h),
                k == rank(h, x@, p),
                forall|t: int| j <= t < i ==> rank(h, queue@[t]@, p) > k,
            decreases j,
        {
            j = j - 1;
        }
        queue.insert(j, x);
        proof {
            let s = views(before).subrange(0, i as int);
            assert(s =~= views(before.remove(i as int)).subrange(0, i as int));
            lemma_insert_at(h, s, x@, p, j as int);
            assert(views(queue@).subrange(0, i + 1) =~= s.insert(j as int, x@));
            assert(views(q0).subrange(0, i + 1).drop_last() =~= views(q0).subrange(0, i as int));
            assert(x == q0[i as int]) by {
                assert(before.subrange(i as int, n as int)[0] == q0.subrange(i as int, n as int)[0]);
            }
            assert(queue@.subrange(i + 1, n as int) =~= q0.subrange(i + 1, n as int)) by {
                assert forall|t: int| i + 1 <= t < n implies queue@[t] == q0[t] by {
                    assert(queue@[t] == before[t]);
                    assert(before.subrange(i as int, n as int)[t - i] == q0.subrange(i as int, n as int)[t - i]);
                }
            }
        }
        i = i + 1;
    }
    assert(views(queue@).subrange(0, n as int) =~= views(queue@));
    assert(views(q0).subrange(0, n as int) =~= views(q0));
}

/// The worklist after a refinement pass with at most `fuel` more steps, where
/// `color` counts the boxes produced so far and the pass stops once it reaches
/// `target`.
pub open spec fn iterate_spec(
    h: Seq<u64>,
    q: Seq<Bounds>,
    p: Priority,
    target: int,
    color: int,
    fuel: nat,
) -> Seq<Bounds>
    decreases fuel,
{
    if fuel == 0 || q.len() == 0 {
        q
    } else if population(h, q.last()) == 0 {
        iterate_spec(h, sort_spec(h, q, p), p, target, color, (fuel - 1) as nat)
    } else {
        let parts = median_cut(h, q.last());
        let grown = if parts.len() == 2 {
            color + 1
        } else {
            color
        };
        let next = sort_spec(h, q.drop_last() + parts, p);
        if grown >= target {
            next
        } else {
            iterate_spec(h, next, p, target, grown, (fuel - 1) as nat)
        }
    }
}

/// Repeatedly splits the box with the largest key until `target` boxes have
/// been produced or the step budget is spent.
fn iterate(queue: &mut Vec<VBox>, p: Priority, target: u32, Ghost(h): Ghost<Seq<u64>>)
    requires
        over(old(queue)@, h),
    ensures
        over(final(queue)@, h),
        views(final(queue)@) == iterate_spec(h, views(old(queue)@), p, target as int, 1, 1000),
{
    let mut color: u32 = 1;
    let mut it: u16 = 0;
    while it < MAX_ITERATIONS
        invariant
            over(queue@, h),
            1 <= color <= 1 + it,
            it <= 1000,
            iterate_spec(h, views(queue@), p, target as int, color as int, (1000 - it) as nat)
                == iterate_spec(h, views(old(queue)@), p, target as int, 1, 1000),
        decreases 1000 - it,
    {
        let n = queue.len();
        if n == 0 {
            assert(views(queue@).len() == 0);
            return;
        }
        let ghost vq = views(queue@);
        let ghost old_color = color;
        assert(vq.last() == queue@[n - 1]@);
        if queue[n - 1].get_count() == 0 {
            sort_boxes(queue, p);
        } else {
            let vbox = match queue.pop() {
                Some(v) => v,
                None => {
                    return;
                },
            };
            let ghost rest = queue@;
            assert(views(rest) =~= vq.drop_last());
            let mut parts = apply_median_cut(vbox);
            let ghost cuts = median_cut(h, vbox@);
            let first = parts.remove(0);
            queue.push(first);
            if parts.len() == 1 {
                let second = parts.remove(0);
                queue.push(second);
                color = color + 1;
                assert(views(queue@) =~= vq.drop_last() + cuts);
            } else {
                assert(views(queue@) =~= vq.drop_last() + cuts);
            }
            sort_boxes(queue, p);
            if color >= target {
                assert(iterate_spec(h, vq, p, target as int, old_color as int, (1000 - it) as nat)
                    == views(queue@));
                return;
            }
        }
        it = it + 1;
    }
}

/// Histogram of the accepted samples of a buffer.
pub open spec fn sampled_histogram(px: Seq<u8>, enc: PixelEncoding, q: int, ignore_white: bool) -> Seq<u64> {
    Seq::new(32768, |i: int| tally(px, enc, q, ignore_white, i, 0) as u64)
}

/// Box bounding the accepted samples of a buffer.
pub open spec fn sampled_bounds(px: Seq<u8>, enc: PixelEncoding, q: int, ignore_white: bool) -> Bounds {
    Bounds {
        r_min: low(px, enc, q, ignore_white, ColorChannel::R, 0) as u8,
        r_max: high(px, enc, q, ignore_white, ColorChannel::R, 0) as u8,
        g_min: low(px, enc, q, ignore_white, ColorChannel::G, 0) as u8,
        g_max: high(px, enc, q, ignore_white, ColorChannel::G, 0) as u8,
        b_min: low(px, enc, q, ignore_white, ColorChannel::B, 0) as u8,
        b_max: high(px, enc, q, ignore_white, ColorChannel::B, 0) as u8,
    }
}

/// Target of the first pass: three quarters of the palette size, rounded up.
pub open spec fn first_target(max_colors: int) -> int {
    (3 * max_colors + 3) / 4
}

/// The final worklist: a pass by population up to `first_target`, then a
/// re-sort and a pass by population times volume for the colors still wanted.
pub open spec fn refine(h: Seq<u64>, root: Bounds, max_colors: int) -> Seq<Bounds> {
    let q1 = if first_target(max_colors) > 1 {
        iterate_spec(h, seq![root], Priority::Count, first_target(max_colors), 1, 1000)
    } else {
        seq![root]
    };
    let q2 = sort_spec(h, q1, Priority::Product);
    if max_colors > q2.len() {
        iterate_spec(h, q2, Priority::Product, max_colors - q2.len(), 1, 1000)
    } else {
        q2
    }
}

/// Average colors of the final worklist, last box first.
pub open spec fn palette_of(h: Seq<u64>, root: Bounds, max_colors: int) -> Seq<Color> {
    let q = refine(h, root, max_colors);
    Seq::new(q.len(), |i: int| average_of(h, q[q.len() - 1 - i]))
}

/// The palette extracted from a buffer.
pub open spec fn palette(
    px: Seq<u8>,
    enc: PixelEncoding,
    q: int,
    max_colors: int,
    ignore_white: bool,
) -> Seq<Color> {
    palette_of(sampled_histogram(px, enc, q, ignore_white), sampled_bounds(px, enc, q, ignore_white), max_colors)
}

/// Extracts the palette of `pixels`, sampling every `quality`-th pixel: at
/// most `max_colors` colors (one when `max_colors` is 0), most dominant first.
pub fn extract_colors(
    pixels: &[u8],
    encoding: PixelEncoding,
    quality: u8,
    max_colors: u8,
    ignore_white: bool,
) -> (r: Vec<Color>)
    requires
        quality >= 1,
    ensures
        r@ == palette(pixels@, encoding, quality as int, max_colors as int, ignore_white),
{
    let vbox = create_histogram_and_vbox(pixels, encoding, quality, ignore_white);
    let ghost h = vbox.hist();
    let ghost root = vbox@;
    assert(h =~= sampled_histogram(pixels@, encoding, quality as int, ignore_white));
    assert(root == sampled_bounds(pixels@, encoding, quality as int, ignore_white));
    let mut pq: Vec<VBox> = Vec::new();
    pq.push(vbox);
    assert(views(pq@) =~= seq![root]);
    let target: u32 = (3 * max_colors as u32 + 3) / 4;
    // a pass always splits once before it looks at its target, so it runs
    // only while colors are still wanted
    if target > 1 {
        iterate(&mut pq, Priority::Count, target, Ghost(h));
    }
    let ghost q1 = views(pq@);
    sort_boxes(&mut pq, Priority::Product);
    let len_before = pq.len();
    if (max_colors as usize) > len_before {
        iterate(&mut pq, Priority::Product, (max_colors as usize - len_before) as u32, Ghost(h));
    }
    let ghost fin = views(pq@);
    assert(fin == refine(h, root, max_colors as int));
    let n = pq.len();
    let mut colors: Vec<Color> = Vec::new();
    let mut i: usize = n;
    while i > 0
        invariant
            i <= n,
            n == pq@.len(),
            over(pq@, h),
            fin == views(pq@),
            colors@.len() == n - i,
            forall|t: int| 0 <= t < n - i ==> colors@[t] == average_of(h, fin[n - 1 - t]),
        decreases i,
    {
        i = i - 1;
        colors.push(pq[i].get_average());
    }
    assert(colors@ =~= palette_of(h, root, max_colors as int));
    colors
}

} // verus!
