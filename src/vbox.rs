use vstd::prelude::*;

use std::rc::Rc;

use crate::types::{Color, ColorChannel};
use crate::util::{color_index_from, index_of};

verus! {

/// Inclusive bounds of a box of the color cube along its three axes.
#[derive(Copy, Clone, PartialEq, Eq, Structural, Debug)]
pub struct Bounds {
    pub r_min: u8,
    pub r_max: u8,
    pub g_min: u8,
    pub g_max: u8,
    pub b_min: u8,
    pub b_max: u8,
}

impl Bounds {
    pub open spec fn lo(self, c: ColorChannel) -> int {
        match c {
            ColorChannel::R => self.r_min as int,
            ColorChannel::G => self.g_min as int,
            ColorChannel::B => self.b_min as int,
        }
    }

    pub open spec fn hi(self, c: ColorChannel) -> int {
        match c {
            ColorChannel::R => self.r_max as int,
            ColorChannel::G => self.g_max as int,
            ColorChannel::B => self.b_max as int,
        }
    }

    /// The same box with its upper bound on axis `c` moved to `v`.
    pub open spec fn with_max(self, c: ColorChannel, v: u8) -> Bounds {
        match c {
            ColorChannel::R => Bounds { r_max: v, ..self },
            ColorChannel::G => Bounds { g_max: v, ..self },
            ColorChannel::B => Bounds { b_max: v, ..self },
        }
    }

    /// The same box with its lower bound on axis `c` moved to `v`.
    pub open spec fn with_min(self, c: ColorChannel, v: u8) -> Bounds {
        match c {
            ColorChannel::R => Bounds { r_min: v, ..self },
            ColorChannel::G => Bounds { g_min: v, ..self },
            ColorChannel::B => Bounds { b_min: v, ..self },
        }
    }

    /// Every upper bound lies inside the cube.
    pub open spec fn in_cube(self) -> bool {
        self.r_max < 32 && self.g_max < 32 && self.b_max < 32
    }

    /// No axis of the box is empty.
    pub open spec fn non_empty(self) -> bool {
        self.r_min <= self.r_max && self.g_min <= self.g_max && self.b_min <= self.b_max
    }
}

/// Scaled center of cube coordinate `c`: `(c + 0.5) * 8`.
pub open spec fn center(c: int) -> int {
    8 * c + 4
}

/// What one cell adds to a sum: its population (`k == 0`), or its population
/// times the scaled center of its red (`k == 1`), green (`k == 2`) or blue
/// (`k == 3`) coordinate.
pub open spec fn cell_value(h: Seq<u64>, k: int, r: int, g: int, b: int) -> int {
    let n = h[index_of(r, g, b)] as int;
    if k == 1 {
        n * center(r)
    } else if k == 2 {
        n * center(g)
    } else if k == 3 {
        n * center(b)
    } else {
        n
    }
}

/// Sum of `cell_value` over the blue coordinates `bl..=bh` at `(r, g)`.
pub open spec fn row_sum(h: Seq<u64>, k: int, r: int, g: int, bl: int, bh: int) -> int
    decreases bh + 1 - bl,
{
    if bh < bl {
        0
    } else {
        row_sum(h, k, r, g, bl, bh - 1) + cell_value(h, k, r, g, bh)
    }
}

/// Sum of `cell_value` over `gl..=gh` by `bl..=bh` at red coordinate `r`.
pub open spec fn plane_sum(h: Seq<u64>, k: int, r: int, gl: int, gh: int, bl: int, bh: int) -> int
    decreases gh + 1 - gl,
{
    if gh < gl {
        0
    } else {
        plane_sum(h, k, r, gl, gh - 1, bl, bh) + row_sum(h, k, r, gh, bl, bh)
    }
}

/// Sum of `cell_value` over the cells `rl..=rh` by `gl..=gh` by `bl..=bh`.
pub open spec fn cube_sum(
    h: Seq<u64>,
    k: int,
    rl: int,
    rh: int,
    gl: int,
    gh: int,
    bl: int,
    bh: int,
) -> int
    decreases rh + 1 - rl,
{
    if rh < rl {
        0
    } else {
        cube_sum(h, k, rl, rh - 1, gl, gh, bl, bh) + plane_sum(h, k, rh, gl, gh, bl, bh)
    }
}

/// Sum of `cell_value` over the cells of a box.
pub open spec fn box_sum(h: Seq<u64>, k: int, b: Bounds) -> int {
    cube_sum(
        h,
        k,
        b.r_min as int,
        b.r_max as int,
        b.g_min as int,
        b.g_max as int,
        b.b_min as int,
        b.b_max as int,
    )
}

/// Population of a box: the samples that fall in its cells.
pub open spec fn population(h: Seq<u64>, b: Bounds) -> int {
    box_sum(h, 0, b)
}

/// Number of coordinates in `lo..=hi`.
pub open spec fn extent(lo: int, hi: int) -> int {
    if lo <= hi {
        hi - lo + 1
    } else {
        0
    }
}

/// Number of cells of a box.
pub open spec fn volume_of(b: Bounds) -> int {
    extent(b.r_min as int, b.r_max as int) * extent(b.g_min as int, b.g_max as int) * extent(
        b.b_min as int,
        b.b_max as int,
    )
}

/// Channel of an empty box: the scaled midpoint of its bounds, at most 255.
pub open spec fn midpoint(lo: u8, hi: u8) -> u8 {
    let m = 4 * (lo + hi + 1);
    if m > 255 {
        255
    } else {
        m as u8
    }
}

/// Average color of a box: the population-weighted mean of the scaled cell
/// centers, truncated; the scaled midpoint of the bounds when it is empty.
pub open spec fn average_of(h: Seq<u64>, b: Bounds) -> Color {
    let n = box_sum(h, 0, b);
    if n > 0 {
        Color {
            r: (box_sum(h, 1, b) / n) as u8,
            g: (box_sum(h, 2, b) / n) as u8,
            b: (box_sum(h, 3, b) / n) as u8,
        }
    } else {
        Color {
            r: midpoint(b.r_min, b.r_max),
            g: midpoint(b.g_min, b.g_max),
            b: midpoint(b.b_min, b.b_max),
        }
    }
}

/// Largest value a histogram cell can hold, plus one.
pub open spec fn cell_cap() -> int {
    0x1_0000_0000_0000_0000
}

/// The four sums of a row, a plane or a box, and the bounds that keep them
/// inside `u128`.
pub open spec fn sums_ok(s: (u128, u128, u128, u128), count_cap: int) -> bool {
    &&& s.0 <= count_cap
    &&& s.1 <= 252 * s.0
    &&& s.2 <= 252 * s.0
    &&& s.3 <= 252 * s.0
}

fn row_sums(h: &Vec<u64>, r: u8, g: u8, bl: u8, bh: u8) -> (s: (u128, u128, u128, u128))
    requires
        h@.len() == 32768,
        r < 32,
        g < 32,
        bh < 32,
    ensures
        s.0 == row_sum(h@, 0, r as int, g as int, bl as int, bh as int),
        s.1 == row_sum(h@, 1, r as int, g as int, bl as int, bh as int),
        s.2 == row_sum(h@, 2, r as int, g as int, bl as int, bh as int),
        s.3 == row_sum(h@, 3, r as int, g as int, bl as int, bh as int),
        sums_ok(s, 32 * cell_cap()),
{
    let mut s: (u128, u128, u128, u128) = (0, 0, 0, 0);
    if bl > bh {
        return s;
    }
    let mut b: u8 = bl;
    while b <= bh
        invariant
            h@.len() == 32768,
            r < 32,
            g < 32,
            bh < 32,
            bl <= b <= bh + 1,
            s.0 == row_sum(h@, 0, r as int, g as int, bl as int, b - 1),
            s.1 == row_sum(h@, 1, r as int, g as int, bl as int, b - 1),
            s.2 == row_sum(h@, 2, r as int, g as int, bl as int, b - 1),
            s.3 == row_sum(h@, 3, r as int, g as int, bl as int, b - 1),
            s.0 <= (b - bl) * cell_cap(),
            sums_ok(s, 32 * cell_cap()),
        decreases bh + 1 - b,
    {
        let n = h[color_index_from(r, g, b) as usize] as u128;
        assert(n * center(r as int) <= 252 * n && n * center(g as int) <= 252 * n && n * center(
            b as int,
        ) <= 252 * n) by (nonlinear_arith)
            requires
                r < 32,
                g < 32,
                b < 32,
        ;
        s = (
            s.0 + n,
            s.1 + n * (8 * r as u128 + 4),
            s.2 + n * (8 * g as u128 + 4),
            s.3 + n * (8 * b as u128 + 4),
        );
        b = b + 1;
    }
    s
}

fn plane_sums(h: &Vec<u64>, r: u8, gl: u8, gh: u8, bl: u8, bh: u8) -> (s: (u128, u128, u128, u128))
    requires
        h@.len() == 32768,
        r < 32,
        gh < 32,
        bh < 32,
    ensures
        s.0 == plane_sum(h@, 0, r as int, gl as int, gh as int, bl as int, bh as int),
        s.1 == plane_sum(h@, 1, r as int, gl as int, gh as int, bl as int, bh as int),
        s.2 == plane_sum(h@, 2, r as int, gl as int, gh as int, bl as int, bh as int),
        s.3 == plane_sum(h@, 3, r as int, gl as int, gh as int, bl as int, bh as int),
        sums_ok(s, 1024 * cell_cap()),
{
    let mut s: (u128, u128, u128, u128) = (0, 0, 0, 0);
    if gl > gh {
        return s;
    }
    let mut g: u8 = gl;
    while g <= gh
        invariant
            h@.len() == 32768,
            r < 32,
            gh < 32,
            bh < 32,
            gl <= g <= gh + 1,
            s.0 == plane_sum(h@, 0, r as int, gl as int, g - 1, bl as int, bh as int),
            s.1 == plane_sum(h@, 1, r as int, gl as int, g - 1, bl as int, bh as int),
            s.2 == plane_sum(h@, 2, r as int, gl as int, g - 1, bl as int, bh as int),
            s.3 == plane_sum(h@, 3, r as int, gl as int, g - 1, bl as int, bh as int),
            s.0 <= (g - gl) * (32 * cell_cap()),
            sums_ok(s, 1024 * cell_cap()),
        decreases gh + 1 - g,
    {
        let t = row_sums(h, r, g, bl, bh);
        proof {
            lemma_accumulate(s.0 as int, t.0 as int, g - gl, 32 * cell_cap());
        }
        s = (s.0 + t.0, s.1 + t.1, s.2 + t.2, s.3 + t.3);
        g = g + 1;
    }
    s
}

/// The population of the cells of `b` and its three weighted sums.
pub(crate) fn box_sums(h: &Vec<u64>, b: Bounds) -> (s: (u128, u128, u128, u128))
    requires
        h@.len() == 32768,
        b.in_cube(),
    ensures
        s.0 == box_sum(h@, 0, b),
        s.1 == box_sum(h@, 1, b),
        s.2 == box_sum(h@, 2, b),
        s.3 == box_sum(h@, 3, b),
        sums_ok(s, 32768 * cell_cap()),
{
    let mut s: (u128, u128, u128, u128) = (0, 0, 0, 0);
    if b.r_min > b.r_max {
        return s;
    }
    let mut r: u8 = b.r_min;
    while r <= b.r_max
        invariant
            h@.len() == 32768,
            b.in_cube(),
            b.r_min <= r <= b.r_max + 1,
            s.0 == cube_sum(h@, 0, b.r_min as int, r - 1, b.g_min as int, b.g_max as int, b.b_min as int, b.b_max as int),
            s.1 == cube_sum(h@, 1, b.r_min as int, r - 1, b.g_min as int, b.g_max as int, b.b_min as int, b.b_max as int),
            s.2 == cube_sum(h@, 2, b.r_min as int, r - 1, b.g_min as int, b.g_max as int, b.b_min as int, b.b_max as int),
            s.3 == cube_sum(h@, 3, b.r_min as int, r - 1, b.g_min as int, b.g_max as int, b.b_min as int, b.b_max as int),
            s.0 <= (r - b.r_min) * (1024 * cell_cap()),
            sums_ok(s, 32768 * cell_cap()),
        decreases b.r_max + 1 - r,
    {
        let t = plane_sums(h, r, b.g_min, b.g_max, b.b_min, b.b_max);
        proof {
            lemma_accumulate(s.0 as int, t.0 as int, r - b.r_min, 1024 * cell_cap());
        }
        s = (s.0 + t.0, s.1 + t.1, s.2 + t.2, s.3 + t.3);
        r = r + 1;
    }
    s
}

/// A box has at most as many cells as the cube.
pub proof fn lemma_volume_bound(b: Bounds)
    requires
        b.in_cube(),
    ensures
        0 <= volume_of(b) <= 32768,
{
    let er = extent(b.r_min as int, b.r_max as int);
    let eg = extent(b.g_min as int, b.g_max as int);
    let eb = extent(b.b_min as int, b.b_max as int);
    assert(0 <= er * eg <= 1024 && 0 <= er * eg * eb <= 32768) by (nonlinear_arith)
        requires
            0 <= er <= 32,
            0 <= eg <= 32,
            0 <= eb <= 32,
    ;
}

/// Extent of `lo..=hi` as a count.
fn extent_of(lo: u8, hi: u8) -> (e: u32)
    ensures
        e == extent(lo as int, hi as int),
{
    if lo <= hi {
        hi as u32 - lo as u32 + 1
    } else {
        0
    }
}

/// The scaled midpoint of `lo..=hi`, at most 255.
fn midpoint_of(lo: u8, hi: u8) -> (m: u8)
    ensures
        m == midpoint(lo, hi),
{
    let m: u32 = 4 * (lo as u32 + hi as u32 + 1);
    if m > 255 {
        255
    } else {
        m as u8
    }
}

/// Population, volume and average color of the box `b`.
fn box_stats(h: &Vec<u64>, b: Bounds) -> (st: (u128, u32, Color))
    requires
        h@.len() == 32768,
        b.in_cube(),
    ensures
        st.0 == population(h@, b),
        st.0 <= 32768 * cell_cap(),
        st.1 == volume_of(b),
        st.2 == average_of(h@, b),
{
    let s = box_sums(h, b);
    let er = extent_of(b.r_min, b.r_max);
    let eg = extent_of(b.g_min, b.g_max);
    let eb = extent_of(b.b_min, b.b_max);
    assert(er * eg <= 1024 && er * eg * eb <= 32768) by (nonlinear_arith)
        requires
            er <= 32,
            eg <= 32,
            eb <= 32,
    ;
    let volume = er * eg * eb;
    let average = if s.0 > 0 {
        proof {
            lemma_mean_bound(s.1 as int, s.0 as int);
            lemma_mean_bound(s.2 as int, s.0 as int);
            lemma_mean_bound(s.3 as int, s.0 as int);
        }
        Color::new((s.1 / s.0) as u8, (s.2 / s.0) as u8, (s.3 / s.0) as u8)
    } else {
        Color::new(
            midpoint_of(b.r_min, b.r_max),
            midpoint_of(b.g_min, b.g_max),
            midpoint_of(b.b_min, b.b_max),
        )
    };
    (s.0, volume, average)
}

/// Adding at most `c` to a sum of `i` terms of at most `c` each.
pub(crate) proof fn lemma_accumulate(a: int, t: int, i: int, c: int) by (nonlinear_arith)
    requires
        0 <= i < 32,
        0 <= c,
        a <= i * c,
        t <= c,
    ensures
        a + t <= (i + 1) * c,
        (i + 1) * c <= 32 * c,
{
}

proof fn lemma_mean_bound(s: int, n: int)
    requires
        n > 0,
        0 <= s <= 252 * n,
    ensures
        0 <= s / n <= 252,
{
    vstd::arithmetic::div_mod::lemma_div_is_ordered(s, 252 * n, n);
    vstd::arithmetic::div_mod::lemma_div_multiples_vanish(252, n);
    vstd::arithmetic::div_mod::lemma_div_pos_is_pos(s, n);
}

/// Relies on `Rc::clone`: the new handle points to the same histogram.
#[verifier::external_body]
fn share(h: &Rc<Vec<u64>>) -> (r: Rc<Vec<u64>>)
    ensures
        *r == **h,
{
    Rc::clone(h)
}

/// A box of the quantized color cube over a shared histogram, with its
/// population, volume and average color kept up to date.
pub struct VBox {
    bounds: Bounds,
    histogram: Rc<Vec<u64>>,
    volume: u32,
    count: u128,
    average: Color,
}

impl View for VBox {
    type V = Bounds;

    closed spec fn view(&self) -> Bounds {
        self.bounds
    }
}

impl VBox {
    /// The histogram that the box counts in.
    pub closed spec fn hist(&self) -> Seq<u64> {
        (*self.histogram)@
    }

    /// The cached statistics are those of the current bounds.
    pub closed spec fn stats_ok(&self) -> bool {
        &&& self.count == population(self.hist(), self.bounds)
        &&& self.count <= 32768 * cell_cap()
        &&& self.volume == volume_of(self.bounds)
        &&& self.average == average_of(self.hist(), self.bounds)
    }

    pub open spec fn wf(&self) -> bool {
        &&& self.hist().len() == 32768
        &&& self@.in_cube()
        &&& self.stats_ok()
    }

    fn refresh(&mut self)
        requires
            old(self).hist().len() == 32768,
            old(self)@.in_cube(),
        ensures
            final(self).wf(),
            final(self)@ == old(self)@,
            final(self).hist() == old(self).hist(),
    {
        let st = box_stats(&*self.histogram, self.bounds);
        self.count = st.0;
        self.volume = st.1;
        self.average = st.2;
    }

    pub(crate) fn histogram(&self) -> (h: &Vec<u64>)
        ensures
            h@ == self.hist(),
    {
        &*self.histogram
    }

    pub(crate) fn bounds(&self) -> (b: Bounds)
        ensures
            b == self@,
    {
        self.bounds
    }

    /// Creates a box with the given bounds over `histogram`.
    pub fn new(
        r_min: u8,
        r_max: u8,
        g_min: u8,
        g_max: u8,
        b_min: u8,
        b_max: u8,
        histogram: Rc<Vec<u64>>,
    ) -> (v: VBox)
        requires
            r_max < 32,
            g_max < 32,
            b_max < 32,
            (*histogram)@.len() == 32768,
        ensures
            v.wf(),
            v@ == (Bounds { r_min, r_max, g_min, g_max, b_min, b_max }),
            v.hist() == (*histogram)@,
    {
        let mut n = VBox {
            bounds: Bounds { r_min, r_max, g_min, g_max, b_min, b_max },
            histogram,
            volume: 0,
            count: 0,
            average: Color::new(0, 0, 0),
        };
        n.refresh();
        n
    }

    /// A copy of `other` that shares its histogram.
    pub fn new_from(other: &VBox) -> (v: VBox)
        requires
            other.wf(),
        ensures
            v.wf(),
            v@ == other@,
            v.hist() == other.hist(),
    {
        VBox {
            bounds: other.bounds,
            histogram: share(&other.histogram),
            volume: other.volume,
            count: other.count,
            average: other.average,
        }
    }

    pub fn r_range(&self) -> (r: std::ops::Range<u8>)
        requires
            self.wf(),
        ensures
            r.start == self@.r_min,
            r.end == self@.r_max + 1,
    {
        self.bounds.r_min..(self.bounds.r_max + 1)
    }

    pub fn g_range(&self) -> (r: std::ops::Range<u8>)
        requires
            self.wf(),
        ensures
            r.start == self@.g_min,
            r.end == self@.g_max + 1,
    {
        self.bounds.g_min..(self.bounds.g_max + 1)
    }

    pub fn b_range(&self) -> (r: std::ops::Range<u8>)
        requires
            self.wf(),
        ensures
            r.start == self@.b_min,
            r.end == self@.b_max + 1,
    {
        self.bounds.b_min..(self.bounds.b_max + 1)
    }

    pub fn get_r_min(&self) -> (v: u8)
        ensures
            v == self@.r_min,
    {
        self.bounds.r_min
    }

    pub fn get_r_max(&self) -> (v: u8)
        ensures
            v == self@.r_max,
    {
        self.bounds.r_max
    }

    pub fn get_g_min(&self) -> (v: u8)
        ensures
            v == self@.g_min,
    {
        self.bounds.g_min
    }

    pub fn get_g_max(&self) -> (v: u8)
        ensures
            v == self@.g_max,
    {
        self.bounds.g_max
    }

    pub fn get_b_min(&self) -> (v: u8)
        ensures
            v == self@.b_min,
    {
        self.bounds.b_min
    }

    pub fn get_b_max(&self) -> (v: u8)
        ensures
            v == self@.b_max,
    {
        self.bounds.b_max
    }

    /// Moves the lower bound on axis `channel` to `v` and recomputes the
    /// statistics.
    pub fn set_min(&mut self, v: u8, channel: &ColorChannel)
        requires
            old(self).wf(),
        ensures
            final(self).wf(),
            final(self)@ == old(self)@.with_min(*channel, v),
            final(self).hist() == old(self).hist(),
    {
        match channel {
            ColorChannel::R => {
                self.bounds.r_min = v;
            },
            ColorChannel::G => {
                self.bounds.g_min = v;
            },
            ColorChannel::B => {
                self.bounds.b_min = v;
            },
        }
        self.refresh();
    }

    /// Moves the upper bound on axis `channel` to `v` and recomputes the
    /// statistics.
    pub fn set_max(&mut self, v: u8, channel: &ColorChannel)
        requires
            old(self).wf(),
            v < 32,
        ensures
            final(self).wf(),
            final(self)@ == old(self)@.with_max(*channel, v),
            final(self).hist() == old(self).hist(),
    {
        match channel {
            ColorChannel::R => {
                self.bounds.r_max = v;
            },
            ColorChannel::G => {
                self.bounds.g_max = v;
            },
            ColorChannel::B => {
                self.bounds.b_max = v;
            },
        }
        self.refresh();
    }

    /// Population of the box.
    pub fn get_count(&self) -> (c: u128)
        requires
            self.wf(),
        ensures
            c == population(self.hist(), self@),
            c <= 32768 * cell_cap(),
    {
        self.count
    }

    /// Number of cells of the box.
    pub fn get_volume(&self) -> (v: u32)
        requires
            self.wf(),
        ensures
            v == volume_of(self@),
    {
        self.volume
    }

    /// Average color of the box.
    pub fn get_average(&self) -> (c: Color)
        requires
            self.wf(),
        ensures
            c == average_of(self.hist(), self@),
    {
        self.average
    }

    /// The axis with the largest extent; the first of R, G, B on a tie.
    pub fn widest_color_channel(&self) -> (c: ColorChannel)
        requires
            self.wf(),
            self@.non_empty(),
        ensures
            c == widest(self@),
    {
        let r_width = self.bounds.r_max - self.bounds.r_min;
        let g_width = self.bounds.g_max - self.bounds.g_min;
        let b_width = self.bounds.b_max - self.bounds.b_min;
        if r_width >= g_width && r_width >= b_width {
            ColorChannel::R
        } else if g_width >= b_width {
            ColorChannel::G
        } else {
            ColorChannel::B
        }
    }
}

/// The axis of largest extent, ties going to R, then G, then B.
pub open spec fn widest(b: Bounds) -> ColorChannel {
    let rw = b.r_max - b.r_min;
    let gw = b.g_max - b.g_min;
    let bw = b.b_max - b.b_min;
    if rw >= gw && rw >= bw {
        ColorChannel::R
    } else if gw >= bw {
        ColorChannel::G
    } else {
        ColorChannel::B
    }
}

} // verus!
