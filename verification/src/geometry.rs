//! The fixed region table and the canonical enumeration of void pixels.
//!
//! A void pixel is a coordinate inside one of seventeen fixed rectangles of
//! the 64x64 canvas, areas that carry no visible content and may hold hidden
//! data.  Their enumeration order (table order, then row-major within each
//! rectangle) is the addressing scheme for payload bytes, and the marker
//! pixel at (0, 0) is the first coordinate of the first rectangle.

use vstd::prelude::*;
use vstd::arithmetic::div_mod::{
    lemma_fundamental_div_mod, lemma_fundamental_div_mod_converse, lemma_div_pos_is_pos,
    lemma_mod_pos_bound, lemma_multiply_divide_lt,
};

verus! {

/// Width and height of the fixed canvas, in pixels.
pub const CANVAS: u32 = 64;

/// Column of the reserved marker pixel.
pub const MARKER_X: u32 = 0;

/// Row of the reserved marker pixel.
pub const MARKER_Y: u32 = 0;

/// Number of rectangles in the fixed region table.
pub const REGION_COUNT: usize = 17;

/// Number of void pixels, marker included.
pub const CLEAR_PIXEL_COUNT: usize = 832;

/// Number of void pixels usable for payload bytes (marker excluded).
pub const PAYLOAD_PIXEL_COUNT: usize = 831;

/// An axis-aligned half-open rectangle of pixel coordinates:
/// `min_x <= x < max_x`, `min_y <= y < max_y`.
#[derive(Clone, Copy)]
pub struct Region {
    pub min_x: u32,
    pub min_y: u32,
    pub max_x: u32,
    pub max_y: u32,
}

impl Region {
    /// A non-empty rectangle lying inside the canvas.
    pub open spec fn wf(self) -> bool {
        &&& self.min_x < self.max_x
        &&& self.max_x <= CANVAS
        &&& self.min_y < self.max_y
        &&& self.max_y <= CANVAS
    }

    pub open spec fn width(self) -> int {
        self.max_x - self.min_x
    }

    pub open spec fn height(self) -> int {
        self.max_y - self.min_y
    }

    pub open spec fn area(self) -> int {
        self.width() * self.height()
    }

    /// Whether coordinate `c` lies inside this rectangle.
    pub open spec fn contains_coord(self, c: (u32, u32)) -> bool {
        &&& self.min_x <= c.0 < self.max_x
        &&& self.min_y <= c.1 < self.max_y
    }

    /// The rectangle's pixels in row-major order: top row first, and within
    /// each row left to right.
    pub open spec fn pixels(self) -> Seq<(u32, u32)> {
        Seq::new(self.area() as nat, |i: int| (
            (self.min_x + i % self.width()) as u32,
            (self.min_y + i / self.width()) as u32,
        ))
    }
}

/// The fixed, ordered table of void regions.  The order is part of the wire
/// format: it fixes the byte-to-pixel mapping, so it must never change.
pub open spec fn region_table() -> Seq<Region> {
    seq![
        Region { min_x: 0, min_y: 0, max_x: 8, max_y: 8 },
        Region { min_x: 24, min_y: 0, max_x: 40, max_y: 8 },
        Region { min_x: 56, min_y: 0, max_x: 64, max_y: 8 },
        Region { min_x: 0, min_y: 16, max_x: 4, max_y: 20 },
        Region { min_x: 12, min_y: 16, max_x: 20, max_y: 20 },
        Region { min_x: 36, min_y: 16, max_x: 44, max_y: 20 },
        Region { min_x: 52, min_y: 16, max_x: 56, max_y: 20 },
        Region { min_x: 0, min_y: 32, max_x: 4, max_y: 36 },
        Region { min_x: 12, min_y: 32, max_x: 20, max_y: 36 },
        Region { min_x: 36, min_y: 32, max_x: 44, max_y: 36 },
        Region { min_x: 52, min_y: 32, max_x: 56, max_y: 36 },
        Region { min_x: 0, min_y: 48, max_x: 4, max_y: 52 },
        Region { min_x: 12, min_y: 48, max_x: 20, max_y: 52 },
        Region { min_x: 28, min_y: 48, max_x: 36, max_y: 52 },
        Region { min_x: 44, min_y: 48, max_x: 52, max_y: 52 },
        Region { min_x: 60, min_y: 48, max_x: 64, max_y: 52 },
        Region { min_x: 56, min_y: 16, max_x: 64, max_y: 48 },
    ]
}

/// The region table as a vector, for the enumeration loops.
pub fn region_table_vec() -> (r: Vec<Region>)
    ensures
        r@ == region_table(),
{
    let mut r: Vec<Region> = Vec::new();
    r.push(Region { min_x: 0, min_y: 0, max_x: 8, max_y: 8 });
    r.push(Region { min_x: 24, min_y: 0, max_x: 40, max_y: 8 });
    r.push(Region { min_x: 56, min_y: 0, max_x: 64, max_y: 8 });
    r.push(Region { min_x: 0, min_y: 16, max_x: 4, max_y: 20 });
    r.push(Region { min_x: 12, min_y: 16, max_x: 20, max_y: 20 });
    r.push(Region { min_x: 36, min_y: 16, max_x: 44, max_y: 20 });
    r.push(Region { min_x: 52, min_y: 16, max_x: 56, max_y: 20 });
    r.push(Region { min_x: 0, min_y: 32, max_x: 4, max_y: 36 });
    r.push(Region { min_x: 12, min_y: 32, max_x: 20, max_y: 36 });
    r.push(Region { min_x: 36, min_y: 32, max_x: 44, max_y: 36 });
    r.push(Region { min_x: 52, min_y: 32, max_x: 56, max_y: 36 });
    r.push(Region { min_x: 0, min_y: 48, max_x: 4, max_y: 52 });
    r.push(Region { min_x: 12, min_y: 48, max_x: 20, max_y: 52 });
    r.push(Region { min_x: 28, min_y: 48, max_x: 36, max_y: 52 });
    r.push(Region { min_x: 44, min_y: 48, max_x: 52, max_y: 52 });
    r.push(Region { min_x: 60, min_y: 48, max_x: 64, max_y: 52 });
    r.push(Region { min_x: 56, min_y: 16, max_x: 64, max_y: 48 });
    assert(r@ =~= region_table());
    r
}

/// The void pixels of the first `k` regions, in table order and row-major
/// order within each region, marker included.
pub open spec fn coords_upto(k: int) -> Seq<(u32, u32)>
    decreases k,
{
    if k <= 0 {
        Seq::empty()
    } else {
        coords_upto(k - 1) + region_table()[k - 1].pixels()
    }
}

/// The clearing sequence: every void pixel, marker included.
pub open spec fn clear_coords() -> Seq<(u32, u32)> {
    coords_upto(REGION_COUNT as int)
}

/// The payload sequence: every void pixel except the marker, which is the
/// first coordinate of the clearing sequence.
pub open spec fn payload_coords() -> Seq<(u32, u32)> {
    clear_coords().drop_first()
}

/// Whether coordinate `c` lies inside some region of the table.
pub open spec fn is_void(c: (u32, u32)) -> bool {
    exists|k: int| 0 <= k < REGION_COUNT && (#[trigger] region_table()[k]).contains_coord(c)
}

/// Two rectangles with no coordinate in common.
pub open spec fn rects_disjoint(a: Region, b: Region) -> bool {
    ||| a.max_x <= b.min_x
    ||| b.max_x <= a.min_x
    ||| a.max_y <= b.min_y
    ||| b.max_y <= a.min_y
}

/// Every region of the table is a well-formed rectangle.
pub proof fn lemma_table_wf()
    ensures
        forall|k: int| 0 <= k < REGION_COUNT ==> (#[trigger] region_table()[k]).wf(),
{
    assert forall|k: int| 0 <= k < REGION_COUNT implies (#[trigger] region_table()[k]).wf() by {
        let t = region_table();
        assert(t[0].wf() && t[1].wf() && t[2].wf() && t[3].wf() && t[4].wf() && t[5].wf()
            && t[6].wf() && t[7].wf() && t[8].wf() && t[9].wf() && t[10].wf() && t[11].wf()
            && t[12].wf() && t[13].wf() && t[14].wf() && t[15].wf() && t[16].wf());
    }
}

/// Distinct regions of the table never overlap.
pub proof fn lemma_table_disjoint()
    ensures
        forall|j: int, k: int|
            0 <= j < k < REGION_COUNT ==> rects_disjoint(
                #[trigger] region_table()[j],
                #[trigger] region_table()[k],
            ),
{
    assert forall|j: int, k: int| 0 <= j < k < REGION_COUNT implies rects_disjoint(
        #[trigger] region_table()[j],
        #[trigger] region_table()[k],
    ) by {
        let t = region_table();
        assert(t[0] == region_table()[0]);
    }
}

/// The marker pixel lies in the first region of the table and in no other.
pub proof fn lemma_marker_only_region_zero()
    ensures
        region_table()[0].contains_coord((MARKER_X, MARKER_Y)),
        forall|k: int|
            1 <= k < REGION_COUNT ==> !(#[trigger] region_table()[k]).contains_coord(
                (MARKER_X, MARKER_Y),
            ),
{
    assert forall|k: int| 1 <= k < REGION_COUNT implies !(#[trigger] region_table()[k])
        .contains_coord((MARKER_X, MARKER_Y)) by {
        let t = region_table();
        assert(t[0] == region_table()[0]);
    }
}

impl Region {
    /// The pixel at enumeration offset `i` lies in the rectangle, and its
    /// coordinates determine `i`.
    pub proof fn lemma_pixel_at(self, i: int)
        requires
            self.wf(),
            0 <= i < self.area(),
        ensures
            self.contains_coord(self.pixels()[i]),
            (self.pixels()[i].1 - self.min_y) * self.width() + (self.pixels()[i].0
                - self.min_x) == i,
    {
        let w = self.width();
        lemma_mod_pos_bound(i, w);
        lemma_div_pos_is_pos(i, w);
        lemma_multiply_divide_lt(i, w, self.height());
        lemma_fundamental_div_mod(i, w);
        assert((i / w) * w + i % w == i);
    }

    /// The enumeration offset of a coordinate inside the rectangle.
    pub proof fn lemma_index_of(self, x: u32, y: u32)
        requires
            self.wf(),
            self.contains_coord((x, y)),
        ensures
            0 <= (y - self.min_y) * self.width() + (x - self.min_x) < self.area(),
            self.pixels()[(y - self.min_y) * self.width() + (x - self.min_x)] == (x, y),
    {
        let w = self.width();
        let h = self.height();
        let q = y - self.min_y;
        let r = x - self.min_x;
        let i = q * w + r;
        lemma_fundamental_div_mod_converse(i, w, q, r);
        assert(0 <= i < w * h) by (nonlinear_arith)
            requires
                0 <= r < w,
                0 <= q < h,
                i == q * w + r,
        ;
    }
}

/// The number of void pixels, marker included, is 832.
pub proof fn lemma_clear_coords_len()
    ensures
        clear_coords().len() == CLEAR_PIXEL_COUNT,
        payload_coords().len() == PAYLOAD_PIXEL_COUNT,
{
    let t = region_table();
    assert(t[0].width() == 8 && t[0].height() == 8 && t[0].pixels().len() == 64);
    assert(t[1].width() == 16 && t[1].height() == 8 && t[1].pixels().len() == 128);
    assert(t[2].width() == 8 && t[2].height() == 8 && t[2].pixels().len() == 64);
    assert(t[3].width() == 4 && t[3].height() == 4 && t[3].pixels().len() == 16);
    assert(t[4].width() == 8 && t[4].height() == 4 && t[4].pixels().len() == 32);
    assert(t[5].width() == 8 && t[5].height() == 4 && t[5].pixels().len() == 32);
    assert(t[6].width() == 4 && t[6].height() == 4 && t[6].pixels().len() == 16);
    assert(t[7].width() == 4 && t[7].height() == 4 && t[7].pixels().len() == 16);
    assert(t[8].width() == 8 && t[8].height() == 4 && t[8].pixels().len() == 32);
    assert(t[9].width() == 8 && t[9].height() == 4 && t[9].pixels().len() == 32);
    assert(t[10].width() == 4 && t[10].height() == 4 && t[10].pixels().len() == 16);
    assert(t[11].width() == 4 && t[11].height() == 4 && t[11].pixels().len() == 16);
    assert(t[12].width() == 8 && t[12].height() == 4 && t[12].pixels().len() == 32);
    assert(t[13].width() == 8 && t[13].height() == 4 && t[13].pixels().len() == 32);
    assert(t[14].width() == 8 && t[14].height() == 4 && t[14].pixels().len() == 32);
    assert(t[15].width() == 4 && t[15].height() == 4 && t[15].pixels().len() == 16);
    assert(t[16].width() == 8 && t[16].height() == 32 && t[16].pixels().len() == 256);
    reveal_with_fuel(coords_upto, 18);
    assert(coords_upto(17).len() == 832);
    assert(payload_coords() == clear_coords().subrange(1, clear_coords().len() as int));
    assert(payload_coords().len() == 831);
}

/// Global position of offset `i` of region `k` within the enumeration.
pub proof fn lemma_coords_compose(n: int, k: int, i: int)
    requires
        0 <= k < n <= REGION_COUNT,
        0 <= i < region_table()[k].area(),
    ensures
        0 <= coords_upto(k).len() + i < coords_upto(n).len(),
        coords_upto(n)[coords_upto(k).len() + i] == region_table()[k].pixels()[i],
    decreases n,
{
    if k == n - 1 {
    } else {
        lemma_coords_compose(n - 1, k, i);
    }
}

/// Locate enumeration position `i`: the region it falls in and the offset
/// within that region.
pub proof fn lemma_coords_decompose(n: int, i: int) -> (r: (int, int))
    requires
        0 <= n <= REGION_COUNT,
        0 <= i < coords_upto(n).len(),
    ensures
        0 <= r.0 < n,
        0 <= r.1 < region_table()[r.0].area(),
        i == coords_upto(r.0).len() + r.1,
        coords_upto(n)[i] == region_table()[r.0].pixels()[r.1],
    decreases n,
{
    if i < coords_upto(n - 1).len() {
        lemma_coords_decompose(n - 1, i)
    } else {
        (n - 1, i - coords_upto(n - 1).len())
    }
}

/// The marker pixel is the first coordinate of the clearing sequence.
pub proof fn lemma_clear_first()
    ensures
        clear_coords().len() == CLEAR_PIXEL_COUNT,
        clear_coords()[0] == (MARKER_X, MARKER_Y),
{
    lemma_clear_coords_len();
    let r0 = region_table()[0];
    assert(r0 == Region { min_x: 0, min_y: 0, max_x: 8, max_y: 8 });
    assert(r0.max_x == 8);
    assert(r0.width() == 8);
    assert(r0.height() == 8);
    assert(r0.area() == 64);
    lemma_coords_compose(REGION_COUNT as int, 0, 0);
    assert(r0.pixels()[0] == (0u32, 0u32));
}

/// No coordinate occurs twice in the clearing sequence.
pub proof fn lemma_clear_coords_no_dup()
    ensures
        clear_coords().no_duplicates(),
{
    lemma_table_wf();
    lemma_table_disjoint();
    let n = REGION_COUNT as int;
    assert forall|i: int, j: int|
        0 <= i < j < clear_coords().len() implies clear_coords()[i] != clear_coords()[j] by {
        let d1 = lemma_coords_decompose(n, i);
        let d2 = lemma_coords_decompose(n, j);
        let (k1, o1) = d1;
        let (k2, o2) = d2;
        let t1 = region_table()[k1];
        let t2 = region_table()[k2];
        t1.lemma_pixel_at(o1);
        t2.lemma_pixel_at(o2);
        if clear_coords()[i] == clear_coords()[j] {
            if k1 == k2 {
                assert(o1 == o2);
                assert(i == j);
            } else if k1 < k2 {
                assert(rects_disjoint(t1, t2));
            } else {
                assert(rects_disjoint(t2, t1));
            }
        }
    }
}

/// No coordinate occurs twice in the payload sequence either.
pub proof fn lemma_payload_no_dup()
    ensures
        payload_coords().no_duplicates(),
{
    lemma_clear_coords_no_dup();
    assert forall|i: int, j: int|
        0 <= i < j < payload_coords().len() implies payload_coords()[i] != payload_coords()[j] by {
        assert(payload_coords()[i] == clear_coords()[i + 1]);
        assert(payload_coords()[j] == clear_coords()[j + 1]);
    }
}

/// Every coordinate of the clearing sequence lies inside the canvas, inside
/// some region, and only the first one is the marker.
pub proof fn lemma_clear_coord_facts(i: int)
    requires
        0 <= i < CLEAR_PIXEL_COUNT,
    ensures
        clear_coords().len() == CLEAR_PIXEL_COUNT,
        clear_coords()[i].0 < CANVAS,
        clear_coords()[i].1 < CANVAS,
        is_void(clear_coords()[i]),
        i > 0 ==> clear_coords()[i] != (MARKER_X, MARKER_Y),
{
    lemma_clear_coords_len();
    lemma_table_wf();
    let d = lemma_coords_decompose(REGION_COUNT as int, i);
    region_table()[d.0].lemma_pixel_at(d.1);
    if i > 0 {
        lemma_clear_first();
        lemma_clear_coords_no_dup();
        assert(clear_coords()[0] == (MARKER_X, MARKER_Y));
    }
}

/// The first `g` void pixels in enumeration order, with the marker (which
/// sits at position 0) dropped when `include_marker` is false.
spec fn enumerated(include_marker: bool, g: int) -> Seq<(u32, u32)> {
    let full = clear_coords().take(g);
    if include_marker {
        full
    } else if g <= 0 {
        Seq::empty()
    } else {
        full.drop_first()
    }
}

/// Enumerate the void pixels: all regions of the table in table order, and
/// each region row-major, top row first.  With `include_marker` the marker
/// pixel is listed too (as the first coordinate); without it the marker is
/// skipped and only payload-carrying coordinates are listed.
pub fn void_pixels(include_marker: bool) -> (pixels: Vec<(u32, u32)>)
    ensures
        include_marker ==> pixels@ == clear_coords(),
        !include_marker ==> pixels@ == payload_coords(),
{
    proof {
        lemma_table_wf();
        lemma_clear_coords_len();
        lemma_clear_first();
        lemma_marker_only_region_zero();
    }
    let regions = region_table_vec();
    let mut pixels: Vec<(u32, u32)> = Vec::new();
    let mut k: usize = 0;
    while k < REGION_COUNT
        invariant
            0 <= k <= REGION_COUNT,
            regions@ == region_table(),
            pixels@ == enumerated(include_marker, coords_upto(k as int).len() as int),
        decreases REGION_COUNT - k,
    {
        let rg = regions[k];
        let ghost base = coords_upto(k as int).len() as int;
        assert(rg.wf());
        let mut y = rg.min_y;
        while y < rg.max_y
            invariant
                rg.min_y <= y <= rg.max_y,
                pixels@ == enumerated(include_marker, base + (y - rg.min_y) * rg.width()),
            decreases rg.max_y - y,
        {
            let mut x = rg.min_x;
            while x < rg.max_x
                invariant
                    rg.min_x <= x <= rg.max_x,
                    rg.min_y <= y < rg.max_y,
                    pixels@ == enumerated(
                        include_marker,
                        base + (y - rg.min_y) * rg.width() + (x - rg.min_x),
                    ),
                decreases rg.max_x - x,
            {
                let ghost p = (y - rg.min_y) * rg.width() + (x - rg.min_x);
                let ghost g = base + p;
                proof {
                    rg.lemma_index_of(x, y);
                    lemma_coords_compose(REGION_COUNT as int, k as int, p);
                    assert(clear_coords()[g] == (x, y));
                    assert(0 <= g < CLEAR_PIXEL_COUNT);
                }
                if include_marker || !(x == MARKER_X && y == MARKER_Y) {
                    proof {
                        if !include_marker {
                            assert(clear_coords()[0] == (MARKER_X, MARKER_Y));
                            assert(clear_coords()[g] != (MARKER_X, MARKER_Y));
                            assert(g >= 1);
                            assert(enumerated(false, g + 1) =~= enumerated(false, g).push(
                                (x, y),
                            ));
                        } else {
                            assert(enumerated(true, g + 1) =~= enumerated(true, g).push((x, y)));
                        }
                    }
                    pixels.push((x, y));
                } else {
                    proof {
                        assert(rg.contains_coord((MARKER_X, MARKER_Y)));
                        assert(k == 0) by {
                            if k >= 1 {
                                assert(!region_table()[k as int].contains_coord(
                                    (MARKER_X, MARKER_Y),
                                ));
                            }
                        }
                        assert(base == 0);
                        assert(rg == region_table()[0]);
                        assert(rg.min_x == 0 && rg.min_y == 0);
                        assert(p == 0);
                        assert(enumerated(false, 1) =~= enumerated(false, 0));
                    }
                }
                x = x + 1;
                proof {
                    assert(base + (y - rg.min_y) * rg.width() + (x - rg.min_x) == g + 1);
                }
            }
            y = y + 1;
            proof {
                assert((y - 1 - rg.min_y) * rg.width() + rg.width() == (y - rg.min_y)
                    * rg.width()) by (nonlinear_arith);
            }
        }
        k = k + 1;
        proof {
            assert(rg.height() * rg.width() == rg.area()) by (nonlinear_arith);
            assert(coords_upto(k as int).len() == base + rg.area());
        }
    }
    proof {
        assert(enumerated(true, CLEAR_PIXEL_COUNT as int) =~= clear_coords());
        assert(enumerated(false, CLEAR_PIXEL_COUNT as int) =~= payload_coords());
    }
    pixels
}

/// A coordinate is void exactly when the clearing sequence holds it.
pub proof fn lemma_void_iff_contains(c: (u32, u32))
    ensures
        is_void(c) <==> clear_coords().contains(c),
{
    lemma_table_wf();
    if is_void(c) {
        let k = choose|k: int|
            0 <= k < REGION_COUNT && (#[trigger] region_table()[k]).contains_coord(c);
        let r = region_table()[k];
        r.lemma_index_of(c.0, c.1);
        let off = (c.1 - r.min_y) * r.width() + (c.0 - r.min_x);
        lemma_coords_compose(REGION_COUNT as int, k, off);
        assert(clear_coords()[coords_upto(k).len() + off] == c);
    }
    if clear_coords().contains(c) {
        let i = choose|i: int| 0 <= i < clear_coords().len() && clear_coords()[i] == c;
        let d = lemma_coords_decompose(REGION_COUNT as int, i);
        region_table()[d.0].lemma_pixel_at(d.1);
    }
}

} // verus!
