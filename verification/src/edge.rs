//! Boundary pixels of a coverage bitmap.

use vstd::prelude::*;
use crate::raster::{
    covered, in_bounds, lemma_index_to_pixel, lemma_pixel_index_bounds, lemma_pixel_of_index,
    pixel_index, Coverage, Grid,
};

verus! {

/// A pixel position: column, then row.
pub type Pixel = (usize, usize);

/// The neighbor of a pixel at offset `(dx, dy)`, if it lies inside the bitmap.
pub open spec fn neighbor_at(p: Pixel, dx: int, dy: int, width: int, height: int) -> Option<Pixel> {
    if in_bounds(p.0 + dx, p.1 + dy, width, height) {
        Some(((p.0 + dx) as usize, (p.1 + dy) as usize))
    } else {
        None
    }
}

/// The four axis-aligned neighbors: left, right, top, bottom.
pub open spec fn spec_adj_neighbors(p: Pixel, width: int, height: int) -> Seq<Option<Pixel>> {
    seq![
        neighbor_at(p, -1, 0, width, height),
        neighbor_at(p, 1, 0, width, height),
        neighbor_at(p, 0, -1, width, height),
        neighbor_at(p, 0, 1, width, height),
    ]
}

/// The eight neighbors: left, right, top, bottom, then the diagonals
/// top-left, top-right, bottom-left, bottom-right.
pub open spec fn spec_neighbors(p: Pixel, width: int, height: int) -> Seq<Option<Pixel>> {
    seq![
        neighbor_at(p, -1, 0, width, height),
        neighbor_at(p, 1, 0, width, height),
        neighbor_at(p, 0, -1, width, height),
        neighbor_at(p, 0, 1, width, height),
        neighbor_at(p, -1, -1, width, height),
        neighbor_at(p, 1, -1, width, height),
        neighbor_at(p, -1, 1, width, height),
        neighbor_at(p, 1, 1, width, height),
    ]
}

/// One if the position is outside the bitmap or its pixel is off, else zero.
pub open spec fn empty_at(g: Grid, x: int, y: int) -> int {
    if covered(g, x, y) {
        0
    } else {
        1
    }
}

/// How many of the four axis-aligned neighbors of `(x, y)` are empty.
pub open spec fn empty_adj_count(g: Grid, x: int, y: int) -> int {
    empty_at(g, x - 1, y) + empty_at(g, x + 1, y) + empty_at(g, x, y - 1) + empty_at(g, x, y + 1)
}

/// How many of the eight neighbors of `(x, y)` are empty.
pub open spec fn empty_count(g: Grid, x: int, y: int) -> int {
    empty_adj_count(g, x, y) + empty_at(g, x - 1, y - 1) + empty_at(g, x + 1, y - 1) + empty_at(
        g,
        x - 1,
        y + 1,
    ) + empty_at(g, x + 1, y + 1)
}

/// The boundary rule: an on pixel with two to four empty neighbors, or with
/// exactly one empty axis-aligned neighbor.
pub open spec fn is_boundary(g: Grid, x: int, y: int) -> bool {
    covered(g, x, y) && (2 <= empty_count(g, x, y) <= 4 || empty_adj_count(g, x, y) == 1)
}

/// The boundary pixels as a row-major mask with one flag per pixel.
pub open spec fn spec_boundary_mask(g: Grid) -> Seq<bool> {
    Seq::new((g.width * g.height) as nat, |i: int| is_boundary(g, i % g.width, i / g.width))
}

/// The flag of a pixel in the mask says whether it is a boundary pixel.
pub proof fn lemma_boundary_mask_at(g: Grid, x: int, y: int)
    requires
        in_bounds(x, y, g.width, g.height),
    ensures
        0 <= pixel_index(x, y, g.width) < spec_boundary_mask(g).len(),
        spec_boundary_mask(g)[pixel_index(x, y, g.width)] == is_boundary(g, x, y),
{
    lemma_pixel_index_bounds(x, y, g.width, g.height);
    lemma_pixel_of_index(x, y, g.width, g.height);
}

/// The axis-aligned neighbors of `p` that lie inside the bitmap, in the
/// order left, right, top, bottom.
pub fn adj_neighbors_array(p: Pixel, width: usize, height: usize) -> (r: [Option<Pixel>; 4])
    requires
        in_bounds(p.0 as int, p.1 as int, width as int, height as int),
    ensures
        r@ == spec_adj_neighbors(p, width as int, height as int),
{
    let (x, y) = p;
    let l = if x > 0 {
        Some((x - 1, y))
    } else {
        None
    };
    let r = if x < width - 1 {
        Some((x + 1, y))
    } else {
        None
    };
    let t = if y > 0 {
        Some((x, y - 1))
    } else {
        None
    };
    let b = if y < height - 1 {
        Some((x, y + 1))
    } else {
        None
    };
    let out = [l, r, t, b];
    assert(out@ =~= spec_adj_neighbors(p, width as int, height as int));
    out
}

/// Pairs the column of a horizontal neighbor with the row of a vertical one.
fn diagonal(h: Option<Pixel>, v: Option<Pixel>) -> (r: Option<Pixel>)
    ensures
        r == match (h, v) {
            (Some(a), Some(b)) => Some((a.0, b.1)),
            _ => None::<Pixel>,
        },
{
    match (h, v) {
        (Some(a), Some(b)) => Some((a.0, b.1)),
        _ => None,
    }
}

/// The eight neighbors of `p` that lie inside the bitmap: left, right, top,
/// bottom, top-left, top-right, bottom-left, bottom-right.
pub fn neighbors(p: Pixel, width: usize, height: usize) -> (r: [Option<Pixel>; 8])
    requires
        in_bounds(p.0 as int, p.1 as int, width as int, height as int),
    ensures
        r@ == spec_neighbors(p, width as int, height as int),
{
    let adj = adj_neighbors_array(p, width, height);
    let l = adj[0];
    let r = adj[1];
    let t = adj[2];
    let b = adj[3];
    let tl = diagonal(l, t);
    let tr = diagonal(r, t);
    let bl = diagonal(l, b);
    let br = diagonal(r, b);
    let out = [l, r, t, b, tl, tr, bl, br];
    assert(out@ =~= spec_neighbors(p, width as int, height as int));
    out
}

/// One for a neighbor slot that is outside the bitmap or whose pixel is off.
fn empty_weight(bitmap: &Coverage, p: Pixel, dx: Ghost<int>, dy: Ghost<int>, n: Option<Pixel>) -> (e: u8)
    requires
        bitmap.wf(),
        n == neighbor_at(p, dx@, dy@, bitmap@.width, bitmap@.height),
    ensures
        e == empty_at(bitmap@, p.0 + dx@, p.1 + dy@),
{
    match n {
        Some(q) => if bitmap.byte(q.0, q.1) == 0 {
            1
        } else {
            0
        },
        None => 1,
    }
}

/// Applies the boundary rule to one pixel of the bitmap.
pub fn is_boundary_pixel(bitmap: &Coverage, p: Pixel) -> (b: bool)
    requires
        bitmap.wf(),
        in_bounds(p.0 as int, p.1 as int, bitmap@.width, bitmap@.height),
    ensures
        b == is_boundary(bitmap@, p.0 as int, p.1 as int),
{
    if bitmap.byte(p.0, p.1) == 0 {
        return false;
    }
    let ns = neighbors(p, bitmap.width(), bitmap.height());
    let l = empty_weight(bitmap, p, Ghost(-1), Ghost(0), ns[0]);
    let r = empty_weight(bitmap, p, Ghost(1), Ghost(0), ns[1]);
    let t = empty_weight(bitmap, p, Ghost(0), Ghost(-1), ns[2]);
    let b = empty_weight(bitmap, p, Ghost(0), Ghost(1), ns[3]);
    let tl = empty_weight(bitmap, p, Ghost(-1), Ghost(-1), ns[4]);
    let tr = empty_weight(bitmap, p, Ghost(1), Ghost(-1), ns[5]);
    let bl = empty_weight(bitmap, p, Ghost(-1), Ghost(1), ns[6]);
    let br = empty_weight(bitmap, p, Ghost(1), Ghost(1), ns[7]);
    let empty_adj_count: u8 = l + r + t + b;
    let empty_count: u8 = empty_adj_count + tl + tr + bl + br;
    2 <= empty_count && empty_count <= 4 || 1 == empty_adj_count
}

/// Marks the boundary pixels of a bitmap: one flag per pixel, row by row.
pub fn boundary_mask(bitmap: &Coverage) -> (mask: Vec<bool>)
    requires
        bitmap.wf(),
    ensures
        mask@ == spec_boundary_mask(bitmap@),
{
    let width = bitmap.width();
    let height = bitmap.height();
    let ghost g = bitmap@;
    let n: usize = width * height;
    let mut mask: Vec<bool> = Vec::new();
    let mut i: usize = 0;
    while i < n
        invariant
            bitmap.wf(),
            g == bitmap@,
            width == g.width,
            height == g.height,
            n == g.width * g.height,
            i <= n,
            mask@.len() == i,
            forall|j: int| 0 <= j < i ==> mask@[j] == is_boundary(g, j % g.width, j / g.width),
        decreases n - i,
    {
        proof {
            lemma_index_to_pixel(i as int, width as int, height as int);
        }
        let p = (i % width, i / width);
        let b = is_boundary_pixel(bitmap, p);
        mask.push(b);
        i = i + 1;
    }
    assert(mask@ =~= spec_boundary_mask(g));
    mask
}

/// A bitmap in which every pixel is on.
pub open spec fn solid(g: Grid) -> bool {
    &&& 0 <= g.width
    &&& 0 <= g.height
    &&& g.bytes.len() == g.width * g.height
    &&& forall|i: int| 0 <= i < g.bytes.len() ==> #[trigger] g.bytes[i] > 0
}

/// A bitmap in which every pixel is off.
pub open spec fn blank(g: Grid) -> bool {
    &&& 0 <= g.width
    &&& 0 <= g.height
    &&& g.bytes.len() == g.width * g.height
    &&& forall|i: int| 0 <= i < g.bytes.len() ==> #[trigger] g.bytes[i] == 0
}

/// Whether `(x, y)` lies in the first or last row or column of the bitmap.
pub open spec fn on_outer_ring(g: Grid, x: int, y: int) -> bool {
    x == 0 || y == 0 || x == g.width - 1 || y == g.height - 1
}

/// Whether `(x, y)` is one of the four corners of the bitmap.
pub open spec fn is_corner(g: Grid, x: int, y: int) -> bool {
    (x == 0 || x == g.width - 1) && (y == 0 || y == g.height - 1)
}

/// In a solid bitmap a position is empty exactly when it is outside.
pub proof fn lemma_solid_covered(g: Grid, x: int, y: int)
    requires
        solid(g),
    ensures
        covered(g, x, y) == in_bounds(x, y, g.width, g.height),
{
    if in_bounds(x, y, g.width, g.height) {
        lemma_pixel_index_bounds(x, y, g.width, g.height);
    }
}

/// In a solid bitmap of at least two rows and two columns, and so in a solid
/// square of five by five pixels or more, the boundary pixels are those of
/// the outer ring but for its corners. A pixel inside the ring has no empty
/// neighbor at all.
pub proof fn lemma_solid_bitmap_boundary(g: Grid, x: int, y: int)
    requires
        solid(g),
        g.width >= 2,
        g.height >= 2,
        in_bounds(x, y, g.width, g.height),
    ensures
        is_boundary(g, x, y) <==> on_outer_ring(g, x, y) && !is_corner(g, x, y),
        !on_outer_ring(g, x, y) ==> empty_count(g, x, y) == 0 && empty_adj_count(g, x, y) == 0,
{
    lemma_solid_covered(g, x, y);
    lemma_solid_covered(g, x - 1, y);
    lemma_solid_covered(g, x + 1, y);
    lemma_solid_covered(g, x, y - 1);
    lemma_solid_covered(g, x, y + 1);
    lemma_solid_covered(g, x - 1, y - 1);
    lemma_solid_covered(g, x + 1, y - 1);
    lemma_solid_covered(g, x - 1, y + 1);
    lemma_solid_covered(g, x + 1, y + 1);
}

/// A blank bitmap has no boundary pixel.
pub proof fn lemma_blank_bitmap_mask(g: Grid)
    requires
        blank(g),
    ensures
        spec_boundary_mask(g).len() == g.width * g.height,
        forall|i: int| 0 <= i < spec_boundary_mask(g).len() ==> !#[trigger] spec_boundary_mask(g)[i],
{
    assert(0 <= g.width * g.height) by (nonlinear_arith)
        requires
            0 <= g.width,
            0 <= g.height,
    ;
    assert forall|i: int| 0 <= i < spec_boundary_mask(g).len() implies !#[trigger] spec_boundary_mask(
        g,
    )[i] by {
        lemma_index_to_pixel(i, g.width, g.height);
    }
}

} // verus!
