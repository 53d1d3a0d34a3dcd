//! Closed paths for a fill tessellator, one per contour.

use vstd::prelude::*;
use crate::contour::{
    accounted_for, connected, contours_view, disjoint, lemma_empty_mask_has_no_contours,
    lemma_trace_accounts, lemma_trace_well_traced, simple, trace, trace_contours, well_traced,
};
use crate::edge::{
    blank, boundary_mask, is_boundary, lemma_blank_bitmap_mask, lemma_boundary_mask_at,
    spec_boundary_mask, Pixel,
};
use crate::raster::{pixel_index, Coverage, Grid};

verus! {

/// One command of a polygon path.
#[derive(Clone, Copy, Debug, PartialEq, Eq)]
pub enum PathCommand {
    /// Starts a new sub-path at a pixel.
    MoveTo(Pixel),
    /// Draws a straight edge to a pixel.
    LineTo(Pixel),
    /// Closes the current sub-path with an edge back to its start.
    Close,
}

/// The edges through the pixels of a contour from position `from` on.
pub open spec fn contour_edges(contour: Seq<Pixel>, from: int) -> Seq<PathCommand> {
    Seq::new((contour.len() - from) as nat, |i: int| PathCommand::LineTo(contour[from + i]))
}

/// The closed path of one contour: a move to its first pixel, an edge to
/// each further pixel in order, and a close, which joins the last pixel to
/// the first.
pub open spec fn contour_path(contour: Seq<Pixel>) -> Seq<PathCommand> {
    seq![PathCommand::MoveTo(contour[0])] + contour_edges(contour, 1) + seq![PathCommand::Close]
}

/// The paths of the first `k` contours, one after the other.
pub open spec fn spec_path_commands(contours: Seq<Seq<Pixel>>, k: nat) -> Seq<PathCommand>
    decreases k,
{
    if k == 0 {
        Seq::empty()
    } else {
        spec_path_commands(contours, (k - 1) as nat) + contour_path(contours[k - 1])
    }
}

/// The contours of a glyph bitmap: its boundary pixels, grouped by the walk.
pub open spec fn spec_contours(g: Grid) -> Seq<Seq<Pixel>> {
    trace(spec_boundary_mask(g), g.width, g.height)
}

/// The path of a glyph bitmap, ready for a fill tessellator.
pub open spec fn spec_glyph_path(g: Grid) -> Seq<PathCommand> {
    spec_path_commands(spec_contours(g), spec_contours(g).len())
}

/// Lays the contours out as closed paths, in order.
pub fn path_commands(contours: &Vec<Vec<Pixel>>) -> (commands: Vec<PathCommand>)
    requires
        forall|i: int| 0 <= i < contours@.len() ==> (#[trigger] contours@[i])@.len() > 0,
    ensures
        commands@ == spec_path_commands(contours_view(contours@), contours@.len()),
{
    let ghost all = contours_view(contours@);
    let mut commands: Vec<PathCommand> = Vec::new();
    let mut k: usize = 0;
    while k < contours.len()
        invariant
            k <= contours@.len(),
            all == contours_view(contours@),
            forall|i: int| 0 <= i < contours@.len() ==> (#[trigger] contours@[i])@.len() > 0,
            commands@ == spec_path_commands(all, k as nat),
        decreases contours@.len() - k,
    {
        let contour = &contours[k];
        let ghost before = commands@;
        let first = contour[0];
        commands.push(PathCommand::MoveTo(first));
        let mut j: usize = 1;
        while j < contour.len()
            invariant
                1 <= j <= contour@.len(),
                first == contour@[0],
                commands@.len() == before.len() + j,
                commands@.subrange(0, before.len() as int) == before,
                commands@[before.len() as int] == PathCommand::MoveTo(first),
                forall|i: int|
                    1 <= i < j ==> commands@[before.len() + i] == PathCommand::LineTo(contour@[i]),
            decreases contour@.len() - j,
        {
            commands.push(PathCommand::LineTo(contour[j]));
            j = j + 1;
        }
        commands.push(PathCommand::Close);
        assert(all[k as int] == contour@);
        assert(commands@ =~= before + contour_path(contour@));
        k = k + 1;
    }
    commands
}

/// Finds the contours of a glyph bitmap.
pub fn contours(bitmap: &Coverage) -> (found: Vec<Vec<Pixel>>)
    requires
        bitmap.wf(),
    ensures
        contours_view(found@) == spec_contours(bitmap@),
        forall|i: int| 0 <= i < found@.len() ==> (#[trigger] found@[i])@.len() > 0,
{
    let mask = boundary_mask(bitmap);
    let found = trace_contours(mask, bitmap.width(), bitmap.height());
    proof {
        lemma_trace_well_traced(spec_boundary_mask(bitmap@), bitmap@.width, bitmap@.height);
        assert forall|i: int| 0 <= i < found@.len() implies (#[trigger] found@[i])@.len() > 0 by {
            assert(contours_view(found@)[i] == found@[i]@);
        }
    }
    found
}

/// Turns a glyph bitmap into the closed paths of its contours.
pub fn vectorize(bitmap: &Coverage) -> (commands: Vec<PathCommand>)
    requires
        bitmap.wf(),
    ensures
        commands@ == spec_glyph_path(bitmap@),
{
    let found = contours(bitmap);
    assert(contours_view(found@).len() == found@.len());
    path_commands(&found)
}

/// A bitmap without any covered pixel, as a space rasterizes to, has no
/// contour, and its path is empty.
pub proof fn lemma_blank_bitmap_has_no_contours(g: Grid)
    requires
        blank(g),
    ensures
        spec_contours(g) == Seq::<Seq<Pixel>>::empty(),
        spec_glyph_path(g) == Seq::<PathCommand>::empty(),
{
    lemma_blank_bitmap_mask(g);
    lemma_empty_mask_has_no_contours(spec_boundary_mask(g), g.width, g.height);
}

/// The contours and the path of a glyph depend on the size and the bytes of
/// its bitmap alone: vectorizing equal bitmaps gives equal results.
pub proof fn lemma_vectorization_is_deterministic(a: Coverage, b: Coverage)
    requires
        a.wf(),
        b.wf(),
        a@.width == b@.width,
        a@.height == b@.height,
        a@.bytes == b@.bytes,
    ensures
        spec_contours(a@) == spec_contours(b@),
        spec_glyph_path(a@) == spec_glyph_path(b@),
{
}

/// Every pixel of the contour is a boundary pixel of the bitmap.
pub open spec fn on_boundary(contour: Seq<Pixel>, g: Grid) -> bool {
    forall|i: int|
        0 <= i < contour.len() ==> {
            let q = #[trigger] contour[i];
            is_boundary(g, q.0 as int, q.1 as int)
        }
}

/// The contours of a glyph are made of boundary pixels of its bitmap. No
/// contour is empty, each pixel of a contour touches the one before it, and
/// no boundary pixel is used twice, neither within a contour nor by two
/// contours.
pub proof fn lemma_contours_follow_boundary(g: Grid)
    requires
        0 <= g.width <= usize::MAX,
        0 <= g.height <= usize::MAX,
        g.bytes.len() == g.width * g.height,
    ensures
        forall|k: int|
            0 <= k < spec_contours(g).len() ==> {
                let c = #[trigger] spec_contours(g)[k];
                c.len() > 0 && on_boundary(c, g) && connected(c) && simple(c)
            },
        forall|k: int, l: int|
            0 <= k < l < spec_contours(g).len() ==> disjoint(
                #[trigger] spec_contours(g)[k],
                #[trigger] spec_contours(g)[l],
            ),
{
    let mask = spec_boundary_mask(g);
    lemma_trace_well_traced(mask, g.width, g.height);
    assert forall|k: int| 0 <= k < spec_contours(g).len() implies on_boundary(
        #[trigger] spec_contours(g)[k],
        g,
    ) by {
        let c = spec_contours(g)[k];
        assert(well_traced(c, mask, g.width, g.height));
        assert forall|i: int| 0 <= i < c.len() implies {
            let q = #[trigger] c[i];
            is_boundary(g, q.0 as int, q.1 as int)
        } by {
            let q = c[i];
            lemma_boundary_mask_at(g, q.0 as int, q.1 as int);
        }
    }
}

/// The contours of a glyph account for every boundary pixel of its bitmap:
/// each is in a contour or is a neighbor of a pixel of a contour.
pub proof fn lemma_contours_account_for_boundary(g: Grid, x: int, y: int)
    requires
        0 <= g.width <= usize::MAX,
        0 <= g.height <= usize::MAX,
        g.bytes.len() == g.width * g.height,
        is_boundary(g, x, y),
    ensures
        accounted_for(spec_contours(g), pixel_index(x, y, g.width), g.width, g.height),
{
    lemma_boundary_mask_at(g, x, y);
    lemma_trace_accounts(spec_boundary_mask(g), g.width, g.height, pixel_index(x, y, g.width));
}

} // verus!
