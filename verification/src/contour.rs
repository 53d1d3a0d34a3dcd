//! Grouping boundary pixels into contours by a greedy walk.
//!
//! The pixels still to be grouped are held as a row-major mask. A contour
//! starts at the first remaining pixel in row-major order and is extended,
//! step by step, to the furthest remaining neighbor of its last pixel; every
//! remaining neighbor of that pixel leaves the mask at the same step.
//!
//! The mask stands where a hash set of pixels could: a hash set hands its
//! items out in an order of its own, and the contours would then differ from
//! one run to the next. With the mask they are a function of the bitmap.

use vstd::prelude::*;
use crate::raster::{in_bounds, pixel_index, lemma_index_to_pixel, lemma_pixel_index_bounds};
use crate::edge::{neighbors, spec_neighbors, Pixel};

verus! {

/// The number of pixels in the mask.
pub open spec fn count_set(mask: Seq<bool>) -> nat
    decreases mask.len(),
{
    if mask.len() == 0 {
        0
    } else {
        count_set(mask.drop_last()) + if mask.last() {
            1nat
        } else {
            0nat
        }
    }
}

/// The position of the first pixel of the mask at or after `start`, or the
/// length of the mask if there is none.
pub open spec fn first_set_from(mask: Seq<bool>, start: int) -> int
    decreases mask.len() - start,
{
    if start < 0 || start >= mask.len() {
        mask.len() as int
    } else if mask[start] {
        start
    } else {
        first_set_from(mask, start + 1)
    }
}

/// Whether a neighbor slot holds a pixel of the mask.
pub open spec fn is_remaining(mask: Seq<bool>, n: Option<Pixel>, width: int) -> bool {
    match n {
        Some(q) => {
            let i = pixel_index(q.0 as int, q.1 as int, width);
            0 <= i < mask.len() && mask[i]
        },
        None => false,
    }
}

/// The larger of two coordinates minus the smaller.
pub open spec fn span(a: int, b: int) -> int {
    if a >= b {
        a - b
    } else {
        b - a
    }
}

/// The distance by which the walk ranks the neighbors of a pixel.
pub open spec fn distance(p: Pixel, q: Pixel) -> int {
    span(p.0 as int, q.0 as int) + span(p.1 as int, q.1 as int)
}

/// The furthest pixel of the mask among the first `k` slots. Of two equally
/// far pixels the one in the later slot is taken.
pub open spec fn furthest(
    mask: Seq<bool>,
    p: Pixel,
    slots: Seq<Option<Pixel>>,
    width: int,
    k: nat,
) -> Option<Pixel>
    decreases k,
{
    if k == 0 {
        None
    } else {
        let before = furthest(mask, p, slots, width, (k - 1) as nat);
        let c = slots[k - 1];
        if is_remaining(mask, c, width) && (before is None || distance(p, c.unwrap()) >= distance(
            p,
            before.unwrap(),
        )) {
            c
        } else {
            before
        }
    }
}

/// The mask without the pixel in a neighbor slot.
pub open spec fn remove(mask: Seq<bool>, n: Option<Pixel>, width: int) -> Seq<bool> {
    match n {
        Some(q) => {
            let i = pixel_index(q.0 as int, q.1 as int, width);
            if 0 <= i < mask.len() {
                mask.update(i, false)
            } else {
                mask
            }
        },
        None => mask,
    }
}

/// The mask without the pixels in the first `k` slots.
pub open spec fn remove_all(mask: Seq<bool>, slots: Seq<Option<Pixel>>, width: int, k: nat) -> Seq<
    bool,
>
    decreases k,
{
    if k == 0 {
        mask
    } else {
        remove(remove_all(mask, slots, width, (k - 1) as nat), slots[k - 1], width)
    }
}

/// Every pixel of `a` is a pixel of `b`.
pub open spec fn submask(a: Seq<bool>, b: Seq<bool>) -> bool {
    a.len() == b.len() && forall|i: int| 0 <= i < a.len() && a[i] ==> b[i]
}

/// A mask has at least as many pixels as any mask that it holds.
proof fn lemma_count_submask(a: Seq<bool>, b: Seq<bool>)
    requires
        submask(a, b),
    ensures
        count_set(a) <= count_set(b),
    decreases a.len(),
{
    if a.len() > 0 {
        lemma_count_submask(a.drop_last(), b.drop_last());
    }
}

/// A mask has more pixels than a mask that it holds and that lacks one of
/// them.
proof fn lemma_count_strict_submask(a: Seq<bool>, b: Seq<bool>, i: int)
    requires
        submask(a, b),
        0 <= i < a.len(),
        !a[i],
        b[i],
    ensures
        count_set(a) < count_set(b),
    decreases a.len(),
{
    if i == a.len() - 1 {
        lemma_count_submask(a.drop_last(), b.drop_last());
    } else {
        lemma_count_strict_submask(a.drop_last(), b.drop_last(), i);
    }
}

/// Taking the neighbors out adds no pixel to the mask, and leaves none of
/// the neighbors in it.
proof fn lemma_remove_all(mask: Seq<bool>, slots: Seq<Option<Pixel>>, width: int, k: nat)
    ensures
        submask(remove_all(mask, slots, width, k), mask),
        forall|j: int|
            0 <= j < k && is_remaining(mask, #[trigger] slots[j], width) ==> !remove_all(
                mask,
                slots,
                width,
                k,
            )[pixel_index(slots[j].unwrap().0 as int, slots[j].unwrap().1 as int, width)],
    decreases k,
{
    if k > 0 {
        lemma_remove_all(mask, slots, width, (k - 1) as nat);
    }
}

/// The pixel that the walk goes to is in one of the slots and in the mask;
/// where it goes nowhere, no slot holds a pixel of the mask.
proof fn lemma_furthest(mask: Seq<bool>, p: Pixel, slots: Seq<Option<Pixel>>, width: int, k: nat)
    ensures
        furthest(mask, p, slots, width, k) is Some ==> exists|j: int|
            0 <= j < k && slots[j] == furthest(mask, p, slots, width, k) && is_remaining(
                mask,
                #[trigger] slots[j],
                width,
            ),
        furthest(mask, p, slots, width, k) is None ==> forall|j: int|
            0 <= j < k ==> !is_remaining(mask, #[trigger] slots[j], width),
    decreases k,
{
    if k > 0 {
        lemma_furthest(mask, p, slots, width, (k - 1) as nat);
    }
}

/// Whether slot `j` holds the pixel that the walk goes to: a pixel of the
/// mask such that no pixel of the mask in the first `k` slots is further from
/// `p`, and none in a later slot is as far.
pub open spec fn is_furthest_at(
    mask: Seq<bool>,
    p: Pixel,
    slots: Seq<Option<Pixel>>,
    width: int,
    k: nat,
    j: int,
) -> bool {
    &&& 0 <= j < k
    &&& is_remaining(mask, slots[j], width)
    &&& forall|m: int|
        0 <= m < k && is_remaining(mask, #[trigger] slots[m], width) ==> {
            &&& distance(p, slots[m].unwrap()) <= distance(p, slots[j].unwrap())
            &&& m > j ==> distance(p, slots[m].unwrap()) < distance(p, slots[j].unwrap())
        }
}

/// The walk goes to the furthest neighbor that is left in the mask, and among
/// equally far ones to the one in the last slot; it stops only when no
/// neighbor is left.
pub proof fn lemma_furthest_choice(
    mask: Seq<bool>,
    p: Pixel,
    slots: Seq<Option<Pixel>>,
    width: int,
    k: nat,
)
    ensures
        furthest(mask, p, slots, width, k) is Some ==> exists|j: int|
            slots[j] == furthest(mask, p, slots, width, k) && #[trigger] is_furthest_at(
                mask,
                p,
                slots,
                width,
                k,
                j,
            ),
        furthest(mask, p, slots, width, k) is None ==> forall|m: int|
            0 <= m < k ==> !is_remaining(mask, #[trigger] slots[m], width),
    decreases k,
{
    if k > 0 {
        let shorter = (k - 1) as nat;
        lemma_furthest_choice(mask, p, slots, width, shorter);
        let before = furthest(mask, p, slots, width, shorter);
        let c = slots[k - 1];
        if is_remaining(mask, c, width) && (before is None || distance(p, c.unwrap()) >= distance(
            p,
            before.unwrap(),
        )) {
            if before is Some {
                let j = choose|j: int|
                    slots[j] == before && #[trigger] is_furthest_at(mask, p, slots, width, shorter, j);
                assert(is_furthest_at(mask, p, slots, width, shorter, j));
            }
            assert(is_furthest_at(mask, p, slots, width, k, k - 1));
        } else if before is Some {
            let j = choose|j: int|
                slots[j] == before && #[trigger] is_furthest_at(mask, p, slots, width, shorter, j);
            assert(is_furthest_at(mask, p, slots, width, k, j));
        }
    }
}

/// A step of the walk that finds a neighbor leaves fewer pixels in the mask.
proof fn lemma_step_shrinks(mask: Seq<bool>, p: Pixel, slots: Seq<Option<Pixel>>, width: int)
    requires
        furthest(mask, p, slots, width, 8) is Some,
    ensures
        count_set(remove_all(mask, slots, width, 8)) < count_set(mask),
        submask(remove_all(mask, slots, width, 8), mask),
{
    lemma_furthest(mask, p, slots, width, 8);
    lemma_remove_all(mask, slots, width, 8);
    let j = choose|j: int|
        0 <= j < 8 && slots[j] == furthest(mask, p, slots, width, 8) && is_remaining(
            mask,
            #[trigger] slots[j],
            width,
        );
    let q = slots[j].unwrap();
    lemma_count_strict_submask(
        remove_all(mask, slots, width, 8),
        mask,
        pixel_index(q.0 as int, q.1 as int, width),
    );
}

/// The walk from the last pixel of `contour`: the mask that it leaves and the
/// finished contour.
pub open spec fn walk(mask: Seq<bool>, width: int, height: int, contour: Seq<Pixel>) -> (
    Seq<bool>,
    Seq<Pixel>,
)
    decreases count_set(mask),
    via walk_decreases
{
    let p = contour.last();
    let slots = spec_neighbors(p, width, height);
    match furthest(mask, p, slots, width, 8) {
        None => (mask, contour),
        Some(q) => walk(remove_all(mask, slots, width, 8), width, height, contour.push(q)),
    }
}

#[via_fn]
proof fn walk_decreases(mask: Seq<bool>, width: int, height: int, contour: Seq<Pixel>) {
    let p = contour.last();
    let slots = spec_neighbors(p, width, height);
    if furthest(mask, p, slots, width, 8) is Some {
        lemma_step_shrinks(mask, p, slots, width);
    }
}

/// The walk only takes pixels out of the mask.
pub proof fn lemma_walk_submask(mask: Seq<bool>, width: int, height: int, contour: Seq<Pixel>)
    ensures
        submask(walk(mask, width, height, contour).0, mask),
    decreases count_set(mask),
{
    let p = contour.last();
    let slots = spec_neighbors(p, width, height);
    match furthest(mask, p, slots, width, 8) {
        None => {},
        Some(q) => {
            lemma_step_shrinks(mask, p, slots, width);
            lemma_walk_submask(remove_all(mask, slots, width, 8), width, height, contour.push(q));
        },
    }
}

/// The contours of a mask of boundary pixels, in the order in which the walk
/// finds them.
pub open spec fn trace(mask: Seq<bool>, width: int, height: int) -> Seq<Seq<Pixel>>
    decreases count_set(mask),
    via trace_decreases
{
    let i = first_set_from(mask, 0);
    if 0 <= i < mask.len() {
        let first = ((i % width) as usize, (i / width) as usize);
        let walked = walk(mask.update(i, false), width, height, seq![first]);
        seq![walked.1] + trace(walked.0, width, height)
    } else {
        Seq::empty()
    }
}

/// The first pixel at or after `start` is in the mask, and no pixel of the
/// mask lies between `start` and it.
proof fn lemma_first_set(mask: Seq<bool>, start: int)
    requires
        0 <= start,
    ensures
        start <= first_set_from(mask, start) || first_set_from(mask, start) == mask.len(),
        first_set_from(mask, start) <= mask.len(),
        first_set_from(mask, start) < mask.len() ==> mask[first_set_from(mask, start)],
        forall|j: int| start <= j < first_set_from(mask, start) ==> !mask[j],
    decreases mask.len() - start,
{
    if start < mask.len() && !mask[start] {
        lemma_first_set(mask, start + 1);
    }
}

/// The first pixel at or after `start` is at `i` when nothing lies between.
proof fn lemma_first_set_is(mask: Seq<bool>, start: int, i: int)
    requires
        0 <= start <= i <= mask.len(),
        forall|j: int| start <= j < i ==> !mask[j],
        i < mask.len() ==> mask[i],
    ensures
        first_set_from(mask, start) == i,
    decreases i - start,
{
    if start < i {
        lemma_first_set_is(mask, start + 1, i);
    }
}

#[via_fn]
proof fn trace_decreases(mask: Seq<bool>, width: int, height: int) {
    let i = first_set_from(mask, 0);
    if 0 <= i < mask.len() {
        lemma_first_set(mask, 0);
        let first = ((i % width) as usize, (i / width) as usize);
        let cleared = mask.update(i, false);
        lemma_walk_submask(cleared, width, height, seq![first]);
        lemma_count_submask(walk(cleared, width, height, seq![first]).0, cleared);
        lemma_count_strict_submask(cleared, mask, i);
    }
}

/// The contours as sequences of pixels.
pub open spec fn contours_view(contours: Seq<Vec<Pixel>>) -> Seq<Seq<Pixel>> {
    Seq::new(contours.len(), |i: int| contours[i]@)
}

/// A neighbor lies inside the bitmap, at most one column and one row away.
proof fn lemma_neighbor_near(p: Pixel, width: int, height: int, k: int)
    requires
        0 <= k < 8,
        width <= usize::MAX,
        height <= usize::MAX,
        spec_neighbors(p, width, height)[k] is Some,
    ensures
        in_bounds(
            spec_neighbors(p, width, height)[k].unwrap().0 as int,
            spec_neighbors(p, width, height)[k].unwrap().1 as int,
            width,
            height,
        ),
        span(p.0 as int, spec_neighbors(p, width, height)[k].unwrap().0 as int) <= 1,
        span(p.1 as int, spec_neighbors(p, width, height)[k].unwrap().1 as int) <= 1,
{
}

/// The larger of two coordinates minus the smaller.
fn span_of(a: usize, b: usize) -> (d: usize)
    ensures
        d == span(a as int, b as int),
{
    if a >= b {
        a - b
    } else {
        b - a
    }
}

/// Whether the pixel in a neighbor slot is still in the mask.
fn slot_remaining(remaining: &Vec<bool>, n: Option<Pixel>, width: usize, height: usize) -> (r: bool)
    requires
        remaining@.len() == width * height,
        n is Some ==> in_bounds(n.unwrap().0 as int, n.unwrap().1 as int, width as int, height as int),
    ensures
        r == is_remaining(remaining@, n, width as int),
{
    match n {
        Some(q) => {
            proof {
                lemma_pixel_index_bounds(q.0 as int, q.1 as int, width as int, height as int);
                assert(remaining@.len() == remaining.len() <= usize::MAX);
            }
            remaining[q.1 * width + q.0]
        },
        None => false,
    }
}

/// Picks the next pixel of a contour among the neighbors of its last pixel.
fn furthest_remaining(
    remaining: &Vec<bool>,
    p: Pixel,
    ns: &[Option<Pixel>; 8],
    width: usize,
    height: usize,
) -> (next: Option<Pixel>)
    requires
        remaining@.len() == width * height,
        ns@ == spec_neighbors(p, width as int, height as int),
    ensures
        next == furthest(remaining@, p, ns@, width as int, 8),
{
    let mut best: Option<Pixel> = None;
    let mut best_distance: usize = 0;
    let mut k: usize = 0;
    while k < 8
        invariant
            k <= 8,
            remaining@.len() == width * height,
            ns@ == spec_neighbors(p, width as int, height as int),
            best == furthest(remaining@, p, ns@, width as int, k as nat),
            best is Some ==> best_distance == distance(p, best.unwrap()),
        decreases 8 - k,
    {
        let c = ns[k];
        proof {
            if c is Some {
                lemma_neighbor_near(p, width as int, height as int, k as int);
            }
        }
        if slot_remaining(remaining, c, width, height) {
            let q = c.unwrap();
            let d = span_of(p.0, q.0) + span_of(p.1, q.1);
            if best.is_none() || d >= best_distance {
                best = c;
                best_distance = d;
            }
        }
        k = k + 1;
    }
    best
}

/// Takes the neighbors of a pixel out of the mask.
fn remove_neighbors(remaining: &mut Vec<bool>, p: Pixel, ns: &[Option<Pixel>; 8], width: usize, height: usize)
    requires
        old(remaining)@.len() == width * height,
        ns@ == spec_neighbors(p, width as int, height as int),
    ensures
        final(remaining)@ == remove_all(old(remaining)@, ns@, width as int, 8),
{
    let mut k: usize = 0;
    while k < 8
        invariant
            k <= 8,
            remaining@.len() == width * height,
            ns@ == spec_neighbors(p, width as int, height as int),
            remaining@ == remove_all(old(remaining)@, ns@, width as int, k as nat),
        decreases 8 - k,
    {
        match ns[k] {
            Some(q) => {
                proof {
                    lemma_neighbor_near(p, width as int, height as int, k as int);
                    lemma_pixel_index_bounds(q.0 as int, q.1 as int, width as int, height as int);
                    assert(remaining@.len() == remaining.len() <= usize::MAX);
                }
                remaining.set(q.1 * width + q.0, false);
            },
            None => {},
        }
        k = k + 1;
    }
}

/// Extends a contour from its last pixel until that pixel has no neighbor
/// left in the mask.
fn walk_contour(remaining: &mut Vec<bool>, contour: &mut Vec<Pixel>, width: usize, height: usize)
    requires
        old(remaining)@.len() == width * height,
        old(contour)@.len() > 0,
        in_bounds(
            old(contour)@.last().0 as int,
            old(contour)@.last().1 as int,
            width as int,
            height as int,
        ),
    ensures
        (final(remaining)@, final(contour)@) == walk(
            old(remaining)@,
            width as int,
            height as int,
            old(contour)@,
        ),
{
    let ghost w = width as int;
    let ghost h = height as int;
    let mut p = contour[contour.len() - 1];
    let mut done = false;
    while !done
        invariant
            remaining@.len() == width * height,
            contour@.len() > 0,
            p == contour@.last(),
            in_bounds(p.0 as int, p.1 as int, w, h),
            w == width,
            h == height,
            walk(old(remaining)@, w, h, old(contour)@) == walk(remaining@, w, h, contour@),
            done ==> furthest(remaining@, p, spec_neighbors(p, w, h), w, 8) is None,
        decreases count_set(remaining@), if done { 0int } else { 1int },
    {
        let ns = neighbors(p, width, height);
        match furthest_remaining(remaining, p, &ns, width, height) {
            None => {
                done = true;
            },
            Some(q) => {
                proof {
                    lemma_step_shrinks(remaining@, p, ns@, w);
                    lemma_furthest(remaining@, p, ns@, w, 8);
                    let j = choose|j: int|
                        0 <= j < 8 && ns@[j] == furthest(remaining@, p, ns@, w, 8) && is_remaining(
                            remaining@,
                            #[trigger] ns@[j],
                            w,
                        );
                    lemma_neighbor_near(p, w, h, j);
                }
                remove_neighbors(remaining, p, &ns, width, height);
                contour.push(q);
                p = q;
            },
        }
    }
}

/// Groups the pixels of a row-major mask into contours. Each contour starts
/// at the first pixel that is left, in row-major order.
pub fn trace_contours(mask: Vec<bool>, width: usize, height: usize) -> (contours: Vec<Vec<Pixel>>)
    requires
        mask@.len() == width * height,
    ensures
        contours_view(contours@) == trace(mask@, width as int, height as int),
{
    let ghost w = width as int;
    let ghost h = height as int;
    let ghost mask0 = mask@;
    let mut remaining = mask;
    let n = remaining.len();
    let mut contours: Vec<Vec<Pixel>> = Vec::new();
    let mut start: usize = 0;
    while start < n
        invariant
            w == width,
            h == height,
            n == remaining@.len(),
            n == width * height,
            start <= n,
            forall|j: int| 0 <= j < start ==> !remaining@[j],
            trace(mask0, w, h) == contours_view(contours@) + trace(remaining@, w, h),
        decreases n - start,
    {
        if remaining[start] {
            let ghost before = remaining@;
            proof {
                lemma_first_set_is(before, 0, start as int);
                lemma_index_to_pixel(start as int, w, h);
            }
            let first = (start % width, start / width);
            remaining.set(start, false);
            let ghost cleared = remaining@;
            let mut contour: Vec<Pixel> = Vec::new();
            contour.push(first);
            assert(contour@ =~= seq![first]);
            walk_contour(&mut remaining, &mut contour, width, height);
            proof {
                lemma_walk_submask(cleared, w, h, seq![first]);
                assert(trace(before, w, h) == seq![contour@] + trace(remaining@, w, h));
                assert(contours_view(contours@.push(contour)) =~= contours_view(contours@) + seq![
                    contour@,
                ]);
            }
            contours.push(contour);
        }
        start = start + 1;
    }
    proof {
        lemma_first_set_is(remaining@, 0, n as int);
        assert(trace(remaining@, w, h) =~= Seq::empty());
    }
    contours
}

/// A mask without any pixel has no contour.
pub proof fn lemma_empty_mask_has_no_contours(mask: Seq<bool>, width: int, height: int)
    requires
        forall|i: int| 0 <= i < mask.len() ==> !mask[i],
    ensures
        trace(mask, width, height) == Seq::<Seq<Pixel>>::empty(),
{
    lemma_first_set_is(mask, 0, mask.len() as int);
}

/// Two different pixels that touch: at most one column and one row apart.
pub open spec fn adjacent(p: Pixel, q: Pixel) -> bool {
    p != q && span(p.0 as int, q.0 as int) <= 1 && span(p.1 as int, q.1 as int) <= 1
}

/// Every pixel of the contour lies inside the bitmap and on the mask.
pub open spec fn on_mask(contour: Seq<Pixel>, mask: Seq<bool>, width: int, height: int) -> bool {
    forall|i: int|
        0 <= i < contour.len() ==> {
            let q = #[trigger] contour[i];
            in_bounds(q.0 as int, q.1 as int, width, height) && mask[pixel_index(
                q.0 as int,
                q.1 as int,
                width,
            )]
        }
}

/// No pixel of the contour is on the mask.
pub open spec fn off_mask(contour: Seq<Pixel>, mask: Seq<bool>, width: int) -> bool {
    forall|i: int|
        0 <= i < contour.len() ==> {
            let q = #[trigger] contour[i];
            !mask[pixel_index(q.0 as int, q.1 as int, width)]
        }
}

/// Each pixel of the contour touches the one before it.
pub open spec fn connected(contour: Seq<Pixel>) -> bool {
    forall|i: int| 0 < i < contour.len() ==> adjacent(contour[i - 1], #[trigger] contour[i])
}

/// No pixel occurs twice in the contour.
pub open spec fn simple(contour: Seq<Pixel>) -> bool {
    forall|i: int, j: int| 0 <= i < j < contour.len() ==> contour[i] != contour[j]
}

/// The two contours share no pixel.
pub open spec fn disjoint(a: Seq<Pixel>, b: Seq<Pixel>) -> bool {
    forall|i: int, j: int| 0 <= i < a.len() && 0 <= j < b.len() ==> a[i] != b[j]
}

/// What holds of every contour that the walk builds from a mask.
pub open spec fn well_traced(contour: Seq<Pixel>, mask: Seq<bool>, width: int, height: int) -> bool {
    &&& contour.len() > 0
    &&& on_mask(contour, mask, width, height)
    &&& connected(contour)
    &&& simple(contour)
}

/// A neighbor is another pixel than the one it is a neighbor of.
proof fn lemma_neighbor_differs(p: Pixel, width: int, height: int, k: int)
    requires
        0 <= k < 8,
        width <= usize::MAX,
        height <= usize::MAX,
        spec_neighbors(p, width, height)[k] is Some,
    ensures
        spec_neighbors(p, width, height)[k].unwrap() != p,
{
}

/// The walk keeps a contour on the mask that it started from, connected and
/// free of repeated pixels, and takes each pixel of the contour out of the
/// mask.
proof fn lemma_walk_well_traced(
    mask: Seq<bool>,
    width: int,
    height: int,
    contour: Seq<Pixel>,
    origin: Seq<bool>,
)
    requires
        0 <= width <= usize::MAX,
        0 <= height <= usize::MAX,
        mask.len() == width * height,
        submask(mask, origin),
        well_traced(contour, origin, width, height),
        off_mask(contour, mask, width),
    ensures
        well_traced(walk(mask, width, height, contour).1, origin, width, height),
        off_mask(walk(mask, width, height, contour).1, walk(mask, width, height, contour).0, width),
        submask(walk(mask, width, height, contour).0, mask),
    decreases count_set(mask),
{
    let p = contour.last();
    let slots = spec_neighbors(p, width, height);
    match furthest(mask, p, slots, width, 8) {
        None => {},
        Some(q) => {
            lemma_step_shrinks(mask, p, slots, width);
            lemma_furthest(mask, p, slots, width, 8);
            lemma_remove_all(mask, slots, width, 8);
            let j = choose|j: int|
                0 <= j < 8 && slots[j] == furthest(mask, p, slots, width, 8) && is_remaining(
                    mask,
                    #[trigger] slots[j],
                    width,
                );
            lemma_neighbor_near(p, width, height, j);
            lemma_neighbor_differs(p, width, height, j);
            let next = remove_all(mask, slots, width, 8);
            let longer = contour.push(q);
            let qi = pixel_index(q.0 as int, q.1 as int, width);
            assert(mask[qi] && !next[qi]);
            assert(on_mask(longer, origin, width, height)) by {
                assert forall|i: int| 0 <= i < longer.len() implies {
                    let c = #[trigger] longer[i];
                    in_bounds(c.0 as int, c.1 as int, width, height) && origin[pixel_index(
                        c.0 as int,
                        c.1 as int,
                        width,
                    )]
                } by {
                    if i < contour.len() {
                        assert(longer[i] == contour[i]);
                    }
                }
            }
            assert(connected(longer)) by {
                assert forall|i: int| 0 < i < longer.len() implies adjacent(
                    longer[i - 1],
                    #[trigger] longer[i],
                ) by {
                    if i < contour.len() {
                        assert(longer[i] == contour[i]);
                        assert(longer[i - 1] == contour[i - 1]);
                    } else {
                        assert(longer[i - 1] == p);
                    }
                }
            }
            assert(simple(longer)) by {
                assert forall|a: int, b: int| 0 <= a < b < longer.len() implies longer[a]
                    != longer[b] by {
                    assert(longer[a] == contour[a]);
                    if b < contour.len() {
                        assert(longer[b] == contour[b]);
                    }
                }
            }
            assert(off_mask(longer, next, width)) by {
                assert forall|i: int| 0 <= i < longer.len() implies {
                    let c = #[trigger] longer[i];
                    !next[pixel_index(c.0 as int, c.1 as int, width)]
                } by {
                    if i < contour.len() {
                        assert(longer[i] == contour[i]);
                        let c = contour[i];
                        lemma_pixel_index_bounds(c.0 as int, c.1 as int, width, height);
                    }
                }
            }
            lemma_walk_well_traced(next, width, height, longer, origin);
        },
    }
}

/// A contour on a mask is on every mask that holds that mask.
proof fn lemma_on_larger_mask(
    contour: Seq<Pixel>,
    small: Seq<bool>,
    large: Seq<bool>,
    width: int,
    height: int,
)
    requires
        on_mask(contour, small, width, height),
        submask(small, large),
        small.len() == width * height,
    ensures
        on_mask(contour, large, width, height),
{
    assert forall|i: int| 0 <= i < contour.len() implies {
        let q = #[trigger] contour[i];
        in_bounds(q.0 as int, q.1 as int, width, height) && large[pixel_index(
            q.0 as int,
            q.1 as int,
            width,
        )]
    } by {
        let q = contour[i];
        lemma_pixel_index_bounds(q.0 as int, q.1 as int, width, height);
    }
}

/// A contour on a mask and a contour off that mask share no pixel.
proof fn lemma_on_and_off_disjoint(
    off: Seq<Pixel>,
    on: Seq<Pixel>,
    mask: Seq<bool>,
    width: int,
    height: int,
)
    requires
        off_mask(off, mask, width),
        on_mask(on, mask, width, height),
    ensures
        disjoint(off, on),
{
    assert forall|i: int, j: int| 0 <= i < off.len() && 0 <= j < on.len() implies off[i]
        != on[j] by {
        let a = off[i];
        let b = on[j];
        assert(!mask[pixel_index(a.0 as int, a.1 as int, width)]);
        assert(mask[pixel_index(b.0 as int, b.1 as int, width)]);
    }
}

/// Every contour of a mask is made of pixels of the mask, each touching the
/// one before it, and no pixel is used twice, neither within a contour nor by
/// two contours.
pub proof fn lemma_trace_well_traced(mask: Seq<bool>, width: int, height: int)
    requires
        0 <= width <= usize::MAX,
        0 <= height <= usize::MAX,
        mask.len() == width * height,
    ensures
        forall|k: int|
            0 <= k < trace(mask, width, height).len() ==> well_traced(
                #[trigger] trace(mask, width, height)[k],
                mask,
                width,
                height,
            ),
        forall|k: int, l: int|
            0 <= k < l < trace(mask, width, height).len() ==> disjoint(
                #[trigger] trace(mask, width, height)[k],
                #[trigger] trace(mask, width, height)[l],
            ),
    decreases count_set(mask),
{
    let i = first_set_from(mask, 0);
    if 0 <= i < mask.len() {
        lemma_first_set(mask, 0);
        lemma_index_to_pixel(i, width, height);
        let first = ((i % width) as usize, (i / width) as usize);
        let cleared = mask.update(i, false);
        let start = seq![first];
        let walked = walk(cleared, width, height, start);
        lemma_walk_submask(cleared, width, height, start);
        lemma_count_submask(walked.0, cleared);
        lemma_count_strict_submask(cleared, mask, i);
        assert(well_traced(start, mask, width, height));
        assert(off_mask(start, cleared, width));
        lemma_walk_well_traced(cleared, width, height, start, mask);
        lemma_trace_well_traced(walked.0, width, height);
        let rest = trace(walked.0, width, height);
        let all = trace(mask, width, height);
        assert(all == seq![walked.1] + rest);
        assert(submask(walked.0, mask));
        assert forall|k: int| 0 <= k < all.len() implies well_traced(
            #[trigger] all[k],
            mask,
            width,
            height,
        ) by {
            if k > 0 {
                assert(all[k] == rest[k - 1]);
                assert(well_traced(rest[k - 1], walked.0, width, height));
                lemma_on_larger_mask(rest[k - 1], walked.0, mask, width, height);
            } else {
                assert(all[k] == walked.1);
            }
        }
        assert forall|k: int, l: int| 0 <= k < l < all.len() implies disjoint(
            #[trigger] all[k],
            #[trigger] all[l],
        ) by {
            assert(all[l] == rest[l - 1]);
            assert(well_traced(rest[l - 1], walked.0, width, height));
            if k > 0 {
                assert(all[k] == rest[k - 1]);
            } else {
                assert(all[k] == walked.1);
                lemma_on_and_off_disjoint(walked.1, rest[l - 1], walked.0, width, height);
            }
        }
    }
}

/// Whether the pixel at position `i` of the mask is `p` or a neighbor of `p`.
pub open spec fn touches(p: Pixel, i: int, width: int, height: int) -> bool {
    ||| pixel_index(p.0 as int, p.1 as int, width) == i
    ||| exists|k: int|
        0 <= k < 8 && is_slot_of(#[trigger] spec_neighbors(p, width, height)[k], i, width)
}

/// Whether a neighbor slot holds the pixel at position `i` of the mask.
pub open spec fn is_slot_of(n: Option<Pixel>, i: int, width: int) -> bool {
    n is Some && pixel_index(n.unwrap().0 as int, n.unwrap().1 as int, width) == i
}

/// Whether the pixel at position `i` of the mask is in the contour or is a
/// neighbor of one of its pixels.
pub open spec fn near_contour(contour: Seq<Pixel>, i: int, width: int, height: int) -> bool {
    exists|j: int| 0 <= j < contour.len() && touches(#[trigger] contour[j], i, width, height)
}

/// Whether the pixel at position `i` of the mask is in one of the contours
/// or is a neighbor of one of their pixels.
pub open spec fn accounted_for(contours: Seq<Seq<Pixel>>, i: int, width: int, height: int) -> bool {
    exists|k: int| 0 <= k < contours.len() && near_contour(#[trigger] contours[k], i, width, height)
}

/// A pixel that leaves the mask with the neighbors of `p` is one of them.
proof fn lemma_removed_is_slot(mask: Seq<bool>, slots: Seq<Option<Pixel>>, width: int, k: nat, i: int)
    requires
        0 <= i < mask.len(),
        mask[i],
        !remove_all(mask, slots, width, k)[i],
    ensures
        exists|j: int| 0 <= j < k && is_slot_of(#[trigger] slots[j], i, width),
    decreases k,
{
    if k > 0 {
        let before = remove_all(mask, slots, width, (k - 1) as nat);
        lemma_remove_all(mask, slots, width, (k - 1) as nat);
        if before[i] {
            assert(is_slot_of(slots[k - 1], i, width));
        } else {
            lemma_removed_is_slot(mask, slots, width, (k - 1) as nat, i);
        }
    }
}

/// The walk only appends to the contour.
proof fn lemma_walk_keeps_prefix(mask: Seq<bool>, width: int, height: int, contour: Seq<Pixel>)
    ensures
        walk(mask, width, height, contour).1.len() >= contour.len(),
        forall|j: int|
            0 <= j < contour.len() ==> walk(mask, width, height, contour).1[j] == contour[j],
    decreases count_set(mask),
{
    let p = contour.last();
    let slots = spec_neighbors(p, width, height);
    match furthest(mask, p, slots, width, 8) {
        None => {},
        Some(q) => {
            lemma_step_shrinks(mask, p, slots, width);
            lemma_walk_keeps_prefix(remove_all(mask, slots, width, 8), width, height, contour.push(q));
            assert forall|j: int| 0 <= j < contour.len() implies walk(mask, width, height, contour).1[j]
                == contour[j] by {
                assert(contour.push(q)[j] == contour[j]);
            }
        },
    }
}

/// Every pixel that the walk takes out of the mask is a neighbor of a pixel
/// of the finished contour.
proof fn lemma_walk_accounts(mask: Seq<bool>, width: int, height: int, contour: Seq<Pixel>, i: int)
    requires
        contour.len() > 0,
        0 <= i < mask.len(),
        mask[i],
        !walk(mask, width, height, contour).0[i],
    ensures
        near_contour(walk(mask, width, height, contour).1, i, width, height),
    decreases count_set(mask),
{
    let p = contour.last();
    let slots = spec_neighbors(p, width, height);
    match furthest(mask, p, slots, width, 8) {
        None => {},
        Some(q) => {
            lemma_step_shrinks(mask, p, slots, width);
            let next = remove_all(mask, slots, width, 8);
            let longer = contour.push(q);
            let done = walk(mask, width, height, contour).1;
            if next[i] {
                lemma_walk_accounts(next, width, height, longer, i);
            } else {
                lemma_removed_is_slot(mask, slots, width, 8, i);
                lemma_walk_keeps_prefix(next, width, height, longer);
                let at = contour.len() - 1;
                assert(longer[at] == p);
                assert(done[at] == p);
                assert(touches(done[at], i, width, height));
            }
        },
    }
}

/// The contours account for the whole mask: every pixel of the mask is in a
/// contour or is a neighbor of a pixel of a contour.
pub proof fn lemma_trace_accounts(mask: Seq<bool>, width: int, height: int, i: int)
    requires
        0 <= width <= usize::MAX,
        0 <= height <= usize::MAX,
        mask.len() == width * height,
        0 <= i < mask.len(),
        mask[i],
    ensures
        accounted_for(trace(mask, width, height), i, width, height),
    decreases count_set(mask),
{
    let at = first_set_from(mask, 0);
    lemma_first_set(mask, 0);
    assert(0 <= at < mask.len()) by {
        if at == mask.len() {
            assert(!mask[i]);
        }
    }
    lemma_index_to_pixel(at, width, height);
    let first = ((at % width) as usize, (at / width) as usize);
    let cleared = mask.update(at, false);
    let start = seq![first];
    let walked = walk(cleared, width, height, start);
    lemma_walk_submask(cleared, width, height, start);
    lemma_count_submask(walked.0, cleared);
    lemma_count_strict_submask(cleared, mask, at);
    let rest = trace(walked.0, width, height);
    let all = trace(mask, width, height);
    assert(all == seq![walked.1] + rest);
    assert(all[0] == walked.1);
    if i == at {
        lemma_walk_keeps_prefix(cleared, width, height, start);
        assert(walked.1[0] == first);
        assert(touches(walked.1[0], i, width, height));
        assert(near_contour(all[0], i, width, height));
    } else if !walked.0[i] {
        lemma_walk_accounts(cleared, width, height, start, i);
        assert(near_contour(all[0], i, width, height));
    } else {
        lemma_trace_accounts(walked.0, width, height, i);
        let k = choose|k: int|
            0 <= k < rest.len() && near_contour(#[trigger] rest[k], i, width, height);
        assert(all[k + 1] == rest[k]);
        assert(near_contour(all[k + 1], i, width, height));
    }
}

} // verus!
