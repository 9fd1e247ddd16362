//! The region behind a card that the compositor blurs.
use vstd::prelude::*;

use crate::single::{
    lemma_root_exists, lemma_single_close, lemma_single_root, root_slack, root_threshold, single,
    single_root, square_root, to_single, MAX_ROOT,
};

verus! {

/// Distance of the blurred region from the card's edges.
pub const INSET: i32 = 4;

/// A one-pixel-high strip of a region.
#[derive(Clone, Copy, Debug, PartialEq, Eq)]
pub struct RegionRow {
    pub x: i32,
    pub y: i32,
    pub width: i32,
}

/// What a list of strips covers: the left end, the height, and the width of each.
pub open spec fn strips(rows: Seq<RegionRow>) -> Seq<(int, int, int)> {
    Seq::new(rows.len(), |i: int| (rows[i].x as int, rows[i].y as int, rows[i].width as int))
}

/// The corner radius of the blurred region of a card with corner radius `r`.
pub open spec fn inner_radius(r: int) -> int {
    if r - INSET > 1 {
        r - INSET
    } else {
        1
    }
}

/// How far a corner's circle of radius `ir` reaches sideways at a vertical distance `dy`, computed
/// in single precision.
pub open spec fn chord(ir: int, dy: int) -> int {
    let difference = single(ir * ir) - single(dy * dy);
    single_root(
        single(
            if difference > 0 {
                difference
            } else {
                0
            },
        ),
    )
}

/// The left and right end of row `yy` of a rounded rectangle, given its width, height, and corner
/// radius.
pub open spec fn row_ends(yy: int, iw: int, ih: int, ir: int) -> (int, int) {
    if yy < ir {
        let dx = chord(ir, ir - yy);
        (ir - dx, iw - ir + dx)
    } else if yy >= ih - ir {
        let dx = chord(ir, yy - (ih - ir));
        (ir - dx, iw - ir + dx)
    } else {
        (0, iw)
    }
}

/// The strips of the first `count` rows of the blurred region of a card; empty rows have none.
pub open spec fn region_strips(w: int, h: int, r: int, count: int) -> Seq<(int, int, int)>
    decreases count,
{
    if count <= 0 {
        Seq::empty()
    } else {
        let above = region_strips(w, h, r, count - 1);
        let yy = count - 1;
        let (left, right) = row_ends(yy, w - 2 * INSET, h - 2 * INSET, inner_radius(r));
        if right > left {
            above.push((left + INSET, yy + INSET, right - left))
        } else {
            above
        }
    }
}

/// What a chord is the root of lies below the threshold of the radius after its own.
pub proof fn lemma_chord(ir: int, dy: int)
    requires
        1 <= ir <= MAX_ROOT,
        0 <= dy <= ir,
    ensures
        0 <= dy * dy <= ir * ir <= 46340 * 46340,
        ({
            let difference = single(ir * ir) - single(dy * dy);
            let n = single(
                if difference > 0 {
                    difference
                } else {
                    0
                },
            );
            0 <= n < root_threshold(ir + 1) && n <= 0xffff_ffff
        }),
        0 <= chord(ir, dy) <= ir,
{
    assert(0 <= dy * dy <= ir * ir <= 46340 * 46340) by (nonlinear_arith)
        requires
            0 <= dy <= ir <= 46340,
    ;
    assert((ir + 1) * (ir + 1) == ir * ir + 2 * ir + 1) by (nonlinear_arith);
    assert(ir <= 4095 ==> ir * ir <= 4095 * 4095) by (nonlinear_arith)
        requires
            1 <= ir,
    ;
    lemma_single_close(ir * ir);
    lemma_single_close(dy * dy);
    let difference = single(ir * ir) - single(dy * dy);
    let shown = if difference > 0 {
        difference
    } else {
        0
    };
    lemma_single_close(shown);
    assert(root_slack(ir + 1) <= 2 * ir / 512 + 1);
    let k = lemma_root_exists(single(shown), ir);
    lemma_single_root(k, single(shown));
}

/// How far a corner's circle of radius `ir` reaches sideways at a vertical distance `dy`.
fn half_chord(ir: i32, dy: i32) -> (dx: i32)
    requires
        1 <= ir <= MAX_ROOT,
        0 <= dy <= ir,
    ensures
        dx == chord(ir as int, dy as int),
        0 <= dx <= ir,
{
    proof {
        lemma_chord(ir as int, dy as int);
    }
    let outer: u64 = to_single((ir * ir) as u32);
    let inner: u64 = to_single((dy * dy) as u32);
    let difference: u64 = if outer > inner {
        outer - inner
    } else {
        0
    };
    square_root(to_single(difference as u32), ir)
}

/// The region of a card of the given size and corner radius, a little inside its edges, as
/// strips from top to bottom.
pub fn add_rounded_region(w: i32, h: i32, r: i32) -> (rows: Vec<RegionRow>)
    requires
        w - 2 * INSET >= i32::MIN,
        h - 2 * INSET >= i32::MIN,
        r - INSET >= i32::MIN,
        h - 2 * INSET > 0 ==> {
            &&& inner_radius(r as int) <= MAX_ROOT
            &&& w - 2 * INSET - inner_radius(r as int) >= i32::MIN
        },
    ensures
        strips(rows@) == region_strips(w as int, h as int, r as int, h - 2 * INSET),
{
    let iw: i32 = w - 2 * INSET;
    let ih: i32 = h - 2 * INSET;
    let ir: i32 = if r - INSET > 1 {
        r - INSET
    } else {
        1
    };
    let mut rows: Vec<RegionRow> = Vec::new();
    assert(strips(rows@) =~= Seq::empty());
    let mut yy: i32 = 0;
    while yy < ih
        invariant
            iw == w - 2 * INSET,
            ih == h - 2 * INSET,
            ir == inner_radius(r as int),
            ih > 0 ==> 1 <= ir <= MAX_ROOT && iw - ir >= i32::MIN,
            0 <= yy,
            yy <= ih || yy == 0,
            strips(rows@) == region_strips(w as int, h as int, r as int, yy as int),
        decreases ih - yy,
    {
        let (left, right): (i32, i32) = if yy < ir {
            let dx: i32 = half_chord(ir, ir - yy);
            (ir - dx, iw - ir + dx)
        } else if yy >= ih - ir {
            let dx: i32 = half_chord(ir, yy - (ih - ir));
            (ir - dx, iw - ir + dx)
        } else {
            (0, iw)
        };
        assert((left as int, right as int) == row_ends(yy as int, iw as int, ih as int, ir as int));
        if right > left {
            let row = RegionRow { x: left + INSET, y: yy + INSET, width: right - left };
            let ghost above = rows@;
            rows.push(row);
            assert(strips(rows@) =~= strips(above).push(
                (left + INSET, yy + INSET, right - left),
            ));
        }
        yy = yy + 1;
    }
    proof {
        if ih <= 0 {
            assert(region_strips(w as int, h as int, r as int, ih as int) =~= Seq::empty());
        }
    }
    rows
}

/// The strips stay inside the card, one to a row and from top to bottom, and are centred.
pub proof fn law_region_inside_card(w: int, h: int, r: int, count: int)
    requires
        0 <= count <= h - 2 * INSET,
        inner_radius(r) <= MAX_ROOT,
    ensures
        forall|i: int|
            0 <= i < region_strips(w, h, r, count).len() ==> {
                let (x, y, width) = #[trigger] region_strips(w, h, r, count)[i];
                &&& INSET <= x
                &&& 0 < width
                &&& x + width <= w - INSET
                &&& INSET <= y < count + INSET
                &&& x + (x + width) == w
            },
        forall|i: int, j: int|
            0 <= i < j < region_strips(w, h, r, count).len() ==> region_strips(w, h, r, count)[i].1
                < region_strips(w, h, r, count)[j].1,
    decreases count,
{
    if count > 0 {
        law_region_inside_card(w, h, r, count - 1);
        let yy = count - 1;
        let ir = inner_radius(r);
        let ih = h - 2 * INSET;
        if yy < ir {
            lemma_chord(ir, ir - yy);
        } else if yy >= ih - ir {
            lemma_chord(ir, yy - (ih - ir));
        }
        let above = region_strips(w, h, r, count - 1);
        let all = region_strips(w, h, r, count);
        assert forall|i: int| 0 <= i < all.len() implies ({
            let (x, y, width) = #[trigger] all[i];
            &&& INSET <= x
            &&& 0 < width
            &&& x + width <= w - INSET
            &&& INSET <= y < count + INSET
            &&& x + (x + width) == w
        }) by {
            if i < above.len() {
                assert(all[i] == above[i]);
            }
        }
        assert forall|i: int, j: int| 0 <= i < j < all.len() implies all[i].1 < all[j].1 by {
            assert(all[i] == above[i]);
            if j < above.len() {
                assert(all[j] == above[j]);
            }
        }
    }
}

} // verus!
