//! Laws of single-precision arithmetic and of the blurred region, over the calls.
use vstd::prelude::*;

use crate::region::{
    add_rounded_region, chord, inner_radius, lemma_chord, region_strips, row_ends, strips, RegionRow,
    INSET,
};
use crate::single::{
    is_single_root, lemma_root_exists, lemma_single_close, lemma_single_root, root_threshold,
    single, single_unit, square_root, to_single, MAX_ROOT,
};

verus! {

/// Whether single precision has a whole number: it has 24 binary digits to spend.
pub open spec fn representable(m: int) -> bool {
    ||| 0 <= m <= 0x100_0000
    ||| 0 <= m <= 0x200_0000 && m % 2 == 0
    ||| 0 <= m <= 0x400_0000 && m % 4 == 0
    ||| 0 <= m <= 0x800_0000 && m % 8 == 0
    ||| 0 <= m <= 0x1000_0000 && m % 16 == 0
    ||| 0 <= m <= 0x2000_0000 && m % 32 == 0
    ||| 0 <= m <= 0x4000_0000 && m % 64 == 0
    ||| 0 <= m <= 0x8000_0000 && m % 128 == 0
    ||| 0 <= m <= 0x1_0000_0000 && m % 256 == 0
}

/// How far two numbers are apart.
pub open spec fn apart(m: int, n: int) -> int {
    if m < n {
        n - m
    } else {
        m - n
    }
}

/// What rounding makes of a number: one of the two multiples of the spacing around it.
proof fn lemma_parts(n: int) -> (k: int)
    requires
        0 <= n <= u32::MAX,
    ensures
        ({
            let unit = single_unit(n);
            let low = unit * k;
            &&& low <= n < low + unit
            &&& single(n) == if 2 * (n - low) < unit || (2 * (n - low) == unit && k % 2 == 0) {
                low
            } else {
                low + unit
            }
        }),
{
    let unit = single_unit(n);
    let k = n / unit;
    vstd::arithmetic::div_mod::lemma_fundamental_div_mod(n, unit);
    vstd::arithmetic::div_mod::lemma_mod_bound(n, unit);
    assert(unit * k == k * unit) by (nonlinear_arith);
    assert((k + 1) * unit == k * unit + unit) by (nonlinear_arith);
    k
}

/// Single precision has only multiples of the spacing from where that begins.
proof fn lemma_spacing(n: int, unit: int, other: int)
    requires
        single_unit(n) == unit,
        0x100_0000 <= n <= u32::MAX,
        representable(other),
    ensures
        other % unit == 0 || other < 0x80_0000 * unit <= n,
        0 < unit,
{
    if unit == 2 {
        if other >= 0x100_0000 {
            assert(other % 2 == 0);
        }
    } else if unit == 4 {
        if other >= 0x200_0000 {
            assert(other % 4 == 0);
        }
    } else if unit == 8 {
        if other >= 0x400_0000 {
            assert(other % 8 == 0);
        }
    } else if unit == 16 {
        if other >= 0x800_0000 {
            assert(other % 16 == 0);
        }
    } else if unit == 32 {
        if other >= 0x1000_0000 {
            assert(other % 32 == 0);
        }
    } else if unit == 64 {
        if other >= 0x2000_0000 {
            assert(other % 64 == 0);
        }
    } else if unit == 128 {
        if other >= 0x4000_0000 {
            assert(other % 128 == 0);
        }
    } else if unit == 256 {
        if other >= 0x8000_0000 {
            assert(other % 256 == 0);
        }
    }
}

/// No number that single precision has lies strictly between two neighbours.
proof fn lemma_no_number_between(n: int, unit: int, k: int, other: int)
    requires
        single_unit(n) == unit,
        0x100_0000 <= n <= u32::MAX,
        unit * k <= n < unit * k + unit,
        representable(other),
    ensures
        other <= unit * k || other >= unit * k + unit,
{
    lemma_spacing(n, unit, other);
    if other % unit == 0 {
        let m = other / unit;
        vstd::arithmetic::div_mod::lemma_fundamental_div_mod(other, unit);
        if m <= k {
            assert(unit * m <= unit * k) by (nonlinear_arith)
                requires
                    m <= k,
                    0 < unit,
            ;
        } else {
            assert(unit * m >= unit * k + unit) by (nonlinear_arith)
                requires
                    m >= k + 1,
                    0 < unit,
            ;
        }
    } else {
        assert(unit * k > unit * 0x80_0000 - unit);
        assert(k >= 0x80_0000) by (nonlinear_arith)
            requires
                unit * k > unit * 0x80_0000 - unit,
                0 < unit,
        ;
        assert(unit * k >= unit * 0x80_0000) by (nonlinear_arith)
            requires
                k >= 0x80_0000,
                0 < unit,
        ;
    }
}

/// Single precision has the multiples of the spacing.
proof fn lemma_rounded_is_representable(n: int, unit: int, k: int)
    requires
        single_unit(n) == unit,
        0x100_0000 <= n <= u32::MAX,
        unit * k <= n < unit * k + unit,
    ensures
        representable(unit * k),
        representable(unit * k + unit),
{
    if unit == 2 {
        assert(unit * k == 2 * k) by (nonlinear_arith)
            requires
                unit == 2,
        ;
        assert((2 * k) % 2 == 0 && (2 * k + 2) % 2 == 0);
        assert(0 <= 2 * k && 2 * k + 2 <= 0x200_0000);
    } else if unit == 4 {
        assert(unit * k == 4 * k) by (nonlinear_arith)
            requires
                unit == 4,
        ;
        assert((4 * k) % 4 == 0 && (4 * k + 4) % 4 == 0);
        assert(0 <= 4 * k && 4 * k + 4 <= 0x400_0000);
    } else if unit == 8 {
        assert(unit * k == 8 * k) by (nonlinear_arith)
            requires
                unit == 8,
        ;
        assert((8 * k) % 8 == 0 && (8 * k + 8) % 8 == 0);
        assert(0 <= 8 * k && 8 * k + 8 <= 0x800_0000);
    } else if unit == 16 {
        assert(unit * k == 16 * k) by (nonlinear_arith)
            requires
                unit == 16,
        ;
        assert((16 * k) % 16 == 0 && (16 * k + 16) % 16 == 0);
        assert(0 <= 16 * k && 16 * k + 16 <= 0x1000_0000);
    } else if unit == 32 {
        assert(unit * k == 32 * k) by (nonlinear_arith)
            requires
                unit == 32,
        ;
        assert((32 * k) % 32 == 0 && (32 * k + 32) % 32 == 0);
        assert(0 <= 32 * k && 32 * k + 32 <= 0x2000_0000);
    } else if unit == 64 {
        assert(unit * k == 64 * k) by (nonlinear_arith)
            requires
                unit == 64,
        ;
        assert((64 * k) % 64 == 0 && (64 * k + 64) % 64 == 0);
        assert(0 <= 64 * k && 64 * k + 64 <= 0x4000_0000);
    } else if unit == 128 {
        assert(unit * k == 128 * k) by (nonlinear_arith)
            requires
                unit == 128,
        ;
        assert((128 * k) % 128 == 0 && (128 * k + 128) % 128 == 0);
        assert(0 <= 128 * k && 128 * k + 128 <= 0x8000_0000);
    } else if unit == 256 {
        assert(unit * k == 256 * k) by (nonlinear_arith)
            requires
                unit == 256,
        ;
        assert((256 * k) % 256 == 0 && (256 * k + 256) % 256 == 0);
        assert(0 <= 256 * k && 256 * k + 256 <= 0x1_0000_0000);
    }
}

/// Among the multiples of a spacing the nearest is as near as any number that single precision has.
proof fn lemma_nearest_multiple(n: int, unit: int, k: int, other: int)
    requires
        single_unit(n) == unit,
        unit == 2 || unit == 4 || unit == 8 || unit == 16 || unit == 32 || unit == 64 || unit == 128
            || unit == 256,
        0x100_0000 <= n <= u32::MAX,
        unit * k <= n < unit * k + unit,
        single(n) == if 2 * (n - unit * k) < unit || (2 * (n - unit * k) == unit && k % 2 == 0) {
            unit * k
        } else {
            unit * k + unit
        },
        representable(other),
    ensures
        representable(single(n)),
        is_nearest(single(n), n, other),
{
    lemma_no_number_between(n, unit, k, other);
    lemma_rounded_is_representable(n, unit, k);
    let low = unit * k;
    let rounded = single(n);
    assert(unit * (k + 1) == low + unit) by (nonlinear_arith)
        requires
            low == unit * k,
    ;
    if rounded != other && apart(rounded, n) == apart(other, n) {
        assert(apart(rounded, other) == unit);
        let even = if k % 2 == 0 {
            k
        } else {
            k + 1
        };
        let half = even / 2;
        assert(even == 2 * half);
        assert(rounded == unit * even);
        assert(unit * even == (2 * unit) * half) by (nonlinear_arith)
            requires
                even == 2 * half,
        ;
        vstd::arithmetic::div_mod::lemma_mod_multiples_basic(half, 2 * unit);
        assert((2 * unit) * half == half * (2 * unit)) by (nonlinear_arith);
    }
}

/// Whether a number is as good as any other that single precision has in place of `n`, and the even
/// one of two that are equally good.
pub open spec fn is_nearest(rounded: int, n: int, other: int) -> bool {
    &&& apart(rounded, n) <= apart(other, n)
    &&& apart(rounded, n) == apart(other, n) && rounded != other ==> rounded % (2 * apart(
        rounded,
        other,
    )) == 0
}

/// A number is rounded to the nearest that single precision has, and to the even one of two that are
/// equally near.
pub proof fn law_to_single(n: u32, rounded: u64, other: int)
    requires
        call_ensures(to_single, (n,), rounded),
        representable(other),
    ensures
        representable(rounded as int),
        is_nearest(rounded as int, n as int, other),
{
    let k = lemma_parts(n as int);
    if n < 0x100_0000 {
        assert(1 * k == k);
    } else if n < 0x200_0000 {
        lemma_nearest_multiple(n as int, 2, k, other);
    } else if n < 0x400_0000 {
        lemma_nearest_multiple(n as int, 4, k, other);
    } else if n < 0x800_0000 {
        lemma_nearest_multiple(n as int, 8, k, other);
    } else if n < 0x1000_0000 {
        lemma_nearest_multiple(n as int, 16, k, other);
    } else if n < 0x2000_0000 {
        lemma_nearest_multiple(n as int, 32, k, other);
    } else if n < 0x4000_0000 {
        lemma_nearest_multiple(n as int, 64, k, other);
    } else if n < 0x8000_0000 {
        lemma_nearest_multiple(n as int, 128, k, other);
    } else {
        lemma_nearest_multiple(n as int, 256, k, other);
    }
}

/// Rounding keeps the order of numbers.
pub proof fn law_rounding_keeps_order(m: u32, n: u32, first: u64, second: u64)
    requires
        call_ensures(to_single, (m,), first),
        call_ensures(to_single, (n,), second),
        m <= n,
    ensures
        first <= second,
{
    law_to_single(m, first, second as int);
    law_to_single(n, second, first as int);
}

/// Twice the number of single-precision numbers from `k - 1` to `k`, for `k` above 4096.
pub open spec fn fineness(k: int) -> int {
    if k <= 8192 {
        4096
    } else if k <= 16384 {
        2048
    } else if k <= 32768 {
        1024
    } else {
        512
    }
}

/// Whether the square root of `n`, rounded to single precision, is at least `k`: exactly for small
/// `k`, and else if it is more than `k` less half of single precision's spacing there.
pub open spec fn root_reaches(n: int, k: int) -> bool {
    if k <= 4096 {
        k * k <= n
    } else {
        (k * fineness(k) - 1) * (k * fineness(k) - 1) < n * (fineness(k) * fineness(k))
    }
}

proof fn lemma_root_reaches(n: int, k: int)
    requires
        0 <= k,
    ensures
        root_reaches(n, k) <==> root_threshold(k) <= n,
{
    if k > 4096 {
        let s = fineness(k);
        let d = k * k - n;
        assert((k * s - 1) * (k * s - 1) == (k * k) * (s * s) - 2 * (k * s) + 1) by (nonlinear_arith);
        assert(n * (s * s) == (k * k) * (s * s) - d * (s * s)) by (nonlinear_arith)
            requires
                d == k * k - n,
        ;
        if k <= 8192 {
            assert(d * (4096 * 4096) == 4096 * (d * 4096)) by (nonlinear_arith);
        } else if k <= 16384 {
            assert(d * (2048 * 2048) == 2048 * (d * 2048)) by (nonlinear_arith);
        } else if k <= 32768 {
            assert(d * (1024 * 1024) == 1024 * (d * 1024)) by (nonlinear_arith);
        } else {
            assert(d * (512 * 512) == 512 * (d * 512)) by (nonlinear_arith);
        }
    }
}

/// The whole part of a square root in single precision is the largest number that the root reaches.
pub proof fn law_square_root(n: u64, limit: i32, root: i32)
    requires
        0 <= limit <= MAX_ROOT,
        n < root_threshold(limit + 1),
        call_ensures(square_root, (n, limit), root),
    ensures
        root >= 0,
        root_reaches(n as int, root as int),
        !root_reaches(n as int, root + 1),
{
    let k = lemma_root_exists(n as int, limit as int);
    lemma_single_root(k, n as int);
    lemma_root_reaches(n as int, root as int);
    lemma_root_reaches(n as int, root + 1);
}

/// Whether a corner of a radius reaches sideways by `dx` at a vertical distance `dy`, in single
/// precision.
pub open spec fn reaches_sideways(radius: int, dy: int, dx: int) -> bool {
    let difference = single(radius * radius) - single(dy * dy);
    let n = single(
        if difference > 0 {
            difference
        } else {
            0
        },
    );
    dx >= 0 && root_reaches(n, dx) && !root_reaches(n, dx + 1)
}

proof fn lemma_reaches(radius: int, dy: int)
    requires
        1 <= radius <= MAX_ROOT,
        0 <= dy <= radius,
    ensures
        reaches_sideways(radius, dy, chord(radius, dy)),
        0 <= chord(radius, dy) <= radius,
{
    lemma_chord(radius, dy);
    let difference = single(radius * radius) - single(dy * dy);
    let n = single(
        if difference > 0 {
            difference
        } else {
            0
        },
    );
    let k = lemma_root_exists(n, radius);
    lemma_single_root(k, n);
    lemma_root_reaches(n, k);
    lemma_root_reaches(n, k + 1);
}

/// In a small corner the reach is the largest whole number that stays within the circle.
pub proof fn law_small_corners_are_round(radius: int, dy: int, dx: int)
    requires
        1 <= radius <= 4095,
        0 <= dy <= radius,
        reaches_sideways(radius, dy, dx),
    ensures
        dx * dx + dy * dy <= radius * radius,
        (dx + 1) * (dx + 1) + dy * dy > radius * radius,
{
    assert(0 <= dy * dy <= radius * radius <= 4095 * 4095) by (nonlinear_arith)
        requires
            0 <= dy <= radius <= 4095,
    ;
    lemma_single_close(radius * radius);
    lemma_single_close(dy * dy);
    let n = radius * radius - dy * dy;
    lemma_single_close(n);
    lemma_root_reaches(n, dx);
    lemma_root_reaches(n, dx + 1);
    if dx > 4095 {
        lemma_chord(radius, dy);
        let k = lemma_root_exists(n, radius);
        lemma_single_root(k, n);
        assert(is_single_root(dx, n));
        lemma_single_root(dx, n);
    }
}

/// By how much the corner of the region cuts a row short on each side. The corner's radius is four
/// less than the card's, and at least one; the top corners are measured from their last row, the
/// bottom corners from their first.
pub open spec fn is_cut(yy: int, height: int, radius: int, cut: int) -> bool {
    if yy < radius {
        reaches_sideways(radius, radius - yy, radius - cut)
    } else if yy >= height - radius {
        reaches_sideways(radius, yy - (height - radius), radius - cut)
    } else {
        cut == 0
    }
}

/// The radius of the region's corners.
pub open spec fn corner(r: int) -> int {
    if r > 5 {
        r - 4
    } else {
        1
    }
}

/// Whether a strip is that of a row of the region of a card: four pixels inside the card, and cut
/// short at the corners.
pub open spec fn is_strip(strip: (int, int, int), w: int, h: int, r: int) -> bool {
    let yy = strip.1 - 4;
    let cut = strip.0 - 4;
    &&& 0 <= yy < h - 8
    &&& is_cut(yy, h - 8, corner(r), cut)
    &&& strip.2 == w - 8 - 2 * cut
    &&& strip.2 > 0
}

/// Whether a list of strips has one for a row.
pub open spec fn has_row(list: Seq<(int, int, int)>, yy: int) -> bool {
    exists|i: int| 0 <= i < list.len() && (#[trigger] list[i]).1 == yy + 4
}

proof fn lemma_row(yy: int, w: int, h: int, r: int)
    requires
        0 <= yy < h - 8,
        inner_radius(r) <= MAX_ROOT,
    ensures
        ({
            let (left, right) = row_ends(yy, w - 8, h - 8, inner_radius(r));
            is_cut(yy, h - 8, corner(r), left) && right == w - 8 - left && left >= 0
        }),
{
    let ir = inner_radius(r);
    assert(ir == corner(r));
    let ih = h - 8;
    if yy < ir {
        lemma_reaches(ir, ir - yy);
    } else if yy >= ih - ir {
        lemma_reaches(ir, yy - (ih - ir));
    }
}

proof fn lemma_strips(w: int, h: int, r: int, count: int)
    requires
        0 <= count <= h - 8,
        inner_radius(r) <= MAX_ROOT,
    ensures
        ({
            let list = region_strips(w, h, r, count);
            &&& forall|i: int|
                0 <= i < list.len() ==> is_strip(#[trigger] list[i], w, h, r) && list[i].1 < count
                    + 4
            &&& forall|i: int, j: int| 0 <= i < j < list.len() ==> list[i].1 < list[j].1
            &&& forall|yy: int, cut: int|
                0 <= yy < count && #[trigger] is_cut(yy, h - 8, corner(r), cut) && w - 8 - 2 * cut
                    > 0 ==> has_row(list, yy)
        }),
    decreases count,
{
    if count > 0 {
        lemma_strips(w, h, r, count - 1);
        let yy = count - 1;
        lemma_row(yy, w, h, r);
        let above = region_strips(w, h, r, count - 1);
        let list = region_strips(w, h, r, count);
        let (left, right) = row_ends(yy, w - 2 * INSET, h - 2 * INSET, inner_radius(r));
        assert forall|i: int| 0 <= i < list.len() implies is_strip(#[trigger] list[i], w, h, r)
            && list[i].1 < count + 4 by {
            if i < above.len() {
                assert(list[i] == above[i]);
            }
        }
        assert forall|i: int, j: int| 0 <= i < j < list.len() implies list[i].1 < list[j].1 by {
            assert(list[i] == above[i]);
            if j < above.len() {
                assert(list[j] == above[j]);
            }
        }
        assert forall|y: int, cut: int|
            0 <= y < count && #[trigger] is_cut(y, h - 8, corner(r), cut) && w - 8 - 2 * cut
                > 0 implies has_row(list, y) by {
            if y < yy {
                assert(has_row(above, y));
                let i = choose|i: int| 0 <= i < above.len() && (#[trigger] above[i]).1 == y + 4;
                assert(list[i] == above[i]);
            } else {
                lemma_one_cut(yy, h - 8, corner(r), cut, left);
                assert(list[above.len() as int].1 == y + 4);
            }
        }
    }
}

/// A root that is reached is not exceeded by any that is not.
proof fn lemma_one_reach(n: int, first: int, second: int)
    requires
        0 <= first,
        0 <= second,
        root_reaches(n, first),
        !root_reaches(n, first + 1),
        root_reaches(n, second),
        !root_reaches(n, second + 1),
    ensures
        first == second,
{
    lemma_root_reaches(n, first);
    lemma_root_reaches(n, first + 1);
    lemma_root_reaches(n, second);
    lemma_root_reaches(n, second + 1);
    lemma_single_root(first, n);
    lemma_single_root(second, n);
}

proof fn lemma_one_cut(yy: int, height: int, radius: int, first: int, second: int)
    requires
        is_cut(yy, height, radius, first),
        is_cut(yy, height, radius, second),
    ensures
        first == second,
{
    let dy = if yy < radius {
        radius - yy
    } else {
        yy - (height - radius)
    };
    let difference = single(radius * radius) - single(dy * dy);
    let n = single(
        if difference > 0 {
            difference
        } else {
            0
        },
    );
    if yy < radius || yy >= height - radius {
        lemma_one_reach(n, radius - first, radius - second);
    }
}

/// The region of a card has a strip for every row that its corners leave anything of, from top to
/// bottom, and each is what they leave.
pub proof fn law_add_rounded_region(w: i32, h: i32, r: i32, rows: Vec<RegionRow>)
    requires
        h > 8 ==> corner(r as int) <= MAX_ROOT,
        call_ensures(add_rounded_region, (w, h, r), rows),
    ensures
        forall|i: int|
            0 <= i < rows@.len() ==> is_strip(
                (
                    (#[trigger] rows@[i]).x as int,
                    rows@[i].y as int,
                    rows@[i].width as int,
                ),
                w as int,
                h as int,
                r as int,
            ),
        forall|i: int, j: int| 0 <= i < j < rows@.len() ==> rows@[i].y < rows@[j].y,
        forall|yy: int, cut: int|
            0 <= yy < h - 8 && #[trigger] is_cut(yy, h - 8, corner(r as int), cut) && w - 8 - 2 * cut
                > 0 ==> exists|i: int| 0 <= i < rows@.len() && (#[trigger] rows@[i]).y == yy + 4,
{
    let list = strips(rows@);
    assert(list.len() == rows@.len());
    assert(corner(r as int) == inner_radius(r as int));
    if h > 8 {
        lemma_strips(w as int, h as int, r as int, h - 8);
    }
    assert forall|i: int| 0 <= i < rows@.len() implies is_strip(
        ((#[trigger] rows@[i]).x as int, rows@[i].y as int, rows@[i].width as int),
        w as int,
        h as int,
        r as int,
    ) by {
        assert(is_strip(list[i], w as int, h as int, r as int));
    }
    assert forall|i: int, j: int| 0 <= i < j < rows@.len() implies rows@[i].y < rows@[j].y by {
        assert(list[i].1 < list[j].1);
    }
    assert forall|yy: int, cut: int|
        0 <= yy < h - 8 && #[trigger] is_cut(yy, h - 8, corner(r as int), cut) && w - 8 - 2 * cut
            > 0 implies exists|i: int| 0 <= i < rows@.len() && (#[trigger] rows@[i]).y == yy + 4 by {
        assert(has_row(list, yy));
        let i = choose|i: int| 0 <= i < list.len() && (#[trigger] list[i]).1 == yy + 4;
        assert(rows@[i].y == yy + 4);
    }
}

} // verus!
