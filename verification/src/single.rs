//! Single-precision arithmetic on whole numbers, without floating point.
use vstd::prelude::*;

verus! {

/// The spacing of the numbers around `n` that single precision can represent.
pub open spec fn single_unit(n: int) -> int {
    if n < 0x100_0000 {
        1
    } else if n < 0x200_0000 {
        2
    } else if n < 0x400_0000 {
        4
    } else if n < 0x800_0000 {
        8
    } else if n < 0x1000_0000 {
        16
    } else if n < 0x2000_0000 {
        32
    } else if n < 0x4000_0000 {
        64
    } else if n < 0x8000_0000 {
        128
    } else {
        256
    }
}

/// A natural number below `2^32` rounded to single precision, ties to even. Distances are compared
/// in single precision.
pub open spec fn single(n: int) -> int {
    let unit = single_unit(n);
    let quotient = n / unit;
    let rest = n % unit;
    if 2 * rest < unit || (2 * rest == unit && quotient % 2 == 0) {
        quotient * unit
    } else {
        (quotient + 1) * unit
    }
}

/// Rounds to single precision.
pub fn to_single(n: u32) -> (rounded: u64)
    ensures
        rounded == single(n as int),
        rounded <= n + 128,
{
    let unit: u64 = if n < 0x100_0000 {
        1
    } else if n < 0x200_0000 {
        2
    } else if n < 0x400_0000 {
        4
    } else if n < 0x800_0000 {
        8
    } else if n < 0x1000_0000 {
        16
    } else if n < 0x2000_0000 {
        32
    } else if n < 0x4000_0000 {
        64
    } else if n < 0x8000_0000 {
        128
    } else {
        256
    };
    let quotient: u64 = n as u64 / unit;
    let rest: u64 = n as u64 % unit;
    proof {
        vstd::arithmetic::div_mod::lemma_fundamental_div_mod(n as int, unit as int);
        assert(unit * quotient == quotient * unit) by (nonlinear_arith);
        assert((quotient + 1) * unit == quotient * unit + unit) by (nonlinear_arith);
    }
    if 2 * rest < unit || (2 * rest == unit && quotient % 2 == 0) {
        quotient * unit
    } else {
        (quotient + 1) * unit
    }
}

/// By how much less than the square of `k` a number may be and still have a square root that single
/// precision rounds to `k`.
pub open spec fn root_slack(k: int) -> int {
    if k <= 4096 {
        0
    } else if k <= 8192 {
        (2 * k - 1) / 4096
    } else if k <= 16384 {
        (2 * k - 1) / 2048
    } else if k <= 32768 {
        (2 * k - 1) / 1024
    } else {
        (2 * k - 1) / 512
    }
}

/// The least whole number whose square root, rounded to single precision, is at least `k`.
pub open spec fn root_threshold(k: int) -> int {
    k * k - root_slack(k)
}

/// Whether `k` is the whole part of the square root of `n`, rounded to single precision.
pub open spec fn is_single_root(k: int, n: int) -> bool {
    0 <= k && root_threshold(k) <= n < root_threshold(k + 1)
}

/// The whole part of the square root of a natural number below `2^32`, rounded to single precision.
pub open spec fn single_root(n: int) -> int {
    choose|k: int| is_single_root(k, n)
}

/// Rounding to single precision changes a number by little, and a small one not at all.
pub proof fn lemma_single_close(n: int)
    requires
        0 <= n < 0x1_0000_0000,
    ensures
        0 <= single(n),
        n - 128 <= single(n) <= n + 128,
        n <= 0x100_0000 ==> single(n) == n,
{
    let unit = single_unit(n);
    let quotient = n / unit;
    vstd::arithmetic::div_mod::lemma_fundamental_div_mod(n, unit);
    assert(unit * quotient == quotient * unit) by (nonlinear_arith);
    assert((quotient + 1) * unit == quotient * unit + unit) by (nonlinear_arith);
}

/// A larger root has a larger threshold.
proof fn lemma_threshold_grows(j: int, k: int)
    requires
        0 <= j < k,
    ensures
        root_threshold(j) < root_threshold(k),
{
    assert(k * k - j * j >= 2 * k - 1) by (nonlinear_arith)
        requires
            0 <= j <= k - 1,
    ;
}

/// A number has only one root.
pub proof fn lemma_single_root(k: int, n: int)
    requires
        is_single_root(k, n),
    ensures
        single_root(n) == k,
{
    let other = single_root(n);
    assert(is_single_root(other, n));
    if other + 1 < k {
        lemma_threshold_grows(other + 1, k);
    }
    if k + 1 < other {
        lemma_threshold_grows(k + 1, other);
    }
}

/// A number below the threshold of a root has a smaller root.
pub proof fn lemma_root_exists(n: int, limit: int) -> (k: int)
    requires
        0 <= n < root_threshold(limit + 1),
        0 <= limit,
    ensures
        is_single_root(k, n),
        k <= limit,
    decreases limit,
{
    if limit == 0 || root_threshold(limit) <= n {
        limit
    } else {
        lemma_root_exists(n, limit - 1)
    }
}

/// The largest number whose square fits in an `i32`.
pub const MAX_ROOT: i32 = 46340;

/// The least number whose square root, rounded to single precision, is at least `k`.
fn threshold_of(k: i64) -> (threshold: i64)
    requires
        0 <= k <= MAX_ROOT,
    ensures
        threshold == root_threshold(k as int),
{
    assert(0 <= k * k <= 46340 * 46340) by (nonlinear_arith)
        requires
            0 <= k <= 46340,
    ;
    let slack: i64 = if k <= 4096 {
        0
    } else if k <= 8192 {
        (2 * k - 1) / 4096
    } else if k <= 16384 {
        (2 * k - 1) / 2048
    } else if k <= 32768 {
        (2 * k - 1) / 1024
    } else {
        (2 * k - 1) / 512
    };
    k * k - slack
}

/// The whole part of the square root of a number, rounded to single precision, known to be at most
/// `limit`.
pub fn square_root(n: u64, limit: i32) -> (root: i32)
    requires
        n <= 0xffff_ffff,
        0 <= limit <= MAX_ROOT,
        n < root_threshold(limit + 1),
    ensures
        root == single_root(n as int),
        0 <= root <= limit,
{
    let mut root: i32 = 0;
    while root < limit
        invariant
            n <= 0xffff_ffff,
            0 <= root <= limit <= MAX_ROOT,
            root_threshold(root as int) <= n < root_threshold(limit + 1),
        decreases limit - root,
    {
        if threshold_of(root as i64 + 1) > n as i64 {
            proof {
                lemma_single_root(root as int, n as int);
            }
            return root;
        }
        root = root + 1;
    }
    proof {
        lemma_single_root(root as int, n as int);
    }
    root
}

} // verus!
