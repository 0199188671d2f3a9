use vstd::prelude::*;
use vstd::std_specs::cmp::PartialOrdIs;
use vstd::std_specs::cmp::PartialOrdSpec;
use vstd::std_specs::convert::FromSpec;
use vstd::std_specs::ops::AddSpec;
use vstd::std_specs::ops::DivSpec;
use vstd::std_specs::ops::MulSpec;
use vstd::std_specs::ops::NegSpec;
use vstd::std_specs::ops::RemSpec;
use vstd::std_specs::ops::SubSpec;
use std::ops::Add;
use std::ops::Div;
use std::ops::Mul;
use std::ops::Neg;
use std::ops::Rem;
use std::ops::Sub;

verus! {

/// The numbers in which time, delays, coupling strengths and phases are measured.
///
/// Any copyable type with the usual arithmetic operators, an order and a conversion from
/// small integers qualifies; nothing else is asked of it.
pub trait Scalar: Copy + PartialOrd + From<i32> + Neg<Output = Self> + Add<Output = Self> + Sub<
    Output = Self,
> + Mul<Output = Self> + Div<Output = Self> + Rem<Output = Self> {

}

impl<T> Scalar for T where
    T: Copy + PartialOrd + From<i32> + Neg<Output = T> + Add<Output = T> + Sub<Output = T> + Mul<
        Output = T,
    > + Div<Output = T> + Rem<Output = T>,
 {
}

/// Every operator of `R` may be applied to every pair of operands.
pub open spec fn total<R: Scalar>() -> bool {
    &&& forall|a: R| #[trigger] a.neg_req()
    &&& forall|a: R, b: R| #[trigger] a.add_req(b)
    &&& forall|a: R, b: R| #[trigger] a.sub_req(b)
    &&& forall|a: R, b: R| #[trigger] a.mul_req(b)
    &&& forall|a: R, b: R| #[trigger] a.div_req(b)
    &&& forall|a: R, b: R| #[trigger] a.rem_req(b)
}

/// The operators, comparisons and integer conversion of `R` are functions of their operands.
pub open spec fn exact<R: Scalar>() -> bool {
    &&& R::obeys_neg_spec()
    &&& R::obeys_add_spec()
    &&& R::obeys_sub_spec()
    &&& R::obeys_mul_spec()
    &&& R::obeys_div_spec()
    &&& R::obeys_rem_spec()
    &&& ordered::<R>()
    &&& converts::<R>()
}

/// The comparisons of `R` are functions of their operands.
pub open spec fn ordered<R: Scalar>() -> bool {
    R::obeys_partial_cmp_spec()
}

/// The conversion of small integers to `R` is a function of the integer.
pub open spec fn converts<R: Scalar>() -> bool {
    <R as FromSpec<i32>>::obeys_from_spec()
}

/// The scalar that stands for the integer `n`.
pub open spec fn whole<R: Scalar>(n: i32) -> R {
    <R as FromSpec<i32>>::from_spec(n)
}

/// `a` is strictly below `b`.
pub open spec fn below<R: Scalar>(a: R, b: R) -> bool {
    a.is_lt(&b)
}

/// The scalar that stands for the integer `n`.
pub fn from_whole<R: Scalar>(n: i32) -> (r: R)
    ensures
        exact::<R>() ==> r == whole::<R>(n),
{
    R::from(n)
}

/// Whether `a` is strictly below `b`.
pub fn is_below<R: Scalar>(a: R, b: R) -> (r: bool)
    ensures
        exact::<R>() ==> r == below(a, b),
{
    a < b
}

/// `a` is below `b` or equal to it.
pub open spec fn at_most<R: Scalar>(a: R, b: R) -> bool {
    a.is_le(&b)
}

/// Whether `a` is below `b` or equal to it.
pub fn is_at_most<R: Scalar>(a: R, b: R) -> (r: bool)
    ensures
        exact::<R>() ==> r == at_most(a, b),
{
    a <= b
}

/// The larger of two scalars; the first where it is not below the second.
pub open spec fn larger<R: Scalar>(a: R, b: R) -> R {
    if below(a, b) {
        b
    } else {
        a
    }
}

/// The larger of two scalars; the first where it is not below the second.
pub fn larger_of<R: Scalar>(a: R, b: R) -> (r: R)
    ensures
        r == a || r == b,
        exact::<R>() ==> r == larger(a, b),
{
    if a < b {
        b
    } else {
        a
    }
}

/// One half, as the quotient of one and two.
pub open spec fn half<R: Scalar>() -> R {
    whole::<R>(1).div_spec(whole::<R>(2))
}

/// Whole step counts are looked for below this bound.
pub const STEP_LIMIT: i32 = 2147483647;

/// Bisection for the whole number under `q`: between `lo`, which is at most `q`, and `hi`,
/// which is above it, the midpoint is compared with `q` until the two bounds are neighbours.
/// `None` where a midpoint is neither at most `q` nor above it.
pub open spec fn bisect<R: Scalar>(q: R, lo: int, hi: int) -> Option<int>
    decreases hi - lo,
{
    if hi - lo <= 1 {
        Some(lo)
    } else {
        let mid = lo + (hi - lo) / 2;
        if at_most(whole::<R>(mid as i32), q) {
            bisect(q, mid, hi)
        } else if below(q, whole::<R>(mid as i32)) {
            bisect(q, lo, mid)
        } else {
            None
        }
    }
}

/// The whole number of steps in `q`, rounded down: the `n` with `n <= q < n + 1`.
/// `None` where `q` is not between zero and `STEP_LIMIT`.
pub open spec fn floor_spec<R: Scalar>(q: R) -> Option<usize> {
    if at_most(whole::<R>(0), q) && below(q, whole::<R>(STEP_LIMIT)) {
        match bisect(q, 0, STEP_LIMIT as int) {
            Some(n) => Some(n as usize),
            None => None,
        }
    } else {
        None
    }
}

/// The whole number of steps nearest to `q`; a half is rounded up.
pub open spec fn round_spec<R: Scalar>(q: R) -> Option<usize> {
    match floor_spec(q) {
        Some(n) => if at_most(half::<R>(), q.sub_spec(whole::<R>(n as i32))) {
            Some((n + 1) as usize)
        } else {
            Some(n)
        },
        None => None,
    }
}

/// The whole number of steps in `q`, rounded up.
pub open spec fn ceil_spec<R: Scalar>(q: R) -> Option<usize> {
    match floor_spec(q) {
        Some(n) => if at_most(q, whole::<R>(n as i32)) {
            Some(n)
        } else {
            Some((n + 1) as usize)
        },
        None => None,
    }
}

/// What bisection returns lies under `q` and its successor above it.
proof fn lemma_bisect_brackets<R: Scalar>(q: R, lo: int, hi: int)
    requires
        0 <= lo < hi <= STEP_LIMIT,
        at_most(whole::<R>(lo as i32), q),
        below(q, whole::<R>(hi as i32)),
    ensures
        match bisect(q, lo, hi) {
            Some(n) => lo <= n < hi && at_most(whole::<R>(n as i32), q) && below(
                q,
                whole::<R>((n + 1) as i32),
            ),
            None => true,
        },
    decreases hi - lo,
{
    if hi - lo > 1 {
        let mid = lo + (hi - lo) / 2;
        if at_most(whole::<R>(mid as i32), q) {
            lemma_bisect_brackets(q, mid, hi);
        } else if below(q, whole::<R>(mid as i32)) {
            lemma_bisect_brackets(q, lo, mid);
        }
    }
}

/// A step count rounded down is a whole number `n` below `STEP_LIMIT` with `n <= q < n + 1`.
pub proof fn lemma_floor_brackets<R: Scalar>(q: R)
    ensures
        match floor_spec(q) {
            Some(n) => n < STEP_LIMIT && at_most(whole::<R>(n as i32), q) && below(
                q,
                whole::<R>((n + 1) as i32),
            ),
            None => true,
        },
{
    if at_most(whole::<R>(0), q) && below(q, whole::<R>(STEP_LIMIT)) {
        lemma_bisect_brackets(q, 0, STEP_LIMIT as int);
    }
}

/// Counts the whole steps in `q`, rounding down.
pub fn floor_steps<R: Scalar>(q: R) -> (steps: Option<usize>)
    ensures
        exact::<R>() ==> steps == floor_spec(q),
        steps matches Some(n) ==> n < STEP_LIMIT,
{
    let zero: R = from_whole(0);
    let limit: R = from_whole(STEP_LIMIT);
    if !(is_at_most(zero, q) && is_below(q, limit)) {
        return None;
    }
    let mut lo: i32 = 0;
    let mut hi: i32 = STEP_LIMIT;
    while hi - lo > 1
        invariant
            0 <= lo < hi <= STEP_LIMIT,
            exact::<R>() ==> floor_spec(q) == match bisect(q, lo as int, hi as int) {
                Some(n) => Some(n as usize),
                None => None,
            },
        decreases hi - lo,
    {
        let mid: i32 = lo + (hi - lo) / 2;
        let probe: R = from_whole(mid);
        if is_at_most(probe, q) {
            lo = mid;
        } else if is_below(q, probe) {
            hi = mid;
        } else {
            return None;
        }
    }
    Some(lo as usize)
}

/// Counts the whole steps in `q`, rounding to the nearest.
pub fn round_steps<R: Scalar>(q: R) -> (steps: Option<usize>)
    requires
        total::<R>(),
    ensures
        exact::<R>() ==> steps == round_spec(q),
        steps matches Some(n) ==> n <= STEP_LIMIT,
{
    match floor_steps(q) {
        Some(n) => {
            let one: R = from_whole(1);
            let two: R = from_whole(2);
            let under: R = from_whole(n as i32);
            if is_at_most(one / two, q - under) {
                Some(n + 1)
            } else {
                Some(n)
            }
        },
        None => None,
    }
}

/// Counts the whole steps in `q`, rounding up.
pub fn ceil_steps<R: Scalar>(q: R) -> (steps: Option<usize>)
    ensures
        exact::<R>() ==> steps == ceil_spec(q),
        steps matches Some(n) ==> n <= STEP_LIMIT,
{
    match floor_steps(q) {
        Some(n) => {
            let under: R = from_whole(n as i32);
            if is_at_most(q, under) {
                Some(n)
            } else {
                Some(n + 1)
            }
        },
        None => None,
    }
}

/// `n` is a power of two.
pub open spec fn is_power_of_two(n: nat) -> bool
    decreases n,
{
    n == 1 || (n > 1 && n % 2 == 0 && is_power_of_two(n / 2))
}

/// The first of `p`, `2p`, `4p`, ... that is at least `n`.
pub open spec fn doubled_up_to(p: nat, n: nat) -> nat
    decreases
            if p < n {
                n - p
            } else {
                0
            },
{
    if p >= n || p == 0 {
        p
    } else {
        doubled_up_to(2 * p, n)
    }
}

/// The smallest power of two that is at least `n`.
pub open spec fn power_of_two_at_least(n: nat) -> nat {
    doubled_up_to(1, n)
}

proof fn lemma_doubled_up_to(p: nat, n: nat)
    requires
        is_power_of_two(p),
    ensures
        is_power_of_two(doubled_up_to(p, n)),
        doubled_up_to(p, n) >= n,
        doubled_up_to(p, n) >= p,
        doubled_up_to(p, n) > p ==> doubled_up_to(p, n) < 2 * n,
    decreases
            if p < n {
                n - p
            } else {
                0
            },
{
    if p < n {
        assert(is_power_of_two(2 * p)) by {
            assert((2 * p) / 2 == p);
        }
        lemma_doubled_up_to(2 * p, n);
    }
}

/// The smallest power of two at least `n` is a power of two, at least `n`, and less than
/// twice `n` unless `n` is zero.
pub proof fn lemma_power_of_two_at_least(n: nat)
    ensures
        is_power_of_two(power_of_two_at_least(n)),
        power_of_two_at_least(n) >= n,
        power_of_two_at_least(n) >= 1,
        n >= 1 ==> power_of_two_at_least(n) < 2 * n,
{
    lemma_doubled_up_to(1, n);
}

/// Between a power of two and the next there is no other.
proof fn lemma_power_of_two_gap(p: nat, bound: nat)
    requires
        is_power_of_two(p),
        is_power_of_two(bound),
        p < bound,
    ensures
        2 * p <= bound,
    decreases bound,
{
    if p > 1 {
        lemma_power_of_two_gap(p / 2, bound / 2);
    }
}

proof fn lemma_doubled_up_below(p: nat, n: nat, bound: nat)
    requires
        is_power_of_two(p),
        is_power_of_two(bound),
        p <= bound,
        n <= bound,
    ensures
        doubled_up_to(p, n) <= bound,
    decreases
            if p < n {
                n - p
            } else {
                0
            },
{
    if p < n {
        lemma_power_of_two_gap(p, bound);
        assert(is_power_of_two(2 * p)) by {
            assert((2 * p) / 2 == p);
        }
        lemma_doubled_up_below(2 * p, n, bound);
    }
}

/// The smallest power of two at least `n` is no larger than any power of two at least `n`.
pub proof fn lemma_power_of_two_is_smallest(n: nat, bound: nat)
    requires
        is_power_of_two(bound),
        n <= bound,
    ensures
        power_of_two_at_least(n) <= bound,
{
    lemma_doubled_up_below(1, n, bound);
}

/// The smallest power of two that is at least `n`; `None` where it does not fit the machine.
pub fn next_power_of_two(n: usize) -> (power: Option<usize>)
    ensures
        match power {
            Some(p) => p == power_of_two_at_least(n as nat),
            None => power_of_two_at_least(n as nat) > usize::MAX,
        },
{
    let mut p: usize = 1;
    while p < n
        invariant
            p >= 1,
            doubled_up_to(p as nat, n as nat) == power_of_two_at_least(n as nat),
        decreases
                if p < n {
                    n - p
                } else {
                    0
                },
    {
        if p > usize::MAX / 2 {
            proof {
                lemma_doubled_up_mono(2 * p as nat, n as nat);
            }
            return None;
        }
        p = p * 2;
    }
    Some(p)
}

proof fn lemma_doubled_up_mono(p: nat, n: nat)
    ensures
        doubled_up_to(p, n) >= p,
    decreases
            if p < n {
                n - p
            } else {
                0
            },
{
    if p < n && p != 0 {
        lemma_doubled_up_mono(2 * p, n);
    }
}

} // verus!
