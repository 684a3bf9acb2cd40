//! Selection by comparison: confining a value to an interval, and the greatest
//! and least of three values.
//!
//! The functions are generic in the compared type and use nothing of it but `<`
//! and `>`. Their contracts say which argument comes back in terms of what those
//! comparisons answered, so they hold for types whose order is only partial too
//! (among them the floating-point types, where a NaN compares as neither less
//! nor greater). For types that implement a total order the laws at the end of
//! the file show that the results are the usual bounds.

use vstd::laws_cmp::obeys_cmp;
use vstd::laws_cmp::obeys_cmp_ord;
use vstd::laws_cmp::obeys_cmp_partial_ord;
use vstd::laws_cmp::obeys_partial_cmp_spec_properties;
use vstd::prelude::*;
use vstd::std_specs::cmp::OrdSpec;
use vstd::std_specs::cmp::PartialOrdIs;
use vstd::std_specs::cmp::PartialOrdSpec;

verus! {

/// `v` confined to the interval from `from` to `to`: `from` where `v` is less
/// than `from`, else `to` where `v` is greater than `to`, else `v` itself.
pub open spec fn clamped<T: PartialOrd>(v: T, from: T, to: T) -> T {
    if v.is_lt(&from) {
        from
    } else if v.is_gt(&to) {
        to
    } else {
        v
    }
}

/// The second value where the first is less than it, else the first.
pub open spec fn greater_of<T: PartialOrd>(a: T, b: T) -> T {
    if a.is_lt(&b) {
        b
    } else {
        a
    }
}

/// The first value where it is less than the second, else the second.
pub open spec fn lesser_of<T: PartialOrd>(a: T, b: T) -> T {
    if a.is_lt(&b) {
        a
    } else {
        b
    }
}

/// The greatest of three values, found from left to right.
pub open spec fn greatest_of<T: PartialOrd>(x: T, y: T, z: T) -> T {
    greater_of(greater_of(x, y), z)
}

/// The least of three values, found from left to right.
pub open spec fn least_of<T: PartialOrd>(x: T, y: T, z: T) -> T {
    lesser_of(lesser_of(x, y), z)
}

/// What `a < b` may answer: any outcome that the type's `lt` allows.
pub open spec fn answers_less<T: PartialOrd>(a: T, b: T, answer: bool) -> bool {
    call_ensures(T::lt, (&a, &b), answer)
}

/// What `a > b` may answer: any outcome that the type's `gt` allows.
pub open spec fn answers_greater<T: PartialOrd>(a: T, b: T, answer: bool) -> bool {
    call_ensures(T::gt, (&a, &b), answer)
}

/// `r` is what asking `a < b` picks as the greater of the two: `b` where the
/// answer was yes, else `a`.
pub open spec fn picks_greater<T: PartialOrd>(a: T, b: T, r: T) -> bool {
    exists|less: bool| #[trigger] answers_less(a, b, less) && r == if less { b } else { a }
}

/// `r` is what asking `a < b` picks as the lesser of the two: `a` where the
/// answer was yes, else `b`.
pub open spec fn picks_lesser<T: PartialOrd>(a: T, b: T, r: T) -> bool {
    exists|less: bool| #[trigger] answers_less(a, b, less) && r == if less { a } else { b }
}

/// Confines `v` to the interval from `from` to `to`.
///
/// The result is `from` if `v < from` answered yes; otherwise `to` if `v > to`
/// answered yes; otherwise `v`. Where the type's comparisons follow its
/// specification this is `clamped(v, from, to)`.
pub fn clamp<T: PartialOrd>(v: T, from: T, to: T) -> (r: T)
    ensures
        T::obeys_partial_cmp_spec() ==> r == clamped(v, from, to),
        exists|below: bool|
            {
                &&& #[trigger] answers_less(v, from, below)
                &&& below ==> r == from
                &&& !below ==> exists|above: bool|
                    {
                        &&& #[trigger] answers_greater(v, to, above)
                        &&& above ==> r == to
                        &&& !above ==> r == v
                    }
            },
{
    if v < from {
        assert(answers_less(v, from, true));
        from
    } else if v > to {
        assert(answers_less(v, from, false));
        assert(answers_greater(v, to, true));
        to
    } else {
        assert(answers_less(v, from, false));
        assert(answers_greater(v, to, false));
        v
    }
}

/// The greatest of `x`, `y` and `z`.
///
/// First `x < y` picks the greater of the two, and then that one is asked
/// against `z` in the same way. Where the type's
/// comparisons follow its specification this is `greatest_of(x, y, z)`.
pub fn max3<T: PartialOrd>(x: T, y: T, z: T) -> (r: T)
    ensures
        T::obeys_partial_cmp_spec() ==> r == greatest_of(x, y, z),
        exists|winner: T| #[trigger] picks_greater(x, y, winner) && picks_greater(winner, z, r),
{
    if x < y {
        assert(answers_less(x, y, true));
        assert(picks_greater(x, y, y));
        if y < z {
            assert(answers_less(y, z, true));
            z
        } else {
            assert(answers_less(y, z, false));
            y
        }
    } else {
        assert(answers_less(x, y, false));
        assert(picks_greater(x, y, x));
        if x < z {
            assert(answers_less(x, z, true));
            z
        } else {
            assert(answers_less(x, z, false));
            x
        }
    }
}

/// The least of `x`, `y` and `z`.
///
/// First `x < y` picks the lesser of the two, and then that one is asked
/// against `z` in the same way. Where the type's
/// comparisons follow its specification this is `least_of(x, y, z)`.
pub fn min3<T: PartialOrd>(x: T, y: T, z: T) -> (r: T)
    ensures
        T::obeys_partial_cmp_spec() ==> r == least_of(x, y, z),
        exists|winner: T| #[trigger] picks_lesser(x, y, winner) && picks_lesser(winner, z, r),
{
    if x < y {
        assert(answers_less(x, y, true));
        assert(picks_lesser(x, y, x));
        if x < z {
            assert(answers_less(x, z, true));
            x
        } else {
            assert(answers_less(x, z, false));
            z
        }
    } else {
        assert(answers_less(x, y, false));
        assert(picks_lesser(x, y, y));
        if y < z {
            assert(answers_less(y, z, true));
            y
        } else {
            assert(answers_less(y, z, false));
            z
        }
    }
}

/// In a total order every value is at most itself, of two values one is at most
/// the other, and a value that is not less than another is at least that other.
proof fn lemma_total_order<T: Ord>(a: T, b: T)
    requires
        obeys_cmp::<T>(),
    ensures
        a.is_le(&a),
        a.is_lt(&b) ==> a.is_le(&b) && b.is_gt(&a) && !b.is_lt(&a),
        !a.is_lt(&b) ==> b.is_le(&a),
        a.is_gt(&b) <==> b.is_lt(&a),
{
    reveal(obeys_cmp_ord);
    reveal(obeys_cmp_partial_ord);
    reveal(obeys_partial_cmp_spec_properties);
    reveal(vstd::laws_eq::obeys_eq_spec_properties);
    assert(a.partial_cmp_spec(&a) == Some(a.cmp_spec(&a)));
    assert(a.partial_cmp_spec(&b) == Some(a.cmp_spec(&b)));
    assert(b.partial_cmp_spec(&a) == Some(b.cmp_spec(&a)));
}

/// In a total order "at most" is transitive.
proof fn lemma_le_transitive<T: Ord>(a: T, b: T, c: T)
    requires
        obeys_cmp::<T>(),
        a.is_le(&b),
        b.is_le(&c),
    ensures
        a.is_le(&c),
{
    reveal(obeys_cmp_ord);
    reveal(obeys_cmp_partial_ord);
    reveal(obeys_partial_cmp_spec_properties);
    reveal(vstd::laws_eq::obeys_eq_spec_properties);
    assert(a.partial_cmp_spec(&b) == Some(a.cmp_spec(&b)));
    assert(b.partial_cmp_spec(&c) == Some(b.cmp_spec(&c)));
    assert(a.partial_cmp_spec(&c) == Some(a.cmp_spec(&c)));
    assert(c.partial_cmp_spec(&a) == Some(c.cmp_spec(&a)));
    assert(b.partial_cmp_spec(&a) == Some(b.cmp_spec(&a)));
    assert(c.partial_cmp_spec(&b) == Some(c.cmp_spec(&b)));
}

/// In a total order, clamping to an interval that is not empty gives a value
/// inside the interval, and leaves a value that is inside it already as it is.
pub proof fn lemma_clamped_within<T: Ord>(v: T, from: T, to: T)
    requires
        obeys_cmp::<T>(),
        from.is_le(&to),
    ensures
        from.is_le(&clamped(v, from, to)),
        clamped(v, from, to).is_le(&to),
        from.is_le(&v) && v.is_le(&to) ==> clamped(v, from, to) == v,
{
    lemma_total_order(v, from);
    lemma_total_order(v, to);
    lemma_total_order(from, to);
    lemma_total_order(to, v);
    lemma_total_order(from, v);
    if !v.is_lt(&from) && !v.is_gt(&to) {
        assert(v.is_le(&to));
    }
}

/// In a total order the greatest of three values is one of them, and each of
/// the three is at most it.
pub proof fn lemma_greatest_of_bounds<T: Ord>(x: T, y: T, z: T)
    requires
        obeys_cmp::<T>(),
    ensures
        ({
            let m = greatest_of(x, y, z);
            &&& m == x || m == y || m == z
            &&& x.is_le(&m)
            &&& y.is_le(&m)
            &&& z.is_le(&m)
        }),
{
    let w = greater_of(x, y);
    let m = greater_of(w, z);
    lemma_total_order(x, y);
    lemma_total_order(y, x);
    lemma_total_order(w, z);
    lemma_total_order(z, w);
    assert(x.is_le(&w) && y.is_le(&w));
    assert(w.is_le(&m) && z.is_le(&m));
    lemma_le_transitive(x, w, m);
    lemma_le_transitive(y, w, m);
}

/// In a total order the least of three values is one of them, and it is at most
/// each of the three.
pub proof fn lemma_least_of_bounds<T: Ord>(x: T, y: T, z: T)
    requires
        obeys_cmp::<T>(),
    ensures
        ({
            let m = least_of(x, y, z);
            &&& m == x || m == y || m == z
            &&& m.is_le(&x)
            &&& m.is_le(&y)
            &&& m.is_le(&z)
        }),
{
    let w = lesser_of(x, y);
    let m = lesser_of(w, z);
    lemma_total_order(x, y);
    lemma_total_order(y, x);
    lemma_total_order(w, z);
    lemma_total_order(z, w);
    assert(w.is_le(&x) && w.is_le(&y));
    assert(m.is_le(&w) && m.is_le(&z));
    lemma_le_transitive(m, w, x);
    lemma_le_transitive(m, w, y);
}

} // verus!
