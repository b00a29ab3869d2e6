use vstd::prelude::*;
use vstd::std_specs::ops::{AddSpec, MulSpec};

verus! {

/// A sample type: copied freely, with a rest value from `Default` and the
/// two operations a filter needs.
pub trait Sample: Copy + Default + core::ops::Add<Output = Self> + core::ops::Mul<Output = Self> {

}

impl<T: Copy + Default + core::ops::Add<Output = T> + core::ops::Mul<Output = T>> Sample for T {

}

/// `z` is a value `T::default()` returns: 0 for the integer and
/// floating-point types.
pub open spec fn is_rest_value<T: Default>(z: T) -> bool {
    call_ensures(T::default, (), z)
}

/// `+` and `*` are defined on every pair of samples, as they are for the
/// floating-point types at run time. The std integer types do not meet this
/// (their `+` and `*` may overflow), and vstd leaves the float operations
/// unspecified, so no std type meets it in verified code.
pub open spec fn arith_total<T: Sample>() -> bool {
    &&& forall|a: T, b: T| #[trigger] a.add_req(b)
    &&& forall|a: T, b: T| #[trigger] a.mul_req(b)
}

/// `+` and `*` compute exactly `add_spec` and `mul_spec`.
pub open spec fn arith_exact<T: Sample>() -> bool {
    T::obeys_add_spec() && T::obeys_mul_spec()
}

/// One multiply-accumulate step: `acc + a * b`.
pub open spec fn mac<T: Sample>(acc: T, a: T, b: T) -> T {
    acc.add_spec(a.mul_spec(b))
}

/// Left fold of multiply-accumulate over paired samples, starting at `acc`.
pub open spec fn dot_fold<T: Sample>(acc: T, a: Seq<T>, b: Seq<T>) -> T
    decreases a.len(),
{
    if a.len() == 0 || b.len() == 0 {
        acc
    } else {
        mac(dot_fold(acc, a.drop_last(), b.drop_last()), a.last(), b.last())
    }
}

/// `zero` is absorbing for `*` on the right and neutral for `+` on both
/// sides.
pub open spec fn zero_laws<T: Sample>(zero: T) -> bool {
    &&& forall|y: T| #[trigger] y.mul_spec(zero) == zero
    &&& forall|y: T| #[trigger] zero.add_spec(y) == y
    &&& forall|y: T| #[trigger] y.add_spec(zero) == y
}

/// A multiply-accumulate fold against a kernel that is `zero` everywhere but
/// at index `t` picks out the single product at `t` (or nothing, when `t` is
/// outside the fold).
pub proof fn lemma_dot_fold_single<T: Sample>(zero: T, a: Seq<T>, b: Seq<T>, t: int)
    requires
        a.len() == b.len(),
        zero_laws(zero),
        forall|i: int| 0 <= i < b.len() && i != t ==> b[i] == zero,
    ensures
        dot_fold(zero, a, b) == if 0 <= t < a.len() {
            a[t].mul_spec(b[t])
        } else {
            zero
        },
    decreases a.len(),
{
    if a.len() > 0 {
        let a1 = a.drop_last();
        let b1 = b.drop_last();
        lemma_dot_fold_single(zero, a1, b1, t);
        let inner = dot_fold(zero, a1, b1);
        if t == a.len() - 1 {
            assert(inner == zero);
            assert(zero.add_spec(a.last().mul_spec(b.last())) == a.last().mul_spec(b.last()));
        } else {
            assert(b.last() == zero);
            assert(a.last().mul_spec(zero) == zero);
            assert(inner.add_spec(zero) == inner);
            if 0 <= t < a.len() {
                assert(a1[t] == a[t]);
                assert(b1[t] == b[t]);
            }
        }
    }
}

} // verus!
