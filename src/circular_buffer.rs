use vstd::prelude::*;
use vstd::std_specs::ops::{AddSpec, MulSpec};
use crate::sample::{
    arith_exact, arith_total, dot_fold, is_rest_value, lemma_dot_fold_single, zero_laws, Sample,
};

verus! {

/// The abstract state of a [`CircularBuffer`]: its slots, the cursor, and the
/// rest value the slots start from.
pub struct RingState<T> {
    pub data: Seq<T>,
    pub pos: int,
    pub zero: T,
}

impl<T> RingState<T> {
    pub open spec fn len(self) -> int {
        self.data.len() as int
    }

    /// The cursor stays inside the slots (or at 0 when there are none).
    pub open spec fn wf(self) -> bool {
        0 <= self.pos && (self.pos < self.len() || self.pos == 0)
    }

    /// A buffer of `n` slots holding the rest value, cursor at 0.
    pub open spec fn fresh(n: nat, zero: T) -> Self {
        RingState { data: Seq::new(n, |i: int| zero), pos: 0, zero }
    }

    /// The cursor one step back, wrapping from the first slot to the last.
    pub open spec fn dec_pos(self) -> int {
        if self.pos == 0 {
            self.len() - 1
        } else {
            self.pos - 1
        }
    }

    /// The state after `x` is written at the cursor and the cursor steps back.
    pub open spec fn pushed(self, x: T) -> Self {
        RingState { data: self.data.update(self.pos, x), pos: self.dec_pos(), zero: self.zero }
    }

    /// The state after each sample of `xs` is pushed in turn.
    pub open spec fn pushed_all(self, xs: Seq<T>) -> Self
        decreases xs.len(),
    {
        if xs.len() == 0 {
            self
        } else {
            self.pushed_all(xs.drop_last()).pushed(xs.last())
        }
    }

    /// The sample under the cursor: the oldest one held.
    pub open spec fn oldest(self) -> T {
        self.data[self.pos]
    }

    /// The samples from the most recently written one (index 0) to the
    /// oldest one (last index).
    pub open spec fn history(self) -> Seq<T> {
        Seq::new(self.data.len(), |i: int| self.data[(self.pos + 1 + i) % self.len()])
    }
}

impl<T: Sample> RingState<T> {
    /// The dot product a convolution computes after writing `x`: slot `pos + i`
    /// pairs with kernel index `i`, summed in two runs (from the cursor to the
    /// end, then from the start to the cursor) which are then added.
    pub open spec fn conv_out(self, x: T, kernel: Seq<T>) -> T {
        let d = self.data.update(self.pos, x);
        let o = self.len() - self.pos;
        dot_fold(self.zero, d.subrange(self.pos, self.len()), kernel.subrange(0, o)).add_spec(
            dot_fold(self.zero, d.subrange(0, self.pos), kernel.subrange(o, self.len())),
        )
    }
}

/// A fixed-length circular buffer used as a pure delay line or as the state
/// of an FIR convolution.
pub struct CircularBuffer<T> {
    data: Vec<T>,
    pos: usize,
    size: usize,
    zero: T,
}

impl<T> View for CircularBuffer<T> {
    type V = RingState<T>;

    closed spec fn view(&self) -> RingState<T> {
        RingState { data: self.data@, pos: self.pos as int, zero: self.zero }
    }
}

impl<T: Sample> CircularBuffer<T> {
    /// The number of slots.
    pub closed spec fn spec_size(&self) -> nat {
        self.size as nat
    }

    pub closed spec fn wf(&self) -> bool {
        &&& self.data@.len() == self.size
        &&& self@.wf()
        &&& is_rest_value(self.zero)
    }

    /// What a well-formed buffer shows of itself: as many slots as its size,
    /// the cursor among them, and a rest value that `T::default()` returns.
    pub proof fn lemma_wf(&self)
        requires
            self.wf(),
        ensures
            self@.len() == self.spec_size(),
            self@.wf(),
            is_rest_value(self@.zero),
    {
    }

    /// An all-rest buffer of `initial_size` slots with the cursor at 0; the
    /// rest value is `T::default()`.
    pub fn new(initial_size: usize) -> (r: Self)
        ensures
            r.wf(),
            r.spec_size() == initial_size,
            r@ == RingState::fresh(initial_size as nat, r@.zero),
            is_rest_value(r@.zero),
    {
        let zero = T::default();
        let mut data: Vec<T> = Vec::with_capacity(initial_size);
        let mut i: usize = 0;
        while i < initial_size
            invariant
                i <= initial_size,
                data@ =~= Seq::new(i as nat, |j: int| zero),
            decreases initial_size - i,
        {
            data.push(zero);
            i = i + 1;
        }
        let r = CircularBuffer { data, pos: 0, size: initial_size, zero };
        assert(r@.data =~= RingState::fresh(initial_size as nat, zero).data);
        r
    }

    /// Every slot back to the rest value, cursor to 0.
    pub fn reset(&mut self)
        requires
            old(self).wf(),
        ensures
            final(self).wf(),
            final(self).spec_size() == old(self).spec_size(),
            final(self)@ == RingState::fresh(old(self).spec_size(), old(self)@.zero),
            is_rest_value(final(self)@.zero),
    {
        let mut i: usize = 0;
        while i < self.size
            invariant
                self.wf(),
                self.size == old(self).size,
                self.zero == old(self).zero,
                i <= self.size,
                forall|j: int| 0 <= j < i ==> self.data@[j] == self.zero,
            decreases self.size - i,
        {
            self.data.set(i, self.zero);
            i = i + 1;
        }
        self.pos = 0;
        assert(self@.data =~= RingState::fresh(self.size as nat, self.zero).data);
    }

    /// The rest value the slots start from.
    pub fn rest_value(&self) -> (r: T)
        ensures
            r == self@.zero,
    {
        self.zero
    }

    /// The number of slots.
    pub fn size(&self) -> (r: usize)
        ensures
            r == self.spec_size(),
    {
        self.size
    }

    /// The cursor: the slot the next sample is written to.
    pub fn pos(&self) -> (r: usize)
        ensures
            r == self@.pos,
    {
        self.pos
    }

    /// The slots in storage order.
    pub fn data(&self) -> (r: &Vec<T>)
        ensures
            r@ == self@.data,
    {
        &self.data
    }

    /// Writes `val` at the cursor; the cursor stays.
    pub fn push(&mut self, val: T)
        requires
            old(self).wf(),
            old(self).spec_size() > 0,
        ensures
            final(self).wf(),
            final(self).spec_size() == old(self).spec_size(),
            final(self)@ == (RingState { data: old(self)@.data.update(old(self)@.pos, val), ..old(self)@ }),
    {
        self.data.set(self.pos, val);
    }

    /// Steps the cursor back one slot, from the first slot to the last.
    pub fn decrement_pos(&mut self)
        requires
            old(self).wf(),
            old(self).spec_size() > 0,
        ensures
            final(self).wf(),
            final(self).spec_size() == old(self).spec_size(),
            final(self)@ == (RingState { pos: old(self)@.dec_pos(), ..old(self)@ }),
    {
        self.pos = if self.pos == 0 {
            self.size - 1
        } else {
            self.pos - 1
        };
    }

    /// Returns the oldest sample, writes `val` in its place and steps the
    /// cursor back: a delay line of `size` samples.
    pub fn delay(&mut self, val: T) -> (r: T)
        requires
            old(self).wf(),
            old(self).spec_size() > 0,
        ensures
            final(self).wf(),
            final(self).spec_size() == old(self).spec_size(),
            final(self)@ == old(self)@.pushed(val),
            r == old(self)@.oldest(),
            r == old(self)@.history().last(),
            final(self)@.history() == seq![val] + old(self)@.history().drop_last(),
    {
        proof {
            lemma_pushed_history(self@, val);
        }
        let res = self.data[self.pos];
        self.push(val);
        self.decrement_pos();
        res
    }

    /// Sum of `slot[(pos + i) % size] * other[i]`, from the cursor to the end
    /// and then from the start to the cursor.
    pub fn dot(&self, other: &[T]) -> (r: T)
        requires
            self.wf(),
            self.spec_size() > 0,
            other@.len() == self.spec_size(),
            arith_total::<T>(),
        ensures
            arith_exact::<T>() ==> r == self@.conv_out(self@.data[self@.pos], other@),
    {
        let p = self.pos;
        let o = self.size - p;
        let ghost d = self.data@;
        assert(d.update(p as int, d[p as int]) =~= d);

        let mut fh = self.zero;
        let mut i: usize = 0;
        while i < o
            invariant
                self.wf(),
                other@.len() == self.size,
                p == self.pos,
                o == self.size - p,
                d == self.data@,
                i <= o,
                arith_total::<T>(),
                arith_exact::<T>() ==> fh == dot_fold(
                    self.zero,
                    d.subrange(p as int, p + i),
                    other@.subrange(0, i as int),
                ),
            decreases o - i,
        {
            proof {
                assert(d.subrange(p as int, p + i + 1).drop_last() =~= d.subrange(p as int, p + i));
                assert(other@.subrange(0, i + 1).drop_last() =~= other@.subrange(0, i as int));
            }
            fh = fh + self.data[p + i] * other[i];
            i = i + 1;
        }

        let mut sh = self.zero;
        let mut j: usize = 0;
        while j < p
            invariant
                self.wf(),
                other@.len() == self.size,
                p == self.pos,
                o == self.size - p,
                d == self.data@,
                j <= p,
                arith_total::<T>(),
                arith_exact::<T>() ==> sh == dot_fold(
                    self.zero,
                    d.subrange(0, j as int),
                    other@.subrange(o as int, o + j),
                ),
            decreases p - j,
        {
            proof {
                assert(d.subrange(0, j + 1).drop_last() =~= d.subrange(0, j as int));
                assert(other@.subrange(o as int, o + j + 1).drop_last() =~= other@.subrange(
                    o as int,
                    o + j,
                ));
            }
            sh = sh + self.data[j] * other[o + j];
            j = j + 1;
        }
        proof {
            assert(d.subrange(p as int, p + o) =~= d.subrange(p as int, self.size as int));
            assert(other@.subrange(o as int, o + p) =~= other@.subrange(o as int, self.size as int));
        }
        fh + sh
    }

    /// Writes `val` at the cursor, returns the dot product of the held samples
    /// with `coeffs` (index 0 pairing with `val`), and steps the cursor back.
    pub fn convolve(&mut self, val: T, coeffs: &[T]) -> (r: T)
        requires
            old(self).wf(),
            old(self).spec_size() > 0,
            coeffs@.len() == old(self).spec_size(),
            arith_total::<T>(),
        ensures
            final(self).wf(),
            final(self).spec_size() == old(self).spec_size(),
            final(self)@ == old(self)@.pushed(val),
            final(self)@.history() == seq![val] + old(self)@.history().drop_last(),
            arith_exact::<T>() ==> r == old(self)@.conv_out(val, coeffs@),
    {
        proof {
            lemma_pushed_history(self@, val);
        }
        self.push(val);
        proof {
            assert(self@.data.update(self@.pos, self@.data[self@.pos]) =~= old(self)@.data.update(
                old(self)@.pos,
                val,
            ));
        }
        let res = self.dot(coeffs);
        self.decrement_pos();
        res
    }
}

/// Writing at the cursor and stepping back puts the new sample at the front
/// of the history and drops the oldest one.
pub proof fn lemma_pushed_history<T>(s: RingState<T>, x: T)
    requires
        s.wf(),
        s.len() > 0,
    ensures
        s.pushed(x).history() == seq![x] + s.history().drop_last(),
        s.oldest() == s.history().last(),
{
    let n = s.len();
    let t = s.pushed(x);
    assert((s.pos + 1 + (n - 1)) % n == s.pos) by {
        assert(s.pos + 1 + (n - 1) == s.pos + n);
        vstd::arithmetic::div_mod::lemma_mod_add_multiples_vanish(s.pos, n);
        vstd::arithmetic::div_mod::lemma_small_mod(s.pos as nat, n as nat);
    }
    assert forall|i: int| 0 <= i < n implies #[trigger] t.history()[i] == (seq![x] + s.history().drop_last())[i] by {
        if i == 0 {
            assert((t.pos + 1) % n == s.pos) by {
                if s.pos == 0 {
                    vstd::arithmetic::div_mod::lemma_mod_self_0(n);
                } else {
                    vstd::arithmetic::div_mod::lemma_small_mod(s.pos as nat, n as nat);
                }
            }
        } else {
            assert((t.pos + 1 + i) % n == (s.pos + 1 + (i - 1)) % n) by {
                if s.pos == 0 {
                    assert(t.pos + 1 + i == s.pos + 1 + (i - 1) + n);
                    vstd::arithmetic::div_mod::lemma_mod_add_multiples_vanish(s.pos + 1 + (i - 1), n);
                } else {
                    assert(t.pos + 1 + i == s.pos + 1 + (i - 1));
                }
            }
            let k = (s.pos + 1 + (i - 1)) % n;
            assert(0 <= k < n) by {
                vstd::arithmetic::div_mod::lemma_mod_bound(s.pos + 1 + (i - 1), n);
            }
            assert(k != s.pos) by {
                if k == s.pos {
                    vstd::arithmetic::div_mod::lemma_fundamental_div_mod(s.pos + 1 + (i - 1), n);
                    let q = (s.pos + 1 + (i - 1)) / n;
                    assert(i == q * n);
                    assert(false) by (nonlinear_arith)
                        requires
                            i == q * n,
                            0 < i < n,
                    ;
                }
            }
        }
    }
    assert(t.history() =~= seq![x] + s.history().drop_last());
}

/// The outputs of successive `delay` calls that feed `xs` to a buffer in
/// state `s`.
pub open spec fn delay_outputs<T>(s: RingState<T>, xs: Seq<T>) -> Seq<T>
    decreases xs.len(),
{
    if xs.len() == 0 {
        Seq::empty()
    } else {
        seq![s.oldest()] + delay_outputs(s.pushed(xs[0]), xs.drop_first())
    }
}

/// A buffer of `n` slots is a delay line of `n` samples: the `k`-th output is
/// the input of `n` calls before, and before that the samples held, oldest
/// first.
pub proof fn lemma_delay_line<T>(s: RingState<T>, xs: Seq<T>)
    requires
        s.wf(),
        s.len() > 0,
    ensures
        delay_outputs(s, xs).len() == xs.len(),
        forall|k: int|
            0 <= k < xs.len() ==> #[trigger] delay_outputs(s, xs)[k] == if k < s.len() {
                s.history()[s.len() - 1 - k]
            } else {
                xs[k - s.len()]
            },
    decreases xs.len(),
{
    if xs.len() > 0 {
        let n = s.len();
        let t = s.pushed(xs[0]);
        let rest = xs.drop_first();
        lemma_pushed_history(s, xs[0]);
        assert(t.wf() && t.len() == n);
        lemma_delay_line(t, rest);
        assert forall|k: int| 0 <= k < xs.len() implies #[trigger] delay_outputs(s, xs)[k] == if k < n {
            s.history()[n - 1 - k]
        } else {
            xs[k - n]
        } by {
            if k > 0 {
                assert(delay_outputs(s, xs)[k] == delay_outputs(t, rest)[k - 1]);
                if k - 1 < n {
                    assert(t.history()[n - 1 - (k - 1)] == (seq![xs[0]] + s.history().drop_last())[n - k]);
                }
            }
        }
    }
}

/// An impulse (`one` then rest values) fed to a fresh buffer of `n` slots
/// comes out after `n` calls: the first `n` outputs are the rest value, the
/// next one is `one`.
pub proof fn lemma_delay_impulse<T>(n: nat, zero: T, one: T, len: nat)
    requires
        n > 0,
        len > n,
    ensures
        ({
            let xs = Seq::new(len, |i: int| if i == 0 { one } else { zero });
            let out = delay_outputs(RingState::fresh(n, zero), xs);
            &&& out.len() == len
            &&& forall|k: int| 0 <= k < n ==> #[trigger] out[k] == zero
            &&& out[n as int] == one
        }),
{
    let xs = Seq::new(len, |i: int| if i == 0 { one } else { zero });
    let s = RingState::fresh(n, zero);
    lemma_delay_line(s, xs);
    let out = delay_outputs(s, xs);
    assert forall|k: int| 0 <= k < n implies #[trigger] out[k] == zero by {
        assert(out[k] == s.history()[n - 1 - k]);
    }
    assert(out[n as int] == xs[0]);
}

/// Convolving with a kernel whose taps are all the rest value but the one at
/// index `j` is a delay line of `j` samples scaled by that tap: the result is
/// the sample written `j` calls ago (for `j == 0`, the one being written)
/// times the tap.
pub proof fn lemma_single_tap_is_scaled_delay<T: Sample>(s: RingState<T>, x: T, kernel: Seq<T>, j: int)
    requires
        s.wf(),
        s.len() > 0,
        kernel.len() == s.len(),
        0 <= j < s.len(),
        forall|i: int| 0 <= i < kernel.len() && i != j ==> kernel[i] == s.zero,
        zero_laws(s.zero),
    ensures
        s.conv_out(x, kernel) == s.pushed(x).history()[j].mul_spec(kernel[j]),
        j == 0 ==> s.conv_out(x, kernel) == x.mul_spec(kernel[0]),
        j > 0 ==> s.conv_out(x, kernel) == s.history()[j - 1].mul_spec(kernel[j]),
{
    let n = s.len();
    let p = s.pos;
    let o = n - p;
    let d = s.data.update(p, x);
    let a1 = d.subrange(p, n);
    let b1 = kernel.subrange(0, o);
    let a2 = d.subrange(0, p);
    let b2 = kernel.subrange(o, n);
    lemma_dot_fold_single(s.zero, a1, b1, j);
    lemma_dot_fold_single(s.zero, a2, b2, j - o);
    lemma_pushed_history(s, x);
    let t = s.pushed(x);
    if p == 0 {
        assert((t.pos + 1 + j) % n == j) by {
            assert(t.pos + 1 + j == j + n);
            vstd::arithmetic::div_mod::lemma_mod_add_multiples_vanish(j, n);
            vstd::arithmetic::div_mod::lemma_small_mod(j as nat, n as nat);
        }
    } else {
        assert(t.pos + 1 + j == p + j);
    }
    if j < o {
        assert((p + j) % n == p + j) by {
            vstd::arithmetic::div_mod::lemma_small_mod((p + j) as nat, n as nat);
        }
        assert(t.history()[j] == d[p + j]);
        assert(a1[j] == d[p + j]);
        assert(b1[j] == kernel[j]);
        assert(s.conv_out(x, kernel) == a1[j].mul_spec(b1[j]).add_spec(s.zero));
    } else {
        assert((p + j) % n == j - o) by {
            assert(p + j == (j - o) + n);
            vstd::arithmetic::div_mod::lemma_mod_add_multiples_vanish(j - o, n);
            vstd::arithmetic::div_mod::lemma_small_mod((j - o) as nat, n as nat);
        }
        assert(t.history()[j] == d[j - o]);
        assert(a2[j - o] == d[j - o]);
        assert(b2[j - o] == kernel[j]);
        assert(s.conv_out(x, kernel) == s.zero.add_spec(a2[j - o].mul_spec(b2[j - o])));
    }
    if j > 0 {
        assert(t.history()[j] == (seq![x] + s.history().drop_last())[j]);
    }
}

} // verus!
