use vstd::prelude::*;
use vstd::std_specs::ops::{AddSpec, MulSpec};
use crate::circular_buffer::{CircularBuffer, RingState};
use crate::sample::{arith_exact, arith_total, is_rest_value, Sample};

verus! {

/// Whether a stage doubles (up) or halves (down) the sample rate.
#[derive(Clone, Copy, Debug, PartialEq, Eq, Structural)]
pub enum SampleRole {
    UpSample,
    DownSample,
}

/// The polyphase half-band filter: the taps of the filtering branch and the
/// gain of the pure-delay branch.
pub struct HalfbandFilter<T> {
    pub taps: Vec<T>,
    pub fold_scale: T,
}

impl<T: Sample> HalfbandFilter<T> {
    pub fn new(taps: Vec<T>, fold_scale: T) -> (r: Self)
        ensures
            r.taps@ == taps@,
            r.fold_scale == fold_scale,
    {
        HalfbandFilter { taps, fold_scale }
    }
}

/// Length of the pure-delay branch for a filter of `num_taps` taps: about
/// half the filter length, chosen so the branch lines up with the filter's
/// centre. The `num_taps` taps are the even-indexed taps of a symmetric
/// half-band filter of `2 * num_taps - 1` taps, whose centre tap (index
/// `num_taps - 1`) is the only odd-indexed one. On the way up the filtered
/// sample of input `m` lands at output `2m` and the delayed one at
/// `2(m - d) + 1`; that is the centre when `d = num_taps / 2 - 1`. On the way
/// down the delayed odd input `2(m - d) + 1` meets the even inputs around
/// `2m - (num_taps - 1)` when `d = num_taps / 2`. For 48 taps: 23 up, 24
/// down, so an up/down pair delays by 47 samples, the filter's group delay.
pub open spec fn delay_len(role: SampleRole, num_taps: nat) -> nat {
    match role {
        SampleRole::UpSample => (num_taps / 2 - 1) as nat,
        SampleRole::DownSample => num_taps / 2,
    }
}

/// The abstract state of an [`OversampleStage`].
pub struct StageState<T> {
    pub filter: RingState<T>,
    pub delay: RingState<T>,
    pub data: Seq<T>,
    pub zero: T,
}

impl<T: Sample> StageState<T> {
    /// At rest: both branches fresh, with the given lengths, and `size`
    /// output samples, each the rest value; every rest value is one that
    /// `T::default()` returns (0 for numeric samples).
    pub open spec fn at_rest(self, size: nat, num_taps: nat, delay_size: nat) -> bool {
        &&& is_rest_value(self.zero)
        &&& is_rest_value(self.filter.zero)
        &&& is_rest_value(self.delay.zero)
        &&& self.filter == RingState::fresh(num_taps, self.filter.zero)
        &&& self.delay == RingState::fresh(delay_size, self.delay.zero)
        &&& self.data == Seq::new(size, |i: int| self.zero)
    }
}

/// One input sample `x` of an up stage, written at output `2 * m` (filtered,
/// doubled) and `2 * m + 1` (delayed; `x` doubled and scaled enters the delay).
pub open spec fn up_step<T: Sample>(st: StageState<T>, m: int, x: T, taps: Seq<T>, fold: T) -> StageState<T> {
    let c = st.filter.conv_out(x, taps);
    StageState {
        filter: st.filter.pushed(x),
        delay: st.delay.pushed(x.add_spec(x).mul_spec(fold)),
        data: st.data.update(2 * m, c.add_spec(c)).update(2 * m + 1, st.delay.oldest()),
        zero: st.zero,
    }
}

/// An up stage after consuming `xs`.
pub open spec fn up_run<T: Sample>(st: StageState<T>, xs: Seq<T>, taps: Seq<T>, fold: T) -> StageState<T>
    decreases xs.len(),
{
    if xs.len() == 0 {
        st
    } else {
        up_step(up_run(st, xs.drop_last(), taps, fold), xs.len() - 1, xs.last(), taps, fold)
    }
}

/// One input pair of a down stage, written at output `m`: the even sample
/// filtered plus the scaled output of the delay branch fed with the odd
/// sample; an absent odd sample contributes the rest value and leaves the
/// delay branch as it is.
pub open spec fn down_step<T: Sample>(
    st: StageState<T>,
    m: int,
    even: T,
    odd: Option<T>,
    taps: Seq<T>,
    fold: T,
) -> StageState<T> {
    let c = st.filter.conv_out(even, taps);
    match odd {
        Some(o) => StageState {
            filter: st.filter.pushed(even),
            delay: st.delay.pushed(o),
            data: st.data.update(m, c.add_spec(st.delay.oldest().mul_spec(fold))),
            zero: st.zero,
        },
        None => StageState {
            filter: st.filter.pushed(even),
            delay: st.delay,
            data: st.data.update(m, c.add_spec(st.zero)),
            zero: st.zero,
        },
    }
}

/// The number of output samples a down stage makes of `n` input samples.
pub open spec fn pairs(n: nat) -> nat {
    (n + 1) / 2
}

/// The odd sample of pair `m`, if `xs` has it.
pub open spec fn odd_of<T>(xs: Seq<T>, m: int) -> Option<T> {
    if 2 * m + 1 < xs.len() {
        Some(xs[2 * m + 1])
    } else {
        None
    }
}

/// The even-indexed samples of `xs`: the first of each pair.
pub open spec fn evens<T>(xs: Seq<T>) -> Seq<T> {
    Seq::new(pairs(xs.len()), |m: int| xs[2 * m])
}

/// The odd-indexed samples of `xs`: the second of each complete pair.
pub open spec fn odds<T>(xs: Seq<T>) -> Seq<T> {
    Seq::new(xs.len() / 2, |m: int| xs[2 * m + 1])
}

/// A down stage after consuming the first `n` pairs of `xs`.
pub open spec fn down_run<T: Sample>(st: StageState<T>, xs: Seq<T>, n: nat, taps: Seq<T>, fold: T) -> StageState<T>
    decreases n,
{
    if n == 0 {
        st
    } else {
        let m = n - 1;
        down_step(down_run(st, xs, m as nat, taps, fold), m, xs[2 * m], odd_of(xs, m), taps, fold)
    }
}

/// One 2x rate-change stage: a filtering branch, a pure-delay branch and an
/// output buffer of fixed capacity.
pub struct OversampleStage<T> {
    filter_buff: CircularBuffer<T>,
    delay_buff: CircularBuffer<T>,
    data: Vec<T>,
    size: usize,
    zero: T,
}

impl<T> View for OversampleStage<T> {
    type V = StageState<T>;

    closed spec fn view(&self) -> StageState<T> {
        StageState { filter: self.filter_buff@, delay: self.delay_buff@, data: self.data@, zero: self.zero }
    }
}

impl<T: Sample> OversampleStage<T> {
    /// Capacity of the output buffer.
    pub closed spec fn spec_size(&self) -> nat {
        self.size as nat
    }

    /// Length of the filtering branch (the number of taps it expects).
    pub closed spec fn num_taps(&self) -> nat {
        self.filter_buff.spec_size()
    }

    /// Length of the pure-delay branch.
    pub closed spec fn delay_size(&self) -> nat {
        self.delay_buff.spec_size()
    }

    pub closed spec fn wf(&self) -> bool {
        &&& self.filter_buff.wf()
        &&& self.delay_buff.wf()
        &&& self.filter_buff.spec_size() > 0
        &&& self.delay_buff.spec_size() > 0
        &&& self.data@.len() == self.size
        &&& is_rest_value(self.zero)
    }

    /// The same capacity and branch lengths as `other`.
    pub open spec fn same_shape(&self, other: &Self) -> bool {
        &&& self.spec_size() == other.spec_size()
        &&& self.num_taps() == other.num_taps()
        &&& self.delay_size() == other.delay_size()
    }

    /// A stage with an output buffer of `target_size` samples, a filtering
    /// branch of `num_taps` and the delay branch that `role` calls for, all at
    /// rest.
    pub fn new(target_size: usize, role: SampleRole, num_taps: usize) -> (r: Self)
        requires
            num_taps >= 4,
        ensures
            r.wf(),
            r.spec_size() == target_size,
            r.num_taps() == num_taps,
            r.delay_size() == delay_len(role, num_taps as nat),
            r@.at_rest(target_size as nat, num_taps as nat, delay_len(role, num_taps as nat)),
    {
        let delay = match role {
            SampleRole::UpSample => num_taps / 2 - 1,
            SampleRole::DownSample => num_taps / 2,
        };
        let zero = T::default();
        let mut data: Vec<T> = Vec::with_capacity(target_size);
        let mut i: usize = 0;
        while i < target_size
            invariant
                i <= target_size,
                data@ =~= Seq::new(i as nat, |j: int| zero),
            decreases target_size - i,
        {
            data.push(zero);
            i = i + 1;
        }
        let filter_buff = CircularBuffer::new(num_taps);
        let delay_buff = CircularBuffer::new(delay);
        OversampleStage { filter_buff, delay_buff, data, size: target_size, zero }
    }

    /// Both branches and the output buffer back to rest.
    pub fn reset(&mut self)
        requires
            old(self).wf(),
        ensures
            final(self)@.at_rest(old(self).spec_size(), old(self).num_taps(), old(self).delay_size()),
            final(self).wf(),
            final(self).same_shape(old(self)),
            final(self)@.filter == RingState::fresh(old(self).num_taps(), old(self)@.filter.zero),
            final(self)@.delay == RingState::fresh(old(self).delay_size(), old(self)@.delay.zero),
            final(self)@.data == Seq::new(old(self).spec_size(), |i: int| old(self)@.zero),
            final(self)@.zero == old(self)@.zero,
    {
        proof {
            self.lemma_output_len();
        }
        self.filter_buff.reset();
        self.delay_buff.reset();
        let mut i: usize = 0;
        while i < self.size
            invariant
                self.wf(),
                self.same_shape(old(self)),
                self.zero == old(self).zero,
                self.filter_buff@ == RingState::fresh(old(self).num_taps(), old(self)@.filter.zero),
                self.delay_buff@ == RingState::fresh(old(self).delay_size(), old(self)@.delay.zero),
                i <= self.size,
                forall|j: int| 0 <= j < i ==> self.data@[j] == self.zero,
            decreases self.size - i,
        {
            self.data.set(i, self.zero);
            i = i + 1;
        }
        assert(self.data@ =~= Seq::new(old(self).spec_size(), |i: int| old(self)@.zero));
    }

    /// Capacity of the output buffer.
    pub fn size(&self) -> (r: usize)
        ensures
            r == self.spec_size(),
    {
        self.size
    }

    /// The output buffer.
    pub fn output(&self) -> (r: &Vec<T>)
        ensures
            r@ == self@.data,
    {
        &self.data
    }

    /// What a well-formed stage shows of itself: the output buffer holds
    /// `spec_size()` samples, the branches have their lengths, and the rest
    /// values are ones `T::default()` returns.
    pub proof fn lemma_output_len(&self)
        requires
            self.wf(),
        ensures
            self@.data.len() == self.spec_size(),
            self@.filter.len() == self.num_taps(),
            self@.delay.len() == self.delay_size(),
            self@.filter.wf(),
            self@.delay.wf(),
            is_rest_value(self@.zero),
            is_rest_value(self@.filter.zero),
            is_rest_value(self@.delay.zero),
    {
        self.filter_buff.lemma_wf();
        self.delay_buff.lemma_wf();
    }

    /// The delay, in samples, of the pure-delay branch.
    pub fn latency_samples(&self) -> (r: usize)
        requires
            self.wf(),
        ensures
            r == self.delay_size(),
    {
        self.delay_buff.size()
    }

    /// For each input sample `x`: writes the filtered `x`, doubled, then the
    /// delay branch's output as `x` doubled and scaled by the fold gain enters
    /// it. Writes `2 * input.len()` samples from the start of `data`.
    pub fn process_up(&mut self, input: &[T], filter: &HalfbandFilter<T>)
        requires
            old(self).wf(),
            2 * input@.len() <= old(self).spec_size(),
            filter.taps@.len() == old(self).num_taps(),
            arith_total::<T>(),
        ensures
            final(self).wf(),
            final(self).same_shape(old(self)),
            final(self)@.zero == old(self)@.zero,
            final(self)@.filter == old(self)@.filter.pushed_all(input@),
            final(self)@.data.skip(2 * input@.len() as int) == old(self)@.data.skip(2 * input@.len() as int),
            arith_exact::<T>() ==> final(self)@ == up_run(old(self)@, input@, filter.taps@, filter.fold_scale),
    {
        let taps = filter.taps.as_slice();
        let mut i: usize = 0;
        while i < input.len()
            invariant
                self.wf(),
                self.same_shape(old(self)),
                self.zero == old(self).zero,
                2 * input@.len() <= self.size,
                taps@ == filter.taps@,
                taps@.len() == self.num_taps(),
                arith_total::<T>(),
                i <= input@.len(),
                self.data@.len() == old(self).data@.len(),
                self@.filter == old(self)@.filter.pushed_all(input@.take(i as int)),
                self.data@.skip(2 * i) == old(self).data@.skip(2 * i),
                arith_exact::<T>() ==> self@ == up_run(old(self)@, input@.take(i as int), taps@, filter.fold_scale),
            decreases input@.len() - i,
        {
            let x = input[i];
            proof {
                assert(input@.take(i + 1).drop_last() =~= input@.take(i as int));
                assert(input@.take(i + 1).last() == x);
            }
            let ghost prev = self.data@;
            let c = self.filter_buff.convolve(x, taps);
            self.data.set(2 * i, c + c);
            let d = self.delay_buff.delay((x + x) * filter.fold_scale);
            self.data.set(2 * i + 1, d);
            proof {
                assert(self.data@.skip(2 * i + 2) =~= prev.skip(2 * i).skip(2));
                assert(old(self).data@.skip(2 * i + 2) =~= old(self).data@.skip(2 * i).skip(2));
            }
            i = i + 1;
        }
        assert(input@.take(input@.len() as int) =~= input@);
    }

    /// For each pair of input samples `(even, odd)`: writes the filtered
    /// `even` plus the delay branch's output, scaled by the fold gain, as
    /// `odd` enters it. Writes `(input.len() + 1) / 2` samples from the start
    /// of `data`.
    pub fn process_down(&mut self, input: &[T], filter: &HalfbandFilter<T>)
        requires
            old(self).wf(),
            pairs(input@.len()) <= old(self).spec_size(),
            filter.taps@.len() == old(self).num_taps(),
            arith_total::<T>(),
        ensures
            final(self).wf(),
            final(self).same_shape(old(self)),
            final(self)@.zero == old(self)@.zero,
            final(self)@.filter == old(self)@.filter.pushed_all(evens(input@)),
            final(self)@.delay == old(self)@.delay.pushed_all(odds(input@)),
            final(self)@.data.skip(pairs(input@.len()) as int) == old(self)@.data.skip(pairs(input@.len()) as int),
            arith_exact::<T>() ==> final(self)@ == down_run(
                old(self)@,
                input@,
                pairs(input@.len()),
                filter.taps@,
                filter.fold_scale,
            ),
    {
        let taps = filter.taps.as_slice();
        let n = input.len();
        let mut m: usize = 0;
        while m < n - m
            invariant
                self.wf(),
                self.same_shape(old(self)),
                self.zero == old(self).zero,
                n == input@.len(),
                pairs(n as nat) <= self.size,
                taps@ == filter.taps@,
                taps@.len() == self.num_taps(),
                arith_total::<T>(),
                m <= pairs(n as nat),
                2 * m <= n + 1,
                self.data@.len() == old(self).data@.len(),
                self@.filter == old(self)@.filter.pushed_all(evens(input@).take(m as int)),
                self@.delay == old(self)@.delay.pushed_all(odds(input@).take(if 2 * m <= n { m as int } else { (m - 1) as int })),
                self.data@.skip(m as int) == old(self).data@.skip(m as int),
                arith_exact::<T>() ==> self@ == down_run(old(self)@, input@, m as nat, taps@, filter.fold_scale),
            decreases n + 1 - 2 * m,
        {
            let ghost prev = self.data@;
            let ghost taken = if 2 * m <= n { m as int } else { (m - 1) as int };
            proof {
                assert(evens(input@).take(m + 1).drop_last() =~= evens(input@).take(m as int));
                assert(evens(input@).take(m + 1).last() == input@[2 * m]);
            }
            let even = self.filter_buff.convolve(input[2 * m], taps);
            let out = if 2 * m + 1 < n {
                proof {
                    assert(taken == m);
                    assert(odds(input@).take(m + 1).drop_last() =~= odds(input@).take(m as int));
                    assert(odds(input@).take(m + 1).last() == input@[2 * m + 1]);
                }
                let odd = self.delay_buff.delay(input[2 * m + 1]);
                even + odd * filter.fold_scale
            } else {
                even + self.zero
            };
            self.data.set(m, out);
            proof {
                assert(self.data@.skip(m + 1) =~= prev.skip(m as int).skip(1));
                assert(old(self).data@.skip(m + 1) =~= old(self).data@.skip(m as int).skip(1));
            }
            m = m + 1;
        }
        proof {
            assert(evens(input@).take(m as int) =~= evens(input@));
            if 2 * m <= n {
                assert(odds(input@).take(m as int) =~= odds(input@));
            } else {
                assert(odds(input@).take(m - 1) =~= odds(input@));
            }
        }
    }
}

} // verus!
