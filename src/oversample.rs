use vstd::prelude::*;
use crate::oversample_stage::{
    delay_len, down_run, evens, odds, pairs, up_run, HalfbandFilter, OversampleStage, SampleRole,
    StageState,
};
use crate::sample::{arith_exact, arith_total, Sample};

verus! {

/// The number of stages allocated in each direction: enough for 16x.
pub const MAX_OVER_SAMPLE_FACTOR: usize = 4;

/// `2^n`.
pub open spec fn two_pow(n: nat) -> nat
    decreases n,
{
    if n == 0 {
        1
    } else {
        2 * two_pow((n - 1) as nat)
    }
}

/// The active oversampling ratio.
#[derive(Clone, Copy, Debug, PartialEq, Eq, Structural)]
pub enum OversampleFactor {
    TwoTimes,
    FourTimes,
    EightTimes,
    SixteenTimes,
}

impl OversampleFactor {
    /// The number of 2x stages the ratio takes.
    pub open spec fn spec_stages(self) -> nat {
        match self {
            OversampleFactor::TwoTimes => 1,
            OversampleFactor::FourTimes => 2,
            OversampleFactor::EightTimes => 3,
            OversampleFactor::SixteenTimes => 4,
        }
    }

    /// The ratio itself.
    pub open spec fn spec_times(self) -> nat {
        two_pow(self.spec_stages())
    }

    /// The number of 2x stages the ratio takes.
    pub fn num_stages(self) -> (r: usize)
        ensures
            r == self.spec_stages(),
    {
        match self {
            OversampleFactor::TwoTimes => 1,
            OversampleFactor::FourTimes => 2,
            OversampleFactor::EightTimes => 3,
            OversampleFactor::SixteenTimes => 4,
        }
    }

    /// The ratio: 2, 4, 8 or 16.
    pub fn times(self) -> (r: u32)
        ensures
            r == self.spec_times(),
    {
        proof {
            reveal_with_fuel(two_pow, 5);
        }
        match self {
            OversampleFactor::TwoTimes => 2,
            OversampleFactor::FourTimes => 4,
            OversampleFactor::EightTimes => 8,
            OversampleFactor::SixteenTimes => 16,
        }
    }

    /// The ratio as its stage count and its scale.
    pub fn factor_scale(self) -> (r: OSFactorScale)
        ensures
            r.factor == self.spec_stages(),
            r.scale == self.spec_times(),
    {
        OSFactorScale { factor: self.num_stages() as u32, scale: self.times() }
    }
}

/// An oversampling ratio written as its number of 2x stages (`factor`) and
/// the ratio itself (`scale == 2^factor`).
#[derive(Clone, Copy, Debug, PartialEq, Eq, Structural)]
pub struct OSFactorScale {
    pub factor: u32,
    pub scale: u32,
}

/// The abstract state of an [`Oversample`] engine.
pub struct EngineState<T> {
    pub factor: OversampleFactor,
    pub up: Seq<StageState<T>>,
    pub down: Seq<StageState<T>>,
    pub taps: Seq<T>,
    pub fold: T,
    pub block_size: nat,
}

/// `n` samples after `j` down stages.
pub open spec fn halved(n: nat, j: nat) -> nat
    decreases j,
{
    if j == 0 {
        n
    } else {
        pairs(halved(n, (j - 1) as nat))
    }
}

/// The latency, in samples, of `stages` active up/down stage pairs whose
/// filtering branches have `num_taps` taps: the sum of the lengths of their
/// delay branches (see `delay_len`), 47 per pair for 48 taps.
pub open spec fn latency(stages: nat, num_taps: nat) -> nat {
    stages * (delay_len(SampleRole::UpSample, num_taps) + delay_len(SampleRole::DownSample, num_taps))
}

/// `2^n` for the stage counts in use.
fn pow2(n: usize) -> (r: usize)
    requires
        n <= 4,
    ensures
        r == two_pow(n as nat),
        r <= 16,
{
    proof {
        reveal_with_fuel(two_pow, 5);
    }
    match n {
        0 => 1,
        1 => 2,
        2 => 4,
        3 => 8,
        _ => 16,
    }
}

/// `block * 2^n` fits wherever `block * 16` does.
proof fn lemma_scaled_fits(block: nat, n: nat)
    requires
        n <= 4,
        block * 16 <= usize::MAX,
    ensures
        block * two_pow(n) <= block * 16,
        two_pow(n) >= 1,
{
    reveal_with_fuel(two_pow, 5);
    assert(two_pow(n) <= 16);
    assert(block * two_pow(n) <= block * 16) by (nonlinear_arith)
        requires
            two_pow(n) <= 16,
    ;
}

/// The samples up stage `i` consumes when `input` is upsampled: `input` for
/// the first stage, the output the stage before made of it otherwise.
pub open spec fn up_stage_input<T>(st: EngineState<T>, input: Seq<T>, i: int) -> Seq<T> {
    if i == 0 {
        input
    } else {
        st.up[i - 1].data.take((input.len() * two_pow(i as nat)) as int)
    }
}

/// The samples down stage `i` consumes when `input` is downsampled through
/// the last `k` stages: `input` for the first of them, the output the stage
/// before made of it otherwise.
pub open spec fn down_stage_input<T>(st: EngineState<T>, input: Seq<T>, k: nat, i: int) -> Seq<T> {
    let first = MAX_OVER_SAMPLE_FACTOR - k;
    if i == first {
        input
    } else {
        st.down[i - 1].data.take(halved(input.len(), (i - first) as nat) as int)
    }
}

/// Copies the first `n` samples of `src` over those of `dst`.
fn copy_prefix<T: Copy>(dst: &mut [T], src: &Vec<T>, n: usize)
    requires
        n <= old(dst)@.len(),
        n <= src@.len(),
    ensures
        final(dst)@.len() == old(dst)@.len(),
        final(dst)@.take(n as int) == src@.take(n as int),
        final(dst)@.skip(n as int) == old(dst)@.skip(n as int),
{
    let mut j: usize = 0;
    while j < n
        invariant
            n <= dst@.len(),
            n <= src@.len(),
            dst@.len() == old(dst)@.len(),
            j <= n,
            forall|m: int| 0 <= m < j ==> dst@[m] == src@[m],
            forall|m: int| n <= m < dst@.len() ==> dst@[m] == old(dst)@[m],
        decreases n - j,
    {
        dst[j] = src[j];
        j = j + 1;
    }
    assert(dst@.take(n as int) =~= src@.take(n as int));
    assert(dst@.skip(n as int) =~= old(dst)@.skip(n as int));
}

/// How many times the block size stage `i` of a direction holds: up stage
/// `i` doubles `2^i` times the block into `2^(i + 1)` times it; down stage
/// `i` halves `2^(4 - i)` times the block into `2^(3 - i)` times it.
pub open spec fn stage_scale(role: SampleRole, i: int) -> nat {
    match role {
        SampleRole::UpSample => two_pow((i + 1) as nat),
        SampleRole::DownSample => two_pow((3 - i) as nat),
    }
}

/// The four stages of one direction, at rest, for blocks of up to `block`
/// samples and filters of `num_taps` taps.
fn build_stages<T: Sample>(block: usize, num_taps: usize, role: SampleRole) -> (r: Vec<OversampleStage<T>>)
    requires
        block * 16 <= usize::MAX,
        num_taps >= 4,
    ensures
        r@.len() == MAX_OVER_SAMPLE_FACTOR,
        forall|j: int|
            0 <= j < MAX_OVER_SAMPLE_FACTOR ==> {
                let s = #[trigger] r@[j];
                &&& s.wf()
                &&& s.spec_size() == block * stage_scale(role, j)
                &&& s.num_taps() == num_taps
                &&& s.delay_size() == delay_len(role, num_taps as nat)
                &&& s@.at_rest(s.spec_size(), num_taps as nat, s.delay_size())
            },
{
    let mut stages: Vec<OversampleStage<T>> = Vec::new();
    let mut i: usize = 0;
    while i < MAX_OVER_SAMPLE_FACTOR
        invariant
            i <= MAX_OVER_SAMPLE_FACTOR,
            stages@.len() == i,
            num_taps >= 4,
            block * 16 <= usize::MAX,
            forall|j: int|
                0 <= j < i ==> {
                    let s = #[trigger] stages@[j];
                    &&& s.wf()
                    &&& s.spec_size() == block * stage_scale(role, j)
                    &&& s.num_taps() == num_taps
                    &&& s.delay_size() == delay_len(role, num_taps as nat)
                    &&& s@.at_rest(s.spec_size(), num_taps as nat, s.delay_size())
                },
        decreases MAX_OVER_SAMPLE_FACTOR - i,
    {
        let e = match role {
            SampleRole::UpSample => i + 1,
            SampleRole::DownSample => 3 - i,
        };
        proof {
            lemma_scaled_fits(block as nat, e as nat);
        }
        let size = block * pow2(e);
        stages.push(OversampleStage::new(size, role, num_taps));
        i = i + 1;
    }
    stages
}

/// `n` samples, each the rest value `T::default()`.
fn rest_samples<T: Sample>(n: usize) -> (r: Vec<T>)
    ensures
        r@.len() == n,
{
    let zero = T::default();
    let mut v: Vec<T> = Vec::with_capacity(n);
    let mut i: usize = 0;
    while i < n
        invariant
            i <= n,
            v@.len() == i,
        decreases n - i,
    {
        v.push(zero);
        i = i + 1;
    }
    v
}

/// Up/down sampling by 2x, 4x, 8x or 16x through chained half-band stages.
/// All four stages of each direction are allocated up front; the factor
/// decides how many take part.
pub struct Oversample<T> {
    factor: OversampleFactor,
    up_stages: Vec<OversampleStage<T>>,
    down_stages: Vec<OversampleStage<T>>,
    filter: HalfbandFilter<T>,
    block_size: usize,
    scratch: Vec<T>,
}

impl<T> View for Oversample<T> {
    type V = EngineState<T>;

    closed spec fn view(&self) -> EngineState<T> {
        EngineState {
            factor: self.factor,
            up: self.up_stages@.map_values(|s: OversampleStage<T>| s@),
            down: self.down_stages@.map_values(|s: OversampleStage<T>| s@),
            taps: self.filter.taps@,
            fold: self.filter.fold_scale,
            block_size: self.block_size as nat,
        }
    }
}

impl<T: Sample> Oversample<T> {
    pub closed spec fn wf(&self) -> bool {
        let l = self.filter.taps@.len();
        &&& 4 <= l <= 0x1000_0000
        &&& self.block_size * 16 <= usize::MAX
        &&& self.scratch@.len() == self.block_size * 16
        &&& self.up_stages@.len() == MAX_OVER_SAMPLE_FACTOR
        &&& self.down_stages@.len() == MAX_OVER_SAMPLE_FACTOR
        &&& forall|i: int|
            0 <= i < MAX_OVER_SAMPLE_FACTOR ==> {
                let s = #[trigger] self.up_stages@[i];
                &&& s.wf()
                &&& s.spec_size() == self.block_size * stage_scale(SampleRole::UpSample, i)
                &&& s.num_taps() == l
                &&& s.delay_size() == delay_len(SampleRole::UpSample, l)
            }
        &&& forall|i: int|
            0 <= i < MAX_OVER_SAMPLE_FACTOR ==> {
                let s = #[trigger] self.down_stages@[i];
                &&& s.wf()
                &&& s.spec_size() == self.block_size * stage_scale(SampleRole::DownSample, i)
                &&& s.num_taps() == l
                &&& s.delay_size() == delay_len(SampleRole::DownSample, l)
            }
    }

    /// An engine at rest for blocks of up to `initial_buff_size` samples,
    /// running at `initial_factor`, filtering with `filter`. Up stage `i`
    /// holds `initial_buff_size * 2^(i + 1)` samples, down stage `i`
    /// `initial_buff_size * 2^(3 - i)`.
    pub fn new(initial_factor: OversampleFactor, initial_buff_size: usize, filter: HalfbandFilter<T>) -> (r: Self)
        requires
            4 <= filter.taps@.len() <= 0x1000_0000,
            initial_buff_size * 16 <= usize::MAX,
        ensures
            r.wf(),
            r@.factor == initial_factor,
            r@.taps == filter.taps@,
            r@.fold == filter.fold_scale,
            r@.block_size == initial_buff_size,
            r.layout(),
            r.at_rest(),
    {
        let l = filter.taps.len();
        let r = Oversample {
            factor: initial_factor,
            up_stages: build_stages(initial_buff_size, l, SampleRole::UpSample),
            down_stages: build_stages(initial_buff_size, l, SampleRole::DownSample),
            filter,
            block_size: initial_buff_size,
            scratch: rest_samples(initial_buff_size * 16),
        };
        proof {
            r.lemma_layout();
            r.lemma_at_rest();
        }
        r
    }

    /// Rebuilds every stage, at rest, for blocks of up to `block_size`
    /// samples; factor and filter are kept. This allocates: call it when the
    /// host announces its block size, not while processing.
    pub fn initialize(&mut self, block_size: usize)
        requires
            old(self).wf(),
            block_size * 16 <= usize::MAX,
        ensures
            final(self).wf(),
            final(self)@.factor == old(self)@.factor,
            final(self)@.taps == old(self)@.taps,
            final(self)@.fold == old(self)@.fold,
            final(self)@.block_size == block_size,
            final(self).layout(),
            final(self).at_rest(),
    {
        let l = self.filter.taps.len();
        self.up_stages = build_stages(block_size, l, SampleRole::UpSample);
        self.down_stages = build_stages(block_size, l, SampleRole::DownSample);
        self.scratch = rest_samples(block_size * 16);
        self.block_size = block_size;
        proof {
            self.lemma_layout();
            self.lemma_at_rest();
        }
    }

    proof fn lemma_view_stages(&self)
        ensures
            self@.up.len() == self.up_stages@.len(),
            self@.down.len() == self.down_stages@.len(),
            forall|j: int| 0 <= j < self.up_stages@.len() ==> #[trigger] self@.up[j] == self.up_stages@[j]@,
            forall|j: int| 0 <= j < self.down_stages@.len() ==> #[trigger] self@.down[j] == self.down_stages@[j]@,
    {
    }

    /// The stages as laid out for the block size and filter: four each way;
    /// up stage `i` holds `block_size * 2^(i + 1)` samples and down stage `i`
    /// `block_size * 2^(3 - i)`; every filtering branch has one slot per tap
    /// and every delay branch the length `delay_len` gives for its direction.
    pub open spec fn layout(&self) -> bool {
        let l = self@.taps.len();
        &&& self@.up.len() == MAX_OVER_SAMPLE_FACTOR
        &&& self@.down.len() == MAX_OVER_SAMPLE_FACTOR
        &&& forall|i: int|
            0 <= i < MAX_OVER_SAMPLE_FACTOR ==> {
                &&& (#[trigger] self@.up[i]).data.len() == self@.block_size * stage_scale(SampleRole::UpSample, i)
                &&& self@.up[i].filter.len() == l
                &&& self@.up[i].delay.len() == delay_len(SampleRole::UpSample, l)
            }
        &&& forall|i: int|
            0 <= i < MAX_OVER_SAMPLE_FACTOR ==> {
                &&& (#[trigger] self@.down[i]).data.len() == self@.block_size * stage_scale(
                    SampleRole::DownSample,
                    i,
                )
                &&& self@.down[i].filter.len() == l
                &&& self@.down[i].delay.len() == delay_len(SampleRole::DownSample, l)
            }
    }

    /// Every stage, active or not, at rest: both branches fresh and every
    /// output sample the rest value (0 for numeric samples), with the sizes
    /// `layout` gives.
    pub open spec fn at_rest(&self) -> bool {
        let l = self@.taps.len();
        &&& self@.up.len() == MAX_OVER_SAMPLE_FACTOR
        &&& self@.down.len() == MAX_OVER_SAMPLE_FACTOR
        &&& forall|i: int|
            0 <= i < MAX_OVER_SAMPLE_FACTOR ==> (#[trigger] self@.up[i]).at_rest(
                self@.block_size * stage_scale(SampleRole::UpSample, i),
                l,
                delay_len(SampleRole::UpSample, l),
            )
        &&& forall|i: int|
            0 <= i < MAX_OVER_SAMPLE_FACTOR ==> (#[trigger] self@.down[i]).at_rest(
                self@.block_size * stage_scale(SampleRole::DownSample, i),
                l,
                delay_len(SampleRole::DownSample, l),
            )
    }

    /// A well-formed engine is laid out as `layout` says.
    pub proof fn lemma_layout(&self)
        requires
            self.wf(),
        ensures
            self.layout(),
    {
        self.lemma_view_stages();
        assert forall|i: int| 0 <= i < MAX_OVER_SAMPLE_FACTOR implies {
            &&& (#[trigger] self@.up[i]).data.len() == self@.block_size * stage_scale(SampleRole::UpSample, i)
            &&& self@.up[i].filter.len() == self@.taps.len()
            &&& self@.up[i].delay.len() == delay_len(SampleRole::UpSample, self@.taps.len())
        } by {
            self.up_stages@[i].lemma_output_len();
        }
        assert forall|i: int| 0 <= i < MAX_OVER_SAMPLE_FACTOR implies {
            &&& (#[trigger] self@.down[i]).data.len() == self@.block_size * stage_scale(
                SampleRole::DownSample,
                i,
            )
            &&& self@.down[i].filter.len() == self@.taps.len()
            &&& self@.down[i].delay.len() == delay_len(SampleRole::DownSample, self@.taps.len())
        } by {
            self.down_stages@[i].lemma_output_len();
        }
    }

    proof fn lemma_at_rest(&self)
        requires
            self.wf(),
            self.stages_at_rest(),
        ensures
            self.at_rest(),
    {
        self.lemma_view_stages();
        assert forall|i: int| 0 <= i < MAX_OVER_SAMPLE_FACTOR implies (#[trigger] self@.up[i]).at_rest(
            self@.block_size * stage_scale(SampleRole::UpSample, i),
            self@.taps.len(),
            delay_len(SampleRole::UpSample, self@.taps.len()),
        ) by {
            let s = self.up_stages@[i];
            assert(s@.at_rest(s.spec_size(), s.num_taps(), s.delay_size()));
        }
        assert forall|i: int| 0 <= i < MAX_OVER_SAMPLE_FACTOR implies (#[trigger] self@.down[i]).at_rest(
            self@.block_size * stage_scale(SampleRole::DownSample, i),
            self@.taps.len(),
            delay_len(SampleRole::DownSample, self@.taps.len()),
        ) by {
            let s = self.down_stages@[i];
            assert(s@.at_rest(s.spec_size(), s.num_taps(), s.delay_size()));
        }
    }

    /// Every stage object at rest, stated over the stages' own shapes.
    closed spec fn stages_at_rest(&self) -> bool {
        &&& forall|i: int|
            0 <= i < MAX_OVER_SAMPLE_FACTOR ==> {
                let s = #[trigger] self.up_stages@[i];
                s@.at_rest(s.spec_size(), s.num_taps(), s.delay_size())
            }
        &&& forall|i: int|
            0 <= i < MAX_OVER_SAMPLE_FACTOR ==> {
                let s = #[trigger] self.down_stages@[i];
                s@.at_rest(s.spec_size(), s.num_taps(), s.delay_size())
            }
    }

    /// The up stages, active or not, in processing order.
    pub fn up_stages(&self) -> (r: &Vec<OversampleStage<T>>)
        ensures
            r@.len() == self@.up.len(),
            forall|i: int| 0 <= i < r@.len() ==> #[trigger] r@[i]@ == self@.up[i],
    {
        &self.up_stages
    }

    /// The down stages, active or not, in processing order.
    pub fn down_stages(&self) -> (r: &Vec<OversampleStage<T>>)
        ensures
            r@.len() == self@.down.len(),
            forall|i: int| 0 <= i < r@.len() ==> #[trigger] r@[i]@ == self@.down[i],
    {
        &self.down_stages
    }

    /// The size of the largest block the engine takes.
    pub fn block_size(&self) -> (r: usize)
        ensures
            r == self@.block_size,
    {
        self.block_size
    }

    pub fn get_oversample_factor(&self) -> (r: OversampleFactor)
        ensures
            r == self@.factor,
    {
        self.factor
    }

    /// Changes the factor only: every stage keeps its history.
    pub fn set_oversample_factor(&mut self, new_factor: OversampleFactor)
        requires
            old(self).wf(),
        ensures
            final(self).wf(),
            final(self)@ == (EngineState { factor: new_factor, ..old(self)@ }),
            final(self).at_rest() == old(self).at_rest(),
    {
        self.factor = new_factor;
    }

    /// The delay the active stages add: the sum of the delay-branch lengths
    /// of the active up and down stages.
    pub fn get_latency_samples(&self) -> (r: u32)
        requires
            self.wf(),
        ensures
            r == latency(self@.factor.spec_stages(), self@.taps.len()),
    {
        let k = self.factor.num_stages();
        let ghost l = self.filter.taps@.len();
        let ghost per = delay_len(SampleRole::UpSample, l) + delay_len(SampleRole::DownSample, l);
        let mut total: usize = 0;
        let mut i: usize = 0;
        while i < k
            invariant
                self.wf(),
                k == self.factor.spec_stages(),
                l == self.filter.taps@.len(),
                per == delay_len(SampleRole::UpSample, l) + delay_len(SampleRole::DownSample, l),
                i <= k,
                total == latency(i as nat, l),
            decreases k - i,
        {
            let up = self.up_stages[i].latency_samples();
            let down = self.down_stages[3 - i].latency_samples();
            proof {
                assert(self.up_stages@[i as int].delay_size() == delay_len(SampleRole::UpSample, l));
                assert(self.down_stages@[3 - i].delay_size() == delay_len(SampleRole::DownSample, l));
                assert((i + 1) * per == i * per + per) by (nonlinear_arith);
                assert(latency((i + 1) as nat, l) <= 4 * per) by (nonlinear_arith)
                    requires
                        i + 1 <= 4,
                        latency((i + 1) as nat, l) == (i + 1) * per,
                ;
            }
            total = total + up + down;
            i = i + 1;
        }
        proof {
            assert(per <= l);
            assert(total <= 4 * l) by (nonlinear_arith)
                requires
                    total == k * per,
                    k <= 4,
                    per <= l,
            ;
        }
        total as u32
    }

    /// Every stage, active or not, back to rest; the factor is kept.
    pub fn reset(&mut self)
        requires
            old(self).wf(),
        ensures
            final(self).wf(),
            final(self)@.factor == old(self)@.factor,
            final(self)@.taps == old(self)@.taps,
            final(self)@.fold == old(self)@.fold,
            final(self)@.block_size == old(self)@.block_size,
            final(self).layout(),
            final(self).at_rest(),
    {
        let mut i: usize = 0;
        while i < MAX_OVER_SAMPLE_FACTOR
            invariant
                self.wf(),
                self.factor == old(self).factor,
                self.filter.taps@ == old(self).filter.taps@,
                self.filter.fold_scale == old(self).filter.fold_scale,
                self.block_size == old(self).block_size,
                i <= MAX_OVER_SAMPLE_FACTOR,
                forall|j: int|
                    0 <= j < i ==> {
                        let s = #[trigger] self.up_stages@[j];
                        s@.at_rest(s.spec_size(), s.num_taps(), s.delay_size())
                    },
                forall|j: int|
                    0 <= j < i ==> {
                        let s = #[trigger] self.down_stages@[j];
                        s@.at_rest(s.spec_size(), s.num_taps(), s.delay_size())
                    },
            decreases MAX_OVER_SAMPLE_FACTOR - i,
        {
            self.up_stages[i].reset();
            self.down_stages[i].reset();
            i = i + 1;
        }
        proof {
            self.lemma_layout();
            self.lemma_at_rest();
        }
    }

    /// Upsamples `input` through the first `k` up stages (`k` from the
    /// factor), each stage consuming what the one before wrote; copies what
    /// the last one wrote to the start of `output` and returns its length,
    /// `input.len() * 2^k`. The other stages are left as they are.
    pub fn process_up(&mut self, input: &[T], output: &mut [T]) -> (r: usize)
        requires
            old(self).wf(),
            input@.len() <= old(self)@.block_size,
            input@.len() * old(self)@.factor.spec_times() <= old(output)@.len(),
            arith_total::<T>(),
        ensures
            final(self).wf(),
            r == input@.len() * old(self)@.factor.spec_times(),
            final(self)@.factor == old(self)@.factor,
            final(self)@.taps == old(self)@.taps,
            final(self)@.fold == old(self)@.fold,
            final(self)@.block_size == old(self)@.block_size,
            final(self)@.down == old(self)@.down,
            forall|i: int|
                old(self)@.factor.spec_stages() <= i < MAX_OVER_SAMPLE_FACTOR ==> #[trigger] final(self)@.up[i]
                    == old(self)@.up[i],
            forall|i: int|
                0 <= i < old(self)@.factor.spec_stages() ==> #[trigger] final(self)@.up[i].filter
                    == old(self)@.up[i].filter.pushed_all(up_stage_input(final(self)@, input@, i)),
            arith_exact::<T>() ==> forall|i: int|
                0 <= i < old(self)@.factor.spec_stages() ==> #[trigger] final(self)@.up[i] == up_run(
                    old(self)@.up[i],
                    up_stage_input(final(self)@, input@, i),
                    old(self)@.taps,
                    old(self)@.fold,
                ),
            final(output)@.len() == old(output)@.len(),
            final(output)@.take(r as int) == final(self)@.up[old(self)@.factor.spec_stages() - 1].data.take(
                r as int,
            ),
            final(output)@.skip(r as int) == old(output)@.skip(r as int),
    {
        let k = self.factor.num_stages();
        let n = input.len();
        let ghost block = self.block_size as nat;
        proof {
            reveal_with_fuel(two_pow, 5);
            old(self).lemma_view_stages();
            assert(two_pow(1) == 2);
            let s0 = self.up_stages@[0];
            assert(s0.spec_size() == block * two_pow(1));
            assert(2 * n <= s0.spec_size()) by (nonlinear_arith)
                requires
                    two_pow(1) == 2,
                    s0.spec_size() == block * two_pow(1),
                    n <= block,
            ;
        }
        self.up_stages[0].process_up(input, &self.filter);
        proof {
            assert(self.up_stages@[0].wf());
            assert forall|j: int| 1 <= j < MAX_OVER_SAMPLE_FACTOR implies #[trigger] self.up_stages@[j]
                == old(self).up_stages@[j] by {}
            assert(self@.up[0] == self.up_stages@[0]@);
            assert(up_stage_input(self@, input@, 0) == input@);
            reveal_with_fuel(two_pow, 2);
            assert(two_pow(1) == 2);
            assert(n * two_pow(1) == 2 * n && 2 * n <= block * two_pow(1)) by (nonlinear_arith)
                requires
                    two_pow(1) == 2,
                    n <= block,
            ;
        }
        let mut count: usize = 2 * n;
        let mut i: usize = 1;
        while i < k
            invariant
                self.wf(),
                1 <= i <= k,
                k == self.factor.spec_stages(),
                k == old(self)@.factor.spec_stages(),
                n == input@.len(),
                n <= block,
                block == self.block_size,
                count == n * two_pow(i as nat),
                count <= block * two_pow(i as nat),
                self.factor == old(self).factor,
                self.filter.taps@ == old(self).filter.taps@,
                self.filter.fold_scale == old(self).filter.fold_scale,
                self.block_size == old(self).block_size,
                self.down_stages@ == old(self).down_stages@,
                old(self).up_stages@.len() == MAX_OVER_SAMPLE_FACTOR,
                old(self)@.up.len() == MAX_OVER_SAMPLE_FACTOR,
                forall|j: int| i <= j < MAX_OVER_SAMPLE_FACTOR ==> #[trigger] self.up_stages@[j] == old(self).up_stages@[j],
                arith_total::<T>(),
                forall|j: int|
                    0 <= j < i ==> #[trigger] self@.up[j].filter == old(self)@.up[j].filter.pushed_all(
                        up_stage_input(self@, input@, j),
                    ),
                arith_exact::<T>() ==> forall|j: int|
                    0 <= j < i ==> #[trigger] self@.up[j] == up_run(
                        old(self)@.up[j],
                        up_stage_input(self@, input@, j),
                        old(self)@.taps,
                        old(self)@.fold,
                    ),
            decreases k - i,
        {
            proof {
                lemma_scaled_fits(block, i as nat);
                lemma_scaled_fits(block, (i + 1) as nat);
                assert(count * 2 <= block * two_pow((i + 1) as nat)) by (nonlinear_arith)
                    requires
                        count <= block * two_pow(i as nat),
                        two_pow((i + 1) as nat) == 2 * two_pow(i as nat),
                ;
                assert(n * two_pow((i + 1) as nat) == count * 2) by (nonlinear_arith)
                    requires
                        count == n * two_pow(i as nat),
                        two_pow((i + 1) as nat) == 2 * two_pow(i as nat),
                ;
            }
            proof {
                self.up_stages@[i - 1].lemma_output_len();
            }
            copy_prefix(self.scratch.as_mut_slice(), self.up_stages[i - 1].output(), count);
            let ghost before = *self;
            proof {
                before.lemma_view_stages();
            }
            self.up_stages[i].process_up(
                vstd::slice::slice_subrange(self.scratch.as_slice(), 0, count),
                &self.filter,
            );
            proof {
                assert(self.scratch@.take(count as int) =~= self.scratch@.subrange(0, count as int));
                assert forall|j: int| 0 <= j < MAX_OVER_SAMPLE_FACTOR && j != i implies #[trigger] self.up_stages@[j]
                    == before.up_stages@[j] by {}
                self.lemma_view_stages();
                old(self).lemma_view_stages();
                assert forall|j: int| 0 <= j < i + 1 implies #[trigger] self@.up[j].filter
                    == old(self)@.up[j].filter.pushed_all(up_stage_input(self@, input@, j)) by {
                    assert(self@.up[j] == self.up_stages@[j]@);
                    assert(before@.up[j] == before.up_stages@[j]@);
                    if j < i {
                        assert(self@.up[j] == before@.up[j]);
                        if j > 0 {
                            assert(self@.up[j - 1] == before@.up[j - 1]);
                        }
                        assert(up_stage_input(self@, input@, j) == up_stage_input(before@, input@, j));
                    } else {
                        assert(self@.up[i - 1] == before@.up[i - 1]);
                        assert(before.up_stages@[i as int] == old(self).up_stages@[i as int]);
                        assert(old(self)@.up[j] == old(self).up_stages@[j]@);
                        assert(up_stage_input(self@, input@, j) =~= self.scratch@.subrange(0, count as int));
                    }
                }
                if arith_exact::<T>() {
                    assert forall|j: int| 0 <= j < i + 1 implies #[trigger] self@.up[j] == up_run(
                        old(self)@.up[j],
                        up_stage_input(self@, input@, j),
                        old(self)@.taps,
                        old(self)@.fold,
                    ) by {
                        assert(self@.up[j] == self.up_stages@[j]@);
                        assert(before@.up[j] == before.up_stages@[j]@);
                        if j < i {
                            assert(self@.up[j] == before@.up[j]);
                            if j > 0 {
                                assert(self@.up[j - 1] == before@.up[j - 1]);
                            }
                            assert(up_stage_input(self@, input@, j) == up_stage_input(before@, input@, j));
                        } else {
                            assert(self@.up[i - 1] == before@.up[i - 1]);
                            assert(before.up_stages@[i as int] == old(self).up_stages@[i as int]);
                            assert(old(self)@.up[j] == old(self).up_stages@[j]@);
                            assert(up_stage_input(self@, input@, j) =~= self.scratch@.subrange(0, count as int));
                        }
                    }
                }
            }
            count = count * 2;
            i = i + 1;
        }
        proof {
            self.up_stages@[k - 1].lemma_output_len();
            lemma_scaled_fits(block, k as nat);
            assert(count <= self.up_stages@[k - 1].spec_size()) by (nonlinear_arith)
                requires
                    count <= block * two_pow(k as nat),
                    self.up_stages@[k - 1].spec_size() == block * two_pow(k as nat),
            ;
        }
        copy_prefix(output, self.up_stages[k - 1].output(), count);
        proof {
            self.lemma_view_stages();
        }
        count
    }

    /// Downsamples `input` through the last `k` down stages (`k` from the
    /// factor), each stage consuming what the one before wrote; copies what
    /// the last one wrote to the start of `output`: `halved(input.len(), k)`
    /// samples, which is `input.len() / 2^k` when `2^k` divides the length.
    /// The other stages are left as they are.
    pub fn process_down(&mut self, input: &[T], output: &mut [T])
        requires
            old(self).wf(),
            input@.len() <= old(self)@.block_size * old(self)@.factor.spec_times(),
            halved(input@.len(), old(self)@.factor.spec_stages()) <= old(output)@.len(),
            arith_total::<T>(),
        ensures
            final(self).wf(),
            final(self)@.factor == old(self)@.factor,
            final(self)@.taps == old(self)@.taps,
            final(self)@.fold == old(self)@.fold,
            final(self)@.block_size == old(self)@.block_size,
            final(self)@.up == old(self)@.up,
            forall|i: int|
                0 <= i < MAX_OVER_SAMPLE_FACTOR - old(self)@.factor.spec_stages() ==> #[trigger] final(self)@.down[i] == old(self)@.down[i],
            forall|i: int|
                MAX_OVER_SAMPLE_FACTOR - old(self)@.factor.spec_stages() <= i < MAX_OVER_SAMPLE_FACTOR
                    ==> #[trigger] final(self)@.down[i].filter == old(self)@.down[i].filter.pushed_all(
                    evens(down_stage_input(final(self)@, input@, old(self)@.factor.spec_stages(), i)),
                ),
            forall|i: int|
                MAX_OVER_SAMPLE_FACTOR - old(self)@.factor.spec_stages() <= i < MAX_OVER_SAMPLE_FACTOR
                    ==> #[trigger] final(self)@.down[i].delay == old(self)@.down[i].delay.pushed_all(
                    odds(down_stage_input(final(self)@, input@, old(self)@.factor.spec_stages(), i)),
                ),
            arith_exact::<T>() ==> forall|i: int|
                MAX_OVER_SAMPLE_FACTOR - old(self)@.factor.spec_stages() <= i < MAX_OVER_SAMPLE_FACTOR
                    ==> #[trigger] final(self)@.down[i] == down_run(
                    old(self)@.down[i],
                    down_stage_input(final(self)@, input@, old(self)@.factor.spec_stages(), i),
                    pairs(down_stage_input(final(self)@, input@, old(self)@.factor.spec_stages(), i).len()),
                    old(self)@.taps,
                    old(self)@.fold,
                ),
            final(output)@.len() == old(output)@.len(),
            final(output)@.take(halved(input@.len(), old(self)@.factor.spec_stages()) as int) == final(self)@.down[MAX_OVER_SAMPLE_FACTOR - 1].data.take(
                halved(input@.len(), old(self)@.factor.spec_stages()) as int,
            ),
            final(output)@.skip(halved(input@.len(), old(self)@.factor.spec_stages()) as int) == old(output)@.skip(halved(input@.len(), old(self)@.factor.spec_stages()) as int),
            input@.len() % old(self)@.factor.spec_times() == 0 ==> halved(
                input@.len(),
                old(self)@.factor.spec_stages(),
            ) == input@.len() / old(self)@.factor.spec_times(),
    {
        let k = self.factor.num_stages();
        let first = MAX_OVER_SAMPLE_FACTOR - k;
        let n = input.len();
        let ghost block = self.block_size as nat;
        proof {
            reveal_with_fuel(two_pow, 5);
            old(self).lemma_view_stages();
            lemma_halved_exact(n as nat, k as nat);
            let s0 = self.down_stages@[first as int];
            assert(s0.spec_size() == block * two_pow((3 - first) as nat));
            assert(n <= 2 * (block * two_pow((3 - first) as nat))) by (nonlinear_arith)
                requires
                    n <= block * two_pow(k as nat),
                    two_pow(k as nat) == 2 * two_pow((3 - first) as nat),
            ;
        }
        self.down_stages[first].process_down(input, &self.filter);
        let mut count: usize = n - n / 2;
        let mut i: usize = first + 1;
        proof {
            self.lemma_view_stages();
            assert(down_stage_input(self@, input@, k as nat, first as int) == input@);
            reveal_with_fuel(halved, 2);
            assert(count == halved(n as nat, 1));
        }
        while i < MAX_OVER_SAMPLE_FACTOR
            invariant
                self.wf(),
                first + 1 <= i <= MAX_OVER_SAMPLE_FACTOR,
                k == self.factor.spec_stages(),
                k == old(self)@.factor.spec_stages(),
                first == MAX_OVER_SAMPLE_FACTOR - k,
                n == input@.len(),
                block == self.block_size,
                count == halved(n as nat, (i - first) as nat),
                count <= block * two_pow((4 - i) as nat),
                self.factor == old(self).factor,
                self.filter.taps@ == old(self).filter.taps@,
                self.filter.fold_scale == old(self).filter.fold_scale,
                self.block_size == old(self).block_size,
                self.up_stages@ == old(self).up_stages@,
                old(self).down_stages@.len() == MAX_OVER_SAMPLE_FACTOR,
                old(self)@.down.len() == MAX_OVER_SAMPLE_FACTOR,
                forall|j: int|
                    (0 <= j < first || i <= j < MAX_OVER_SAMPLE_FACTOR) ==> #[trigger] self.down_stages@[j]
                        == old(self).down_stages@[j],
                arith_total::<T>(),
                forall|j: int|
                    first <= j < i ==> #[trigger] self@.down[j].filter == old(self)@.down[j].filter.pushed_all(
                        evens(down_stage_input(self@, input@, k as nat, j)),
                    ),
                forall|j: int|
                    first <= j < i ==> #[trigger] self@.down[j].delay == old(self)@.down[j].delay.pushed_all(
                        odds(down_stage_input(self@, input@, k as nat, j)),
                    ),
                arith_exact::<T>() ==> forall|j: int|
                    first <= j < i ==> #[trigger] self@.down[j] == down_run(
                        old(self)@.down[j],
                        down_stage_input(self@, input@, k as nat, j),
                        pairs(down_stage_input(self@, input@, k as nat, j).len()),
                        old(self)@.taps,
                        old(self)@.fold,
                    ),
            decreases MAX_OVER_SAMPLE_FACTOR - i,
        {
            proof {
                reveal_with_fuel(two_pow, 5);
                self.down_stages@[i - 1].lemma_output_len();
                lemma_scaled_fits(block, (4 - i) as nat);
                lemma_scaled_fits(block, (3 - i) as nat);
                assert(self.down_stages@[i - 1].spec_size() == block * two_pow((4 - i) as nat));
                assert(self.down_stages@[i as int].spec_size() == block * two_pow((3 - i) as nat));
                assert(count <= 2 * (block * two_pow((3 - i) as nat))) by (nonlinear_arith)
                    requires
                        count <= block * two_pow((4 - i) as nat),
                        two_pow((4 - i) as nat) == 2 * two_pow((3 - i) as nat),
                ;
            }
            copy_prefix(self.scratch.as_mut_slice(), self.down_stages[i - 1].output(), count);
            let ghost before = *self;
            proof {
                before.lemma_view_stages();
            }
            self.down_stages[i].process_down(
                vstd::slice::slice_subrange(self.scratch.as_slice(), 0, count),
                &self.filter,
            );
            proof {
                assert(self.scratch@.take(count as int) =~= self.scratch@.subrange(0, count as int));
                assert forall|j: int| 0 <= j < MAX_OVER_SAMPLE_FACTOR && j != i implies #[trigger] self.down_stages@[j]
                    == before.down_stages@[j] by {}
                self.lemma_view_stages();
                old(self).lemma_view_stages();
                assert forall|j: int| first <= j < i + 1 implies #[trigger] self@.down[j] == if j < i {
                    before@.down[j]
                } else {
                    self@.down[j]
                } && down_stage_input(self@, input@, k as nat, j) == if j < i {
                    down_stage_input(before@, input@, k as nat, j)
                } else {
                    self.scratch@.subrange(0, count as int)
                } by {
                    if j < i {
                        assert(self@.down[j] == before@.down[j]);
                        if j > first {
                            assert(self@.down[j - 1] == before@.down[j - 1]);
                        }
                    } else {
                        assert(self@.down[i - 1] == before@.down[i - 1]);
                        assert(down_stage_input(self@, input@, k as nat, j) =~= self.scratch@.subrange(
                            0,
                            count as int,
                        ));
                    }
                }
                assert(before.down_stages@[i as int] == old(self).down_stages@[i as int]);
                assert forall|j: int| first <= j < i + 1 implies #[trigger] self@.down[j].filter
                    == old(self)@.down[j].filter.pushed_all(evens(down_stage_input(self@, input@, k as nat, j))) by {
                    assert(self@.down[j] == if j < i { before@.down[j] } else { self@.down[j] });
                }
                assert forall|j: int| first <= j < i + 1 implies #[trigger] self@.down[j].delay
                    == old(self)@.down[j].delay.pushed_all(odds(down_stage_input(self@, input@, k as nat, j))) by {
                    assert(self@.down[j] == if j < i { before@.down[j] } else { self@.down[j] });
                }
                if arith_exact::<T>() {
                    assert forall|j: int| first <= j < i + 1 implies #[trigger] self@.down[j] == down_run(
                        old(self)@.down[j],
                        down_stage_input(self@, input@, k as nat, j),
                        pairs(down_stage_input(self@, input@, k as nat, j).len()),
                        old(self)@.taps,
                        old(self)@.fold,
                    ) by {
                        if j < i {
                            assert(self@.down[j] == before@.down[j]);
                            if j > first {
                                assert(self@.down[j - 1] == before@.down[j - 1]);
                            }
                            assert(down_stage_input(self@, input@, k as nat, j) == down_stage_input(
                                before@,
                                input@,
                                k as nat,
                                j,
                            ));
                        } else {
                            assert(self@.down[i - 1] == before@.down[i - 1]);
                            assert(before.down_stages@[i as int] == old(self).down_stages@[i as int]);
                            assert(down_stage_input(self@, input@, k as nat, j) =~= self.scratch@.subrange(
                                0,
                                count as int,
                            ));
                        }
                    }
                }
                reveal_with_fuel(halved, 2);
                assert(halved(n as nat, (i + 1 - first) as nat) == pairs(halved(n as nat, (i - first) as nat)));
            }
            count = count - count / 2;
            i = i + 1;
        }
        proof {
            reveal_with_fuel(two_pow, 5);
            self.down_stages@[3].lemma_output_len();
            assert(self.down_stages@[3].spec_size() == block * two_pow(0));
        }
        copy_prefix(output, self.down_stages[MAX_OVER_SAMPLE_FACTOR - 1].output(), count);
        proof {
            self.lemma_view_stages();
        }
    }
}

/// `halved(n, k)` is `n / 2^k` when `2^k` divides `n`.
pub proof fn lemma_halved_exact(n: nat, k: nat)
    ensures
        n % two_pow(k) == 0 ==> halved(n, k) == n / two_pow(k),
    decreases k,
{
    if k > 0 {
        let p = two_pow((k - 1) as nat);
        lemma_two_pow_pos((k - 1) as nat);
        lemma_halved_exact(n, (k - 1) as nat);
        if n % two_pow(k) == 0 {
            assert(two_pow(k) == 2 * p);
            let q = n / two_pow(k);
            vstd::arithmetic::div_mod::lemma_fundamental_div_mod(n as int, two_pow(k) as int);
            assert(n == q * (2 * p));
            assert(n == (2 * q) * p) by (nonlinear_arith)
                requires
                    n == q * (2 * p),
            ;
            vstd::arithmetic::div_mod::lemma_mod_multiples_basic((2 * q) as int, p as int);
            vstd::arithmetic::div_mod::lemma_div_multiples_vanish((2 * q) as int, p as int);
            assert(p * (2 * q) == n) by (nonlinear_arith)
                requires
                    n == (2 * q) * p,
            ;
            assert(n % two_pow((k - 1) as nat) == 0);
            assert(n / two_pow((k - 1) as nat) == 2 * q);
            assert(halved(n, (k - 1) as nat) == 2 * q);
            assert(halved(n, k) == pairs(halved(n, (k - 1) as nat)));
            assert(halved(n, k) == q);
        }
    } else {
        assert(two_pow(0) == 1);
        assert(n / 1 == n);
    }
}

/// `2^k` is positive.
pub proof fn lemma_two_pow_pos(k: nat)
    ensures
        two_pow(k) > 0,
    decreases k,
{
    if k > 0 {
        lemma_two_pow_pos((k - 1) as nat);
    }
}

} // verus!
