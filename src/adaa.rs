use vstd::prelude::*;
use crate::sample::{is_rest_value, Sample};

verus! {

/// The waveshaping nonlinearity.
#[derive(Clone, Copy, Debug, PartialEq, Eq, Structural)]
pub enum NLProc {
    HardClip,
    Tanh,
}

/// Which antiderivative the antialiasing uses.
#[derive(Clone, Copy, Debug, PartialEq, Eq, Structural)]
pub enum AntiderivativeOrder {
    FirstOrder,
    SecondOrder,
}

/// The history of a first-order antiderivative processor: the previous
/// input and the first antiderivative at it.
#[derive(Clone, Copy, Debug)]
pub struct ADAAFirst<T> {
    pub x1: T,
    pub ad1_x1: T,
    pub proc: NLProc,
}

impl<T: Sample> ADAAFirst<T> {
    /// No history yet: under `style`, both slots hold the value
    /// `T::default()` returns (0 for numeric samples).
    pub open spec fn is_fresh(self, style: NLProc) -> bool {
        &&& self.proc == style
        &&& is_rest_value(self.x1)
        &&& self.ad1_x1 == self.x1
    }

    /// A processor for `pr` with the rest value `T::default()` as history.
    pub fn new(pr: NLProc) -> (r: Self)
        ensures
            r.is_fresh(pr),
    {
        let zero = T::default();
        ADAAFirst { x1: zero, ad1_x1: zero, proc: pr }
    }

    /// A fresh processor for `pr`; nothing of `self` carries over.
    pub fn reset(&self, pr: NLProc) -> (r: Self)
        ensures
            r.is_fresh(pr),
    {
        Self::new(pr)
    }

    /// Records the input just processed and its first antiderivative.
    pub fn update_history(&mut self, x0: T, ad1_x0: T)
        ensures
            *final(self) == (ADAAFirst { x1: x0, ad1_x1: ad1_x0, proc: old(self).proc }),
    {
        self.x1 = x0;
        self.ad1_x1 = ad1_x0;
    }
}

/// The history of a second-order antiderivative processor: the two previous
/// inputs, the second antiderivative at the current and the previous input,
/// and the previous first divided difference.
#[derive(Clone, Copy, Debug)]
pub struct ADAASecond<T> {
    pub x1: T,
    pub x2: T,
    pub ad2_x0: T,
    pub ad2_x1: T,
    pub d2: T,
    pub proc: NLProc,
}

impl<T: Sample> ADAASecond<T> {
    /// No history yet: under `style`, every slot holds the value
    /// `T::default()` returns (0 for numeric samples).
    pub open spec fn is_fresh(self, style: NLProc) -> bool {
        &&& self.proc == style
        &&& is_rest_value(self.x1)
        &&& self.x2 == self.x1
        &&& self.ad2_x0 == self.x1
        &&& self.ad2_x1 == self.x1
        &&& self.d2 == self.x1
    }

    /// A processor for `pr` with the rest value `T::default()` as history.
    pub fn new(pr: NLProc) -> (r: Self)
        ensures
            r.is_fresh(pr),
    {
        let zero = T::default();
        ADAASecond { x1: zero, x2: zero, ad2_x0: zero, ad2_x1: zero, d2: zero, proc: pr }
    }

    /// A fresh processor for `pr`; nothing of `self` carries over.
    pub fn reset(&self, pr: NLProc) -> (r: Self)
        ensures
            r.is_fresh(pr),
    {
        Self::new(pr)
    }

    /// Shifts the history by one input: the first divided difference `d1`
    /// becomes the previous one, the inputs move back one place with `x0` the
    /// newest, and the second antiderivative at `x0` (held in `ad2_x0`)
    /// becomes the previous one.
    pub fn shift_history(&mut self, x0: T, d1: T)
        ensures
            *final(self) == (ADAASecond {
                x1: x0,
                x2: old(self).x1,
                ad2_x0: old(self).ad2_x0,
                ad2_x1: old(self).ad2_x0,
                d2: d1,
                proc: old(self).proc,
            }),
    {
        self.d2 = d1;
        self.x2 = self.x1;
        self.x1 = x0;
        self.ad2_x1 = self.ad2_x0;
    }
}

/// The nonlinearity and antiderivative order in use.
#[derive(Clone, Copy, Debug, PartialEq, Eq, Structural)]
pub struct ProcessorState {
    pub style: NLProc,
    pub order: AntiderivativeOrder,
}

impl ProcessorState {
    pub fn new(style: NLProc, order: AntiderivativeOrder) -> (r: Self)
        ensures
            r.style == style,
            r.order == order,
    {
        ProcessorState { style, order }
    }
}

/// A first- and a second-order processor, both kept allocated, and the state
/// that says which one runs and under which nonlinearity.
#[derive(Clone, Copy, Debug)]
pub struct NonlinearProcessor<T> {
    pub state: ProcessorState,
    pub first: ADAAFirst<T>,
    pub second: ADAASecond<T>,
}

impl<T: Sample> NonlinearProcessor<T> {
    /// Both processors fresh for the state's nonlinearity.
    pub open spec fn is_fresh(self) -> bool {
        &&& self.first.is_fresh(self.state.style)
        &&& self.second.is_fresh(self.state.style)
    }

    /// The processors agree with the state on the nonlinearity.
    pub open spec fn wf(self) -> bool {
        &&& self.first.proc == self.state.style
        &&& self.second.proc == self.state.style
    }

    /// Hard clipping with the first-order processor, no history.
    pub fn new() -> (r: Self)
        ensures
            r.state == (ProcessorState { style: NLProc::HardClip, order: AntiderivativeOrder::FirstOrder }),
            r.is_fresh(),
            r.wf(),
    {
        let style = NLProc::HardClip;
        NonlinearProcessor {
            state: ProcessorState::new(style, AntiderivativeOrder::FirstOrder),
            first: ADAAFirst::new(style),
            second: ADAASecond::new(style),
        }
    }

    /// Moves to `requested`. When it differs from the current state in style
    /// or order, both processors are rebuilt fresh under the requested
    /// style and `true` is returned; otherwise nothing changes.
    pub fn compare_and_change_state(&mut self, requested: ProcessorState) -> (changed: bool)
        ensures
            changed == (requested != old(self).state),
            final(self).state == requested,
            changed ==> final(self).is_fresh(),
            !changed ==> *final(self) == *old(self),
            old(self).wf() ==> final(self).wf(),
            changed ==> final(self).wf(),
    {
        if requested != self.state {
            self.state = requested;
            self.first = self.first.reset(requested.style);
            self.second = self.second.reset(requested.style);
            true
        } else {
            false
        }
    }
}

} // verus!
