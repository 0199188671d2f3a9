use vstd::prelude::*;
use vstd::std_specs::ops::AddSpec;
use vstd::std_specs::ops::AddSpecImpl;
use vstd::std_specs::ops::DivSpec;
use vstd::std_specs::ops::DivSpecImpl;
use vstd::std_specs::ops::MulSpec;
use vstd::std_specs::ops::MulSpecImpl;
use vstd::std_specs::ops::NegSpec;
use vstd::std_specs::ops::SubSpec;
use crate::dynamical_system::DynamicalSystem;
use crate::dynamical_system::Feedback;
use crate::scalar::exact;
use crate::scalar::from_whole;
use crate::scalar::total;
use crate::scalar::whole;
use crate::scalar::Scalar;
use std::marker::PhantomData;
use std::ops::Add;
use std::ops::Div;
use std::ops::Mul;
use std::ops::Neg;

verus! {

/// The Roessler system with a delayed input on its first variable.
pub struct System<R> {
    scalar: PhantomData<R>,
}

/// A point in the phase space of the Roessler system.
#[derive(Copy, Clone)]
pub struct State<R> {
    pub x: R,
    pub y: R,
    pub z: R,
}

/// The parameters of the Roessler system.
#[derive(Copy, Clone)]
pub struct Model<R> {
    pub a: R,
    pub b: R,
    pub c: R,
}

/// States are added variable by variable.
impl<R: Scalar> Add for State<R> {
    type Output = State<R>;

    fn add(self, rhs: State<R>) -> (sum: State<R>) {
        State { x: self.x + rhs.x, y: self.y + rhs.y, z: self.z + rhs.z }
    }
}

impl<R: Scalar> AddSpecImpl for State<R> {
    open spec fn obeys_add_spec() -> bool {
        R::obeys_add_spec()
    }

    open spec fn add_req(self, rhs: State<R>) -> bool {
        self.x.add_req(rhs.x) && self.y.add_req(rhs.y) && self.z.add_req(rhs.z)
    }

    open spec fn add_spec(self, rhs: State<R>) -> State<R> {
        State { x: self.x.add_spec(rhs.x), y: self.y.add_spec(rhs.y), z: self.z.add_spec(rhs.z) }
    }
}

/// A state is scaled variable by variable.
impl<R: Scalar> Mul<R> for State<R> {
    type Output = State<R>;

    fn mul(self, rhs: R) -> (scaled: State<R>) {
        State { x: self.x * rhs, y: self.y * rhs, z: self.z * rhs }
    }
}

impl<R: Scalar> MulSpecImpl<R> for State<R> {
    open spec fn obeys_mul_spec() -> bool {
        R::obeys_mul_spec()
    }

    open spec fn mul_req(self, rhs: R) -> bool {
        self.x.mul_req(rhs) && self.y.mul_req(rhs) && self.z.mul_req(rhs)
    }

    open spec fn mul_spec(self, rhs: R) -> State<R> {
        State { x: self.x.mul_spec(rhs), y: self.y.mul_spec(rhs), z: self.z.mul_spec(rhs) }
    }
}

/// A state is divided variable by variable.
impl<R: Scalar> Div<R> for State<R> {
    type Output = State<R>;

    fn div(self, rhs: R) -> (scaled: State<R>) {
        State { x: self.x / rhs, y: self.y / rhs, z: self.z / rhs }
    }
}

impl<R: Scalar> DivSpecImpl<R> for State<R> {
    open spec fn obeys_div_spec() -> bool {
        R::obeys_div_spec()
    }

    open spec fn div_req(self, rhs: R) -> bool {
        self.x.div_req(rhs) && self.y.div_req(rhs) && self.z.div_req(rhs)
    }

    open spec fn div_spec(self, rhs: R) -> State<R> {
        State { x: self.x.div_spec(rhs), y: self.y.div_spec(rhs), z: self.z.div_spec(rhs) }
    }
}

impl<R: Scalar> DynamicalSystem for System<R> {
    type RealT = R;

    type StateT = State<R>;

    type ModelT = Model<R>;

    open spec fn obeys_system_spec() -> bool {
        exact::<R>()
    }

    open spec fn obeys_row_len_spec() -> bool {
        true
    }

    open spec fn row_len() -> nat {
        3
    }

    open spec fn initial_state_spec() -> State<R> {
        State { x: whole::<R>(1), y: whole::<R>(1), z: whole::<R>(1) }
    }

    open spec fn initial_model_spec() -> Model<R> {
        Model {
            a: whole::<R>(1).div_spec(whole::<R>(5)),
            b: whole::<R>(1).div_spec(whole::<R>(5)),
            c: whole::<R>(57).div_spec(whole::<R>(10)),
        }
    }

    open spec fn keep_state_spec(state: State<R>) -> Seq<R> {
        seq![state.x, state.y, state.z]
    }

    fn initial_state() -> (state: State<R>) {
        State { x: from_whole(1), y: from_whole(1), z: from_whole(1) }
    }

    fn initial_model() -> (model: Model<R>) {
        let one: R = from_whole(1);
        let five: R = from_whole(5);
        let ten: R = from_whole(10);
        let fifty_seven: R = from_whole(57);
        Model { a: one / five, b: one / five, c: fifty_seven / ten }
    }

    fn keep_state(state: &State<R>) -> (kept: Vec<R>) {
        let kept = vec![state.x, state.y, state.z];
        assert(kept@ =~= Self::keep_state_spec(*state));
        kept
    }

    fn keep_state_names() -> (names: &'static [&'static str]) {
        let names: &'static [&'static str] = &["x", "y", "z"];
        names
    }
}

impl<R: Scalar> Feedback for System<R> {
    type FeedbackT = R;

    type WeightT = R;

    open spec fn delay_row_len() -> nat {
        4
    }

    open spec fn zero_feedback_spec() -> R {
        whole::<R>(0)
    }

    open spec fn f_spec(state: State<R>, model: Model<R>, feedback: R) -> State<R> {
        State {
            x: state.y.neg_spec().sub_spec(state.z).add_spec(feedback),
            y: state.x.add_spec(model.a.mul_spec(state.y)),
            z: model.b.add_spec(state.z.mul_spec(state.x.sub_spec(model.c))),
        }
    }

    open spec fn get_feedback_spec(state: State<R>) -> R {
        state.x
    }

    open spec fn keep_state_and_delay_spec(state: State<R>, feedback: R) -> Seq<R> {
        seq![state.x, state.y, state.z, feedback]
    }

    fn zero_feedback() -> (zero: R) {
        from_whole(0)
    }

    fn f(state: &State<R>, model: &Model<R>, feedback: &R) -> (slope: State<R>) {
        State {
            x: state.y.neg() - state.z + *feedback,
            y: state.x + model.a * state.y,
            z: model.b + state.z * (state.x - model.c),
        }
    }

    fn get_feedback(state: &State<R>) -> (feedback: R) {
        state.x
    }

    fn keep_state_and_delay(state: &State<R>, feedback: &R) -> (kept: Vec<R>) {
        let kept = vec![state.x, state.y, state.z, *feedback];
        assert(kept@ =~= Self::keep_state_and_delay_spec(*state, *feedback));
        kept
    }

    fn keep_state_and_delay_names() -> (names: &'static [&'static str]) {
        let names: &'static [&'static str] = &["x", "y", "z", "x_delay"];
        names
    }
}

} // verus!
