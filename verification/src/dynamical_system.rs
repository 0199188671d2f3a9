use vstd::prelude::*;
use crate::network::Edge;
use crate::scalar::exact;
use crate::scalar::total;
use crate::scalar::Scalar;
use vstd::std_specs::ops::AddSpec;
use vstd::std_specs::ops::DivSpec;
use vstd::std_specs::ops::MulSpec;
use vstd::std_specs::ops::SubSpec;
use std::ops::Add;
use std::ops::Div;
use std::ops::Mul;
use std::ops::Sub;

verus! {

/// A continuous-time model that a node can run.
///
/// The model fixes the scalar type it computes in and the types of its state and of its
/// parameters. Each operation comes with a spec function of the same arguments; a model for
/// which `obeys_system_spec` holds promises that its operations return exactly what those
/// functions say. A model that cannot promise this, because its arithmetic is not a
/// function of its operands, leaves `obeys_system_spec` false. In the same way a model
/// that always keeps the same number of observables says so with `obeys_row_len_spec`.
pub trait DynamicalSystem {
    type RealT: Scalar;

    type StateT: Copy + Add<Output = Self::StateT> + Mul<Self::RealT, Output = Self::StateT> + Div<
        Self::RealT,
        Output = Self::StateT,
    >;

    type ModelT: Copy;

    /// Whether the operations of the model return what their spec functions say. A model
    /// that says nothing of it promises nothing.
    open spec fn obeys_system_spec() -> bool {
        false
    }

    /// Whether the model keeps as many observables as `row_len` says. A model that says
    /// nothing of it promises nothing.
    open spec fn obeys_row_len_spec() -> bool {
        false
    }

    /// How many observables one node contributes to a row of output.
    open spec fn row_len() -> nat {
        0
    }

    /// The state a node starts from.
    open spec fn initial_state_spec() -> Self::StateT {
        arbitrary()
    }

    /// The parameters a node starts with.
    open spec fn initial_model_spec() -> Self::ModelT {
        arbitrary()
    }

    /// The observables of a state.
    open spec fn keep_state_spec(state: Self::StateT) -> Seq<Self::RealT> {
        Seq::empty()
    }

    /// The state a node starts from.
    fn initial_state() -> (state: Self::StateT)
        requires
            total::<Self::RealT>(),
        ensures
            Self::obeys_system_spec() ==> state == Self::initial_state_spec(),
    ;

    /// The parameters a node starts with.
    fn initial_model() -> (model: Self::ModelT)
        requires
            total::<Self::RealT>(),
        ensures
            Self::obeys_system_spec() ==> model == Self::initial_model_spec(),
    ;

    /// The observables of a state, in the order of `keep_state_names`.
    fn keep_state(state: &Self::StateT) -> (kept: Vec<Self::RealT>)
        requires
            total::<Self::RealT>(),
        ensures
            Self::obeys_row_len_spec() ==> kept@.len() == Self::row_len(),
            Self::obeys_system_spec() ==> kept@ == Self::keep_state_spec(*state),
    ;

    /// The names of the observables.
    fn keep_state_names() -> (names: &'static [&'static str])
        ensures
            Self::obeys_row_len_spec() ==> names@.len() == Self::row_len(),
    ;
}

/// A model with delayed feedback: what it emits for other nodes to read, and how what it
/// reads enters its equations.
pub trait Feedback: DynamicalSystem {
    type FeedbackT: Copy + Add<Output = Self::FeedbackT> + Sub<Output = Self::FeedbackT> + Mul<
        Self::RealT,
        Output = Self::FeedbackT,
    > + Mul<Self::WeightT, Output = Self::FeedbackT>;

    type WeightT: Copy + WeightFromEdge<Self::RealT>;

    /// How many values `keep_state_and_delay` returns.
    open spec fn delay_row_len() -> nat {
        0
    }

    /// The feedback of a node that has emitted nothing yet.
    open spec fn zero_feedback_spec() -> Self::FeedbackT {
        arbitrary()
    }

    /// The time derivative of `state` under the delayed input `feedback`.
    open spec fn f_spec(
        state: Self::StateT,
        model: Self::ModelT,
        feedback: Self::FeedbackT,
    ) -> Self::StateT {
        arbitrary()
    }

    /// The part of a state that other nodes will read after their delay.
    open spec fn get_feedback_spec(state: Self::StateT) -> Self::FeedbackT {
        arbitrary()
    }

    /// The observables of a state together with the delayed input it saw.
    open spec fn keep_state_and_delay_spec(state: Self::StateT, feedback: Self::FeedbackT) -> Seq<
        Self::RealT,
    > {
        Seq::empty()
    }

    /// The feedback of a node that has emitted nothing yet.
    fn zero_feedback() -> (zero: Self::FeedbackT)
        requires
            total::<Self::RealT>(),
        ensures
            Self::obeys_system_spec() ==> zero == Self::zero_feedback_spec(),
    ;

    /// The time derivative of `state` under the delayed input `feedback`.
    fn f(state: &Self::StateT, model: &Self::ModelT, feedback: &Self::FeedbackT) -> (slope:
        Self::StateT)
        requires
            total::<Self::RealT>(),
        ensures
            Self::obeys_system_spec() ==> slope == Self::f_spec(*state, *model, *feedback),
    ;

    /// The part of a state that other nodes will read after their delay.
    fn get_feedback(state: &Self::StateT) -> (feedback: Self::FeedbackT)
        requires
            total::<Self::RealT>(),
        ensures
            Self::obeys_system_spec() ==> feedback == Self::get_feedback_spec(*state),
    ;

    /// The observables of a state together with the delayed input it saw.
    fn keep_state_and_delay(state: &Self::StateT, feedback: &Self::FeedbackT) -> (kept: Vec<
        Self::RealT,
    >)
        requires
            total::<Self::RealT>(),
        ensures
            Self::obeys_row_len_spec() ==> kept@.len() == Self::delay_row_len(),
            Self::obeys_system_spec() ==> kept@ == Self::keep_state_and_delay_spec(
                *state,
                *feedback,
            ),
    ;

    /// The names of what `keep_state_and_delay` returns.
    fn keep_state_and_delay_names() -> (names: &'static [&'static str])
        ensures
            Self::obeys_row_len_spec() ==> names@.len() == Self::delay_row_len(),
    ;
}

/// Every operator that the engine applies to states and scalars of `S` may be applied to
/// every pair of operands.
pub open spec fn state_total<S: DynamicalSystem>() -> bool {
    &&& total::<S::RealT>()
    &&& forall|a: S::StateT, b: S::StateT| #[trigger] a.add_req(b)
    &&& forall|a: S::StateT, r: S::RealT| #[trigger] a.mul_req(r)
    &&& forall|a: S::StateT, r: S::RealT| #[trigger] a.div_req(r)
}

/// The model `S` and the operators on its states and scalars return what their spec
/// functions say.
pub open spec fn state_exact<S: DynamicalSystem>() -> bool {
    &&& exact::<S::RealT>()
    &&& S::obeys_system_spec()
    &&& <S::StateT as AddSpec>::obeys_add_spec()
    &&& <S::StateT as MulSpec<S::RealT>>::obeys_mul_spec()
    &&& <S::StateT as DivSpec<S::RealT>>::obeys_div_spec()
}

/// Every operator that the engine applies to the feedback of `S` may be applied to every
/// pair of operands.
pub open spec fn feedback_total<S: Feedback>() -> bool {
    &&& total::<S::RealT>()
    &&& forall|a: S::FeedbackT, b: S::FeedbackT| #[trigger] a.add_req(b)
    &&& forall|a: S::FeedbackT, b: S::FeedbackT| #[trigger] a.sub_req(b)
    &&& forall|a: S::FeedbackT, r: S::RealT| #[trigger] a.mul_req(r)
    &&& forall|a: S::FeedbackT, w: S::WeightT| #[trigger] a.mul_req(w)
}

/// The model `S`, its weights and the operators on its feedback return what their spec
/// functions say.
pub open spec fn feedback_exact<S: Feedback>() -> bool {
    &&& exact::<S::RealT>()
    &&& S::obeys_system_spec()
    &&& <S::WeightT as WeightFromEdge<S::RealT>>::obeys_weight_spec()
    &&& <S::FeedbackT as AddSpec>::obeys_add_spec()
    &&& <S::FeedbackT as SubSpec>::obeys_sub_spec()
    &&& <S::FeedbackT as MulSpec<S::RealT>>::obeys_mul_spec()
    &&& <S::FeedbackT as MulSpec<S::WeightT>>::obeys_mul_spec()
}

/// The multiplier that an edge puts on what travels along it.
pub trait WeightFromEdge<R>: Sized {
    /// Whether `from_edge` returns what `weight_spec` says. A weight that says nothing of
    /// it promises nothing.
    open spec fn obeys_weight_spec() -> bool {
        false
    }

    /// The weight of an edge.
    open spec fn weight_spec(edge: Edge<R>) -> Self {
        arbitrary()
    }

    /// The weight of an edge.
    fn from_edge(edge: &Edge<R>) -> (weight: Self)
        ensures
            Self::obeys_weight_spec() ==> weight == Self::weight_spec(*edge),
    ;
}

/// A real weight is the strength of the edge, unchanged.
impl<R: Scalar> WeightFromEdge<R> for R {
    open spec fn obeys_weight_spec() -> bool {
        true
    }

    open spec fn weight_spec(edge: Edge<R>) -> R {
        edge.strength
    }

    fn from_edge(edge: &Edge<R>) -> (weight: R) {
        edge.strength
    }
}

/// The real weight of an edge is its strength, unchanged.
pub proof fn lemma_real_weight_is_strength<R: Scalar>(edge: Edge<R>)
    ensures
        <R as WeightFromEdge<R>>::obeys_weight_spec(),
        <R as WeightFromEdge<R>>::weight_spec(edge) == edge.strength,
{
}

} // verus!
