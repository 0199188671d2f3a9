use vstd::prelude::*;
use vstd::std_specs::ops::AddSpec;
use vstd::std_specs::ops::DivSpec;
use vstd::std_specs::ops::MulSpec;
use vstd::std_specs::ops::SubSpec;
use crate::dynamical_system::feedback_exact;
use crate::dynamical_system::feedback_total;
use crate::dynamical_system::state_exact;
use crate::dynamical_system::state_total;
use crate::dynamical_system::DynamicalSystem;
use crate::dynamical_system::Feedback;
use crate::history::entry_plus;
use crate::history::entry_times;
use crate::history::lemma_self_loop_reads_last_push;
use crate::history::lines_pushed;
use crate::history::tap_pair;
use crate::history::zero_entry;
use crate::history::ReadAtMultiply;
use crate::scalar::from_whole;
use crate::timeseries::Timeseries;
use crate::scalar::half;
use crate::scalar::whole;
use crate::scalar::Scalar;

verus! {

/// A feedback sample as the delay lines store it: the value itself and its time derivative
/// at the same step.
#[derive(Clone, Copy)]
pub struct RungeKuttaDelay<T> {
    pub state: T,
    pub slope: T,
}

/// One eighth, as the quotient of one and eight.
pub open spec fn eighth<R: Scalar>() -> R {
    whole::<R>(1).div_spec(whole::<R>(8))
}

/// The state moved half a step along the slope `k`.
pub open spec fn half_step<S: DynamicalSystem>(state: S::StateT, k: S::StateT, dt: S::RealT) -> S::StateT {
    state.add_spec(k.mul_spec(half::<S::RealT>()).mul_spec(dt))
}

/// The state moved a whole step along the slope `k`.
pub open spec fn full_step<S: DynamicalSystem>(state: S::StateT, k: S::StateT, dt: S::RealT) -> S::StateT {
    state.add_spec(k.mul_spec(dt))
}

/// What the four slopes of a Runge-Kutta step add to the state: their weighted mean,
/// `(k1 + 2 k2 + 2 k3 + k4) / 6`, times the step width.
pub open spec fn rk4_increment<S: DynamicalSystem>(
    k1: S::StateT,
    k2: S::StateT,
    k3: S::StateT,
    k4: S::StateT,
    dt: S::RealT,
) -> S::StateT {
    k1.add_spec(k2.mul_spec(whole::<S::RealT>(2))).add_spec(
        k3.mul_spec(whole::<S::RealT>(2)),
    ).add_spec(k4).div_spec(whole::<S::RealT>(6)).mul_spec(dt)
}

/// The delayed input in the middle of a step, from the two taps at its ends: the value of
/// the cubic Hermite interpolant there, `(a + b) / 2 + (a' - b') / 8`.
pub open spec fn hermite_middle<S: Feedback>(
    tap0: RungeKuttaDelay<S::FeedbackT>,
    tap1: RungeKuttaDelay<S::FeedbackT>,
) -> S::FeedbackT {
    tap0.state.add_spec(tap1.state).mul_spec(half::<S::RealT>()).add_spec(
        tap0.slope.sub_spec(tap1.slope).mul_spec(eighth::<S::RealT>()),
    )
}

/// The first slope of a step with delay: the derivative at the start of the step, under
/// the delayed input at the start of the step.
pub open spec fn rk4_delay_first_slope<S: Feedback>(
    state: S::StateT,
    model: S::ModelT,
    taps: Seq<RungeKuttaDelay<S::FeedbackT>>,
) -> S::StateT {
    S::f_spec(state, model, taps[0].state)
}

/// The state after one Runge-Kutta step with delay.
pub open spec fn rk4_delay_state<S: Feedback>(
    state: S::StateT,
    model: S::ModelT,
    taps: Seq<RungeKuttaDelay<S::FeedbackT>>,
    dt: S::RealT,
) -> S::StateT {
    let k1 = rk4_delay_first_slope::<S>(state, model, taps);
    let middle = hermite_middle::<S>(taps[0], taps[1]);
    let k2 = S::f_spec(half_step::<S>(state, k1, dt), model, middle);
    let k3 = S::f_spec(half_step::<S>(state, k2, dt), model, middle);
    let k4 = S::f_spec(full_step::<S>(state, k3, dt), model, taps[1].state);
    state.add_spec(rk4_increment::<S>(k1, k2, k3, k4, dt))
}

/// The sample that a node pushes after one Runge-Kutta step with delay: the feedback of
/// its new state, and as slope the feedback of the first slope of the step.
pub open spec fn rk4_delay_keep<S: Feedback>(
    state: S::StateT,
    model: S::ModelT,
    taps: Seq<RungeKuttaDelay<S::FeedbackT>>,
    dt: S::RealT,
) -> RungeKuttaDelay<S::FeedbackT> {
    RungeKuttaDelay {
        state: S::get_feedback_spec(rk4_delay_state::<S>(state, model, taps, dt)),
        slope: S::get_feedback_spec(rk4_delay_first_slope::<S>(state, model, taps)),
    }
}

/// One Runge-Kutta step of fourth order for a node with delayed input. `delay` holds the
/// input at the start of the step and at its end; the input in the middle of the step is
/// interpolated from them. The new state replaces `state`, and `keep_state` receives the
/// sample that the node pushes into its delay line.
pub fn rk4_delay<S: Feedback>(
    state: &mut S::StateT,
    model: &S::ModelT,
    keep_state: &mut RungeKuttaDelay<S::FeedbackT>,
    delay: &[RungeKuttaDelay<S::FeedbackT>; 2],
    dt: &S::RealT,
)
    requires
        state_total::<S>(),
        feedback_total::<S>(),
    ensures
        state_exact::<S>() && feedback_exact::<S>() ==> *final(state) == rk4_delay_state::<S>(
            *old(state),
            *model,
            delay@,
            *dt,
        ),
        state_exact::<S>() && feedback_exact::<S>() ==> *final(keep_state) == rk4_delay_keep::<S>(
            *old(state),
            *model,
            delay@,
            *dt,
        ),
{
    let one: S::RealT = from_whole(1);
    let two: S::RealT = from_whole(2);
    let six: S::RealT = from_whole(6);
    let eight: S::RealT = from_whole(8);
    let k1 = S::f(state, model, &delay[0].state);
    // the input in the middle of the step is in no delay line: it is interpolated
    let middle = (delay[0].state + delay[1].state) * (one / two) + (delay[0].slope
        - delay[1].slope) * (one / eight);
    let k2 = S::f(&(*state + k1 * (one / two) * *dt), model, &middle);
    let k3 = S::f(&(*state + k2 * (one / two) * *dt), model, &middle);
    let k4 = S::f(&(*state + k3 * *dt), model, &delay[1].state);
    *state = *state + (k1 + k2 * two + k3 * two + k4) / six * *dt;
    keep_state.state = S::get_feedback(state);
    keep_state.slope = S::get_feedback(&k1);
}

/// The state after one Euler step with delay.
pub open spec fn euler_delay_state<S: Feedback>(
    state: S::StateT,
    model: S::ModelT,
    delay: S::FeedbackT,
    dt: S::RealT,
) -> S::StateT {
    state.add_spec(S::f_spec(state, model, delay).mul_spec(dt))
}

/// One Euler step for a node with the delayed input `delay`.
pub fn euler_delay<S: Feedback>(
    state: &mut S::StateT,
    model: &S::ModelT,
    delay: &S::FeedbackT,
    dt: &S::RealT,
)
    requires
        state_total::<S>(),
    ensures
        state_exact::<S>() ==> *final(state) == euler_delay_state::<S>(
            *old(state),
            *model,
            *delay,
            *dt,
        ),
{
    *state = *state + S::f(state, model, delay) * *dt;
}

/// The slopes `k1` to `k4` and the states `s2` to `s4` at which the last three were taken
/// make up one Runge-Kutta step of the right-hand side `f` from `before` to `after`.
pub open spec fn rk4_chain<S: DynamicalSystem, F: Fn(&S::StateT, &S::ModelT, &S::RealT) -> S::StateT>(
    f: F,
    before: S::StateT,
    model: S::ModelT,
    dt: S::RealT,
    time: S::RealT,
    slopes: (S::StateT, S::StateT, S::StateT, S::StateT),
    stages: (S::StateT, S::StateT, S::StateT),
    after: S::StateT,
) -> bool {
    &&& f.ensures((&before, &model, &time), slopes.0)
    &&& f.ensures((&stages.0, &model, &time), slopes.1)
    &&& f.ensures((&stages.1, &model, &time), slopes.2)
    &&& f.ensures((&stages.2, &model, &time), slopes.3)
    &&& state_exact::<S>() ==> {
        &&& stages.0 == half_step::<S>(before, slopes.0, dt)
        &&& stages.1 == half_step::<S>(before, slopes.1, dt)
        &&& stages.2 == full_step::<S>(before, slopes.2, dt)
        &&& after == before.add_spec(
            rk4_increment::<S>(slopes.0, slopes.1, slopes.2, slopes.3, dt),
        )
    }
}

/// One Runge-Kutta step of fourth order for a node without delayed input, whose
/// derivative at a state, under a model and at a time is `f`.
pub fn rk4<S: DynamicalSystem, F: Fn(&S::StateT, &S::ModelT, &S::RealT) -> S::StateT>(
    state: &mut S::StateT,
    model: &S::ModelT,
    dt: &S::RealT,
    time: &S::RealT,
    f: F,
)
    requires
        state_total::<S>(),
        forall|s: S::StateT, m: S::ModelT, t: S::RealT| #[trigger] f.requires((&s, &m, &t)),
    ensures
        exists|
            slopes: (S::StateT, S::StateT, S::StateT, S::StateT),
            stages: (S::StateT, S::StateT, S::StateT),
        | #[trigger]
            rk4_chain::<S, F>(f, *old(state), *model, *dt, *time, slopes, stages, *final(state)),
{
    let one: S::RealT = from_whole(1);
    let two: S::RealT = from_whole(2);
    let six: S::RealT = from_whole(6);
    let k1 = f(state, model, time);
    let s2 = *state + k1 * (one / two) * *dt;
    let k2 = f(&s2, model, time);
    let s3 = *state + k2 * (one / two) * *dt;
    let k3 = f(&s3, model, time);
    let s4 = *state + k3 * *dt;
    let k4 = f(&s4, model, time);
    *state = *state + (k1 + k2 * two + k3 * two + k4) / six * *dt;
    assert(rk4_chain::<S, F>(
        f,
        *old(state),
        *model,
        *dt,
        *time,
        (k1, k2, k3, k4),
        (s2, s3, s4),
        *state,
    ));
}

/// One Euler step for a node without delayed input, whose derivative at a state and under
/// a model is `f`.
pub fn euler<S: DynamicalSystem, F: Fn(&S::StateT, &S::ModelT) -> S::StateT>(
    state: &mut S::StateT,
    model: &S::ModelT,
    dt: &S::RealT,
    f: F,
)
    requires
        state_total::<S>(),
        forall|s: S::StateT, m: S::ModelT| #[trigger] f.requires((&s, &m)),
    ensures
        exists|slope: S::StateT| #[trigger]
            f.ensures((&*old(state), model), slope) && (state_exact::<S>() ==> *final(state) == old(state).add_spec(slope.mul_spec(*dt))),
{
    let slope = f(state, model);
    *state = *state + slope * *dt;
}

/// A network in the middle of a run, as the engine sees it: the state and the model of
/// every node, the delay line and the readers of every node, the step width and the time.
pub struct SystemView<S: Feedback> {
    pub states: Seq<S::StateT>,
    pub models: Seq<S::ModelT>,
    pub lines: Seq<Seq<RungeKuttaDelay<S::FeedbackT>>>,
    pub readers: Seq<Seq<ReadAtMultiply<S::WeightT>>>,
    pub dt: S::RealT,
    pub time: S::RealT,
}

/// The state of node `n` after one step. Its taps are read from the delay lines as the
/// step before left them, whatever the other nodes do in this step.
pub open spec fn node_next<S: Feedback>(v: SystemView<S>, n: int) -> S::StateT {
    rk4_delay_state::<S>(v.states[n], v.models[n], tap_pair::<S>(v.lines, v.readers[n]), v.dt)
}

/// The sample that node `n` pushes at the end of one step.
pub open spec fn node_keep<S: Feedback>(v: SystemView<S>, n: int) -> RungeKuttaDelay<S::FeedbackT> {
    rk4_delay_keep::<S>(v.states[n], v.models[n], tap_pair::<S>(v.lines, v.readers[n]), v.dt)
}

/// The network after one step: every node has advanced on what the delay lines held
/// before the step, then every node has pushed its sample, and time has moved on by the
/// step width.
pub open spec fn system_step<S: Feedback>(v: SystemView<S>) -> SystemView<S> {
    SystemView {
        states: Seq::new(v.states.len(), |n: int| node_next::<S>(v, n)),
        models: v.models,
        lines: lines_pushed(v.lines, Seq::new(v.states.len(), |n: int| node_keep::<S>(v, n))),
        readers: v.readers,
        dt: v.dt,
        time: v.time.add_spec(v.dt),
    }
}

/// The network after `count` steps.
pub open spec fn system_steps<S: Feedback>(v: SystemView<S>, count: nat) -> SystemView<S>
    decreases count,
{
    if count == 0 {
        v
    } else {
        system_step::<S>(system_steps::<S>(v, (count - 1) as nat))
    }
}

/// The observables of all nodes in one row: those of the first node, then those of the
/// second, and so on.
pub open spec fn kept_row<S: Feedback>(states: Seq<S::StateT>) -> Seq<S::RealT>
    decreases states.len(),
{
    if states.len() == 0 {
        Seq::empty()
    } else {
        kept_row::<S>(states.drop_last()) + S::keep_state_spec(states.last())
    }
}

/// A row of output after the observables `kept` were written into it from its start:
/// where the row is shorter, the last observables are left out; where it is longer, its
/// last entries stay.
pub open spec fn row_filled<R>(row: Seq<R>, kept: Seq<R>) -> Seq<R> {
    Seq::new(
        row.len(),
        |c: int|
            if c < kept.len() {
                kept[c]
            } else {
                row[c]
            },
    )
}

/// A step changes neither the number of nodes nor their models, readers or step width,
/// nor how many samples a delay line holds.
pub open spec fn same_shape<S: Feedback>(after: SystemView<S>, before: SystemView<S>) -> bool {
    &&& after.states.len() == before.states.len()
    &&& after.models == before.models
    &&& after.readers == before.readers
    &&& after.dt == before.dt
    &&& after.lines.len() == before.lines.len()
    &&& forall|n: int|
        0 <= n < after.lines.len() ==> (#[trigger] after.lines[n]).len() == before.lines[n].len()
}

/// Causality of a self-loop of one step: what a node reads at the start of a step is
/// exactly what it pushed at the end of the step before, times the weight of the loop,
/// and never what it produces in the step itself.
pub proof fn lemma_self_loop_is_causal<S: Feedback>(v: SystemView<S>, n: usize, weight: S::WeightT)
    requires
        n < v.states.len(),
        n < v.lines.len(),
        n < v.readers.len(),
        v.lines[n as int].len() >= 1,
        v.readers[n as int] == seq![ReadAtMultiply { at_node: n, at_delay: 1, weight }],
    ensures
        tap_pair::<S>(system_step(v).lines, system_step(v).readers[n as int])[0] == entry_plus::<S>(
            zero_entry::<S>(),
            entry_times::<S>(node_keep(v, n as int), weight),
        ),
{
    let keeps = Seq::new(v.states.len(), |m: int| node_keep::<S>(v, m));
    lemma_self_loop_reads_last_push::<S>(v.lines, keeps, n, weight);
}

/// What every assembly of nodes offers: stepping, the row of observables, and the shape
/// of that row.
pub trait IntegrationMethods {
    type System: Feedback;

    /// The assembly is consistent: every node has its state, its model, its delay line
    /// and its readers.
    spec fn wf(&self) -> bool;

    spec fn view(&self) -> SystemView<Self::System>;

    /// Advances every node by one step. All nodes read their delayed input before any of
    /// them pushes its new sample.
    fn single_step_rk4(&mut self)
        requires
            old(self).wf(),
            state_total::<Self::System>(),
            feedback_total::<Self::System>(),
        ensures
            final(self).wf(),
            same_shape(final(self).view(), old(self).view()),
            state_exact::<Self::System>() && feedback_exact::<Self::System>() ==> final(self).view()
                == system_step(old(self).view()),
    ;

    /// Advances every node by `n` steps.
    fn n_steps_rk4(&mut self, n: usize)
        requires
            old(self).wf(),
            state_total::<Self::System>(),
            feedback_total::<Self::System>(),
        ensures
            final(self).wf(),
            same_shape(final(self).view(), old(self).view()),
            state_exact::<Self::System>() && feedback_exact::<Self::System>() ==> final(self).view()
                == system_steps(old(self).view(), n as nat),
    ;

    /// The observables of all nodes in one row.
    fn keep_state(&self) -> (kept: Vec<<Self::System as DynamicalSystem>::RealT>)
        requires
            self.wf(),
            state_total::<Self::System>(),
        ensures
            Self::System::obeys_row_len_spec() ==> kept@.len() == self.view().states.len()
                * Self::System::row_len(),
            state_exact::<Self::System>() ==> kept@ == kept_row::<Self::System>(self.view().states),
    ;

    /// Takes one step for each row of the segment and writes the observables after the
    /// step into the row. The segment is told the time at which it starts, so that its row
    /// `r` stands for the time `start + (r + 1) dt`.
    fn integrate_and_keep_segment(
        &mut self,
        timeseries: &mut Timeseries<<Self::System as DynamicalSystem>::RealT>,
    )
        requires
            old(self).wf(),
            state_total::<Self::System>(),
            feedback_total::<Self::System>(),
        ensures
            final(self).wf(),
            same_shape(final(self).view(), old(self).view()),
            final(timeseries).start_time() == old(self).view().time,
            final(timeseries).step() == old(timeseries).step(),
            final(timeseries).nodes() == old(timeseries).nodes(),
            final(timeseries).variables() == old(timeseries).variables(),
            final(timeseries).rows().len() == old(timeseries).rows().len(),
            forall|r: int|
                0 <= r < old(timeseries).rows().len() ==> (#[trigger] final(timeseries).rows()[r]).len()
                    == old(timeseries).rows()[r].len(),
            state_exact::<Self::System>() && feedback_exact::<Self::System>() ==> final(self).view()
                == system_steps(old(self).view(), old(timeseries).rows().len()),
            state_exact::<Self::System>() && feedback_exact::<Self::System>() ==> forall|r: int|
                0 <= r < old(timeseries).rows().len() ==> #[trigger] final(timeseries).rows()[r]
                    == row_filled(
                    old(timeseries).rows()[r],
                    kept_row::<Self::System>(
                        system_steps(old(self).view(), (r + 1) as nat).states,
                    ),
                ),
    ;

    /// How many observables one node contributes to a row.
    fn timeseries_row_len(&self) -> (len: usize)
        requires
            self.wf(),
            state_total::<Self::System>(),
        ensures
            Self::System::obeys_row_len_spec() ==> len == Self::System::row_len(),
    ;

    /// The names of the observables of one node.
    fn timeseries_curve_names(&self) -> (names: &'static [&'static str])
        ensures
            Self::System::obeys_row_len_spec() ==> names@.len() == Self::System::row_len(),
    ;
}

/// Calls `single_step_rk4` of the assembly.
pub fn single_step_rk4<I: IntegrationMethods>(dynamical_system: &mut I)
    requires
        old(dynamical_system).wf(),
        state_total::<I::System>(),
        feedback_total::<I::System>(),
    ensures
        final(dynamical_system).wf(),
        same_shape(final(dynamical_system).view(), old(dynamical_system).view()),
        state_exact::<I::System>() && feedback_exact::<I::System>() ==> final(dynamical_system).view() == system_step(old(dynamical_system).view()),
{
    dynamical_system.single_step_rk4();
}

} // verus!
