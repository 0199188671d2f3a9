use vstd::prelude::*;
use vstd::std_specs::ops::AddSpec;
use crate::dynamical_system::feedback_exact;
use crate::dynamical_system::feedback_total;
use crate::dynamical_system::state_exact;
use crate::dynamical_system::state_total;
use crate::dynamical_system::DynamicalSystem;
use crate::dynamical_system::Feedback;
use crate::history::build_fault;
use crate::history::lines_pushed;
use crate::history::reader_of;
use crate::history::required_steps;
use crate::history::zero_entry;
use crate::history::History;
use crate::history::HistoryError;
use crate::integration_methods::kept_row;
use crate::integration_methods::node_keep;
use crate::integration_methods::node_next;
use crate::integration_methods::rk4_delay;
use crate::integration_methods::row_filled;
use crate::integration_methods::same_shape;
use crate::integration_methods::system_step;
use crate::integration_methods::system_steps;
use crate::integration_methods::IntegrationMethods;
use crate::integration_methods::RungeKuttaDelay;
use crate::integration_methods::SystemView;
use crate::network::Edge;
use crate::network::Network;
use crate::ring::pushed;
use crate::scalar::from_whole;
use crate::scalar::power_of_two_at_least;
use crate::scalar::whole;
use crate::timeseries::Timeseries;

verus! {

/// Every delay line is made as long as the longest one needs to be.
pub const EQUAL_RINGBUFFERS: bool = true;

/// Why an assembly of nodes could not be set up.
#[derive(Debug, PartialEq, Eq)]
pub enum SetupError {
    /// The network cannot be given a history.
    History(HistoryError),
    /// The network does not have the number of nodes that the assembly is made for.
    NodeCount,
    /// A row for the observables of all nodes would be longer than the machine can count.
    RowTooWide,
}

/// A network that is about to start: every node in the initial state of the model and with
/// its initial parameters, every delay line full of zeros, time at zero.
pub open spec fn initial_view<S: Feedback>(
    incoming: Seq<Seq<Edge<S::RealT>>>,
    dt: S::RealT,
) -> SystemView<S> {
    SystemView {
        states: Seq::new(incoming.len(), |n: int| S::initial_state_spec()),
        models: Seq::new(incoming.len(), |n: int| S::initial_model_spec()),
        lines: Seq::new(
            incoming.len(),
            |n: int|
                Seq::new(
                    power_of_two_at_least(
                        match required_steps(incoming, n as usize, EQUAL_RINGBUFFERS, dt) {
                            Some(steps) => steps as nat,
                            None => 0,
                        },
                    ),
                    |age: int| zero_entry::<S>(),
                ),
        ),
        readers: Seq::new(
            incoming.len(),
            |n: int|
                incoming[n].map_values(
                    |edge: Edge<S::RealT>| reader_of::<S>(edge, incoming.len() as usize, dt),
                ),
        ),
        dt,
        time: whole::<S::RealT>(0),
    }
}

/// The history of a network that is about to start is the history of its initial view.
proof fn lemma_initial_history<S: Feedback>(
    history: &History<S>,
    incoming: Seq<Seq<Edge<S::RealT>>>,
    dt: S::RealT,
)
    requires
        history.describes(incoming, EQUAL_RINGBUFFERS, dt),
    ensures
        history.lines() == initial_view::<S>(incoming, dt).lines,
        history.readers() == initial_view::<S>(incoming, dt).readers,
{
    let v = initial_view::<S>(incoming, dt);
    assert forall|n: int| 0 <= n < incoming.len() implies history.lines()[n] == v.lines[n] by {
        assert(required_steps(incoming, n as usize, EQUAL_RINGBUFFERS, dt) is Some);
    }
    assert(history.lines() =~= v.lines);
    assert(history.readers() =~= v.readers);
}

/// The models that a list of nodes runs under.
enum Models<'a, M> {
    /// One model for all nodes.
    Shared(&'a M),
    /// A model for each node.
    Own(&'a Vec<M>),
}

impl<'a, M> Models<'a, M> {
    /// The model of each of `nodes` nodes.
    spec fn each(&self, nodes: nat) -> Seq<M> {
        match self {
            Models::Shared(model) => Seq::new(nodes, |n: int| **model),
            Models::Own(models) => models@,
        }
    }
}

/// Advances every node by one step: first all taps are read, then every node is
/// integrated, then all new samples are pushed.
fn step_all<S: Feedback>(
    states: &mut Vec<S::StateT>,
    models: Models<'_, S::ModelT>,
    history: &mut History<S>,
    dt: &S::RealT,
)
    requires
        old(history).wf(),
        state_total::<S>(),
        feedback_total::<S>(),
        old(states)@.len() == old(history).lines().len(),
        models.each(old(states)@.len()).len() == old(states)@.len(),
    ensures
        final(history).wf(),
        final(history).readers() == old(history).readers(),
        final(history).step() == old(history).step(),
        final(states)@.len() == old(states)@.len(),
        final(history).lines().len() == old(history).lines().len(),
        forall|n: int|
            0 <= n < old(history).lines().len() ==> (#[trigger] final(history).lines()[n]).len()
                == old(history).lines()[n].len(),
        state_exact::<S>() && feedback_exact::<S>() ==> {
            let before = SystemView::<S> {
                states: old(states)@,
                models: models.each(old(states)@.len()),
                lines: old(history).lines(),
                readers: old(history).readers(),
                dt: *dt,
                time: *dt,
            };
            &&& final(states)@ == system_step(before).states
            &&& final(history).lines() == system_step(before).lines
        },
{
    let ghost before = SystemView::<S> {
        states: states@,
        models: models.each(states@.len()),
        lines: history.lines(),
        readers: history.readers(),
        dt: *dt,
        time: *dt,
    };
    let taps = history.get_all_feedback_rk4();
    let zero = S::zero_feedback();
    let mut keeps: Vec<RungeKuttaDelay<S::FeedbackT>> = Vec::new();
    let nodes = states.len();
    let mut n: usize = 0;
    while n < nodes
        invariant
            state_total::<S>(),
            feedback_total::<S>(),
            nodes == states@.len(),
            nodes == old(states)@.len(),
            nodes == taps@.len(),
            models.each(nodes as nat).len() == nodes,
            n <= nodes,
            keeps@.len() == n,
            before.states == old(states)@,
            before.models == models.each(nodes as nat),
            before.lines == history.lines(),
            before.readers == history.readers(),
            before.dt == *dt,
            *history == *old(history),
            forall|m: int| n <= m < nodes ==> #[trigger] states@[m] == old(states)@[m],
            state_exact::<S>() && feedback_exact::<S>() ==> forall|m: int|
                0 <= m < nodes ==> (#[trigger] taps@[m])@ == crate::history::tap_pair::<S>(
                    before.lines,
                    before.readers[m],
                ),
            state_exact::<S>() && feedback_exact::<S>() ==> forall|m: int|
                0 <= m < n ==> #[trigger] states@[m] == node_next::<S>(before, m),
            state_exact::<S>() && feedback_exact::<S>() ==> forall|m: int|
                0 <= m < n ==> #[trigger] keeps@[m] == node_keep::<S>(before, m),
        decreases nodes - n,
    {
        let mut keep = RungeKuttaDelay { state: zero, slope: zero };
        let mut state = states[n];
        match models {
            Models::Shared(model) => {
                rk4_delay::<S>(&mut state, model, &mut keep, &taps[n], dt);
            },
            Models::Own(list) => {
                rk4_delay::<S>(&mut state, &list[n], &mut keep, &taps[n], dt);
            },
        }
        states.set(n, state);
        keeps.push(keep);
        n += 1;
    }
    history.push_node_states(keeps);
    proof {
        assert forall|m: int| 0 <= m < nodes implies (#[trigger] history.lines()[m]).len() == old(history).lines()[m].len() by {
            assert(old(history).lines()[m].len() > 0);
        }
        if state_exact::<S>() && feedback_exact::<S>() {
            assert(states@ =~= system_step(before).states);
            assert(keeps@ =~= Seq::new(before.states.len(), |m: int| node_keep::<S>(before, m)));
        }
    }
}

/// One node with delayed feedback onto itself.
pub struct SingleFeedbackSystem<S: Feedback> {
    dt: S::RealT,
    pub time: S::RealT,
    state: S::StateT,
    model: S::ModelT,
    feedback_history: History<S>,
}

impl<S: Feedback> SingleFeedbackSystem<S> {
    /// The assembly for a network of exactly one node, about to start.
    pub fn new(network: &Network<S::RealT>, dt: S::RealT) -> (made: Result<Self, SetupError>)
        requires
            state_total::<S>(),
            feedback_total::<S>(),
        ensures
            made matches Ok(system) ==> system.wf() && system.view().states.len() == 1
                && network.nodes == 1,
            made == Err::<Self, SetupError>(SetupError::NodeCount) <==> network.nodes != 1,
            made matches Err(fault) ==> fault is NodeCount || fault is History,
            state_exact::<S>() && feedback_exact::<S>() ==> match made {
                Ok(system) => build_fault(network.incoming(), EQUAL_RINGBUFFERS, dt) is None
                    && system.view() == initial_view::<S>(network.incoming(), dt),
                Err(SetupError::History(fault)) => build_fault(
                    network.incoming(),
                    EQUAL_RINGBUFFERS,
                    dt,
                ) == Some(fault),
                Err(_) => true,
            },
    {
        if network.get_nodes() != 1 {
            return Err(SetupError::NodeCount);
        }
        let feedback_history = match History::<S>::new(dt, network, EQUAL_RINGBUFFERS) {
            Ok(history) => history,
            Err(fault) => {
                return Err(SetupError::History(fault));
            },
        };
        let system = SingleFeedbackSystem {
            dt,
            time: from_whole(0),
            state: S::initial_state(),
            model: S::initial_model(),
            feedback_history,
        };
        proof {
            if state_exact::<S>() && feedback_exact::<S>() {
                lemma_initial_history::<S>(&system.feedback_history, network.incoming(), dt);
                let v = initial_view::<S>(network.incoming(), dt);
                assert(system.view().states =~= v.states);
                assert(system.view().models =~= v.models);
            }
        }
        Ok(system)
    }
}

impl<S: Feedback> IntegrationMethods for SingleFeedbackSystem<S> {
    type System = S;

    closed spec fn wf(&self) -> bool {
        &&& self.feedback_history.wf()
        &&& self.feedback_history.lines().len() == 1
        &&& self.feedback_history.step() == self.dt
    }

    closed spec fn view(&self) -> SystemView<S> {
        SystemView {
            states: seq![self.state],
            models: seq![self.model],
            lines: self.feedback_history.lines(),
            readers: self.feedback_history.readers(),
            dt: self.dt,
            time: self.time,
        }
    }

    fn single_step_rk4(&mut self) {
        let ghost before = self.view();
        let zero = S::zero_feedback();
        let mut keep_for_feedback = RungeKuttaDelay { state: zero, slope: zero };
        let taps = self.feedback_history.get_single_node_feedback_rk4();
        rk4_delay::<S>(&mut self.state, &self.model, &mut keep_for_feedback, &taps, &self.dt);
        self.feedback_history.push_node_state(0, keep_for_feedback);
        self.time = self.time + self.dt;
        proof {
            assert forall|n: int| 0 <= n < self.view().lines.len() implies (
            #[trigger] self.view().lines[n]).len() == before.lines[n].len() by {
                assert(before.lines[n].len() > 0);
            }
            if state_exact::<S>() && feedback_exact::<S>() {
                let after = system_step(before);
                assert(self.view().states =~= after.states);
                assert(self.view().lines =~= after.lines);
            }
        }
    }

    fn n_steps_rk4(&mut self, n: usize) {
        let mut done: usize = 0;
        while done < n
            invariant
                self.wf(),
                state_total::<S>(),
                feedback_total::<S>(),
                done <= n,
                same_shape(self.view(), old(self).view()),
                state_exact::<S>() && feedback_exact::<S>() ==> self.view() == system_steps(
                    old(self).view(),
                    done as nat,
                ),
            decreases n - done,
        {
            self.single_step_rk4();
            done += 1;
        }
    }

    fn keep_state(&self) -> (kept: Vec<S::RealT>) {
        let kept = S::keep_state(&self.state);
        proof {
            lemma_kept_row_one::<S>(self.state);
            assert(seq![self.state] == self.view().states);
        }
        kept
    }

    fn integrate_and_keep_segment(&mut self, timeseries: &mut Timeseries<S::RealT>) {
        timeseries.update_time(&self.time);
        let rows = timeseries.segment_len();
        let mut r: usize = 0;
        while r < rows
            invariant
                self.wf(),
                state_total::<S>(),
                feedback_total::<S>(),
                r <= rows,
                rows == old(timeseries).rows().len(),
                timeseries.rows().len() == rows,
                timeseries.start_time() == old(self).view().time,
                timeseries.step() == old(timeseries).step(),
                timeseries.nodes() == old(timeseries).nodes(),
                timeseries.variables() == old(timeseries).variables(),
                same_shape(self.view(), old(self).view()),
                forall|q: int|
                    0 <= q < rows ==> (#[trigger] timeseries.rows()[q]).len() == old(timeseries).rows()[q].len(),
                forall|q: int|
                    r <= q < rows ==> #[trigger] timeseries.rows()[q] == old(timeseries).rows()[q],
                state_exact::<S>() && feedback_exact::<S>() ==> self.view() == system_steps(
                    old(self).view(),
                    r as nat,
                ),
                state_exact::<S>() && feedback_exact::<S>() ==> forall|q: int|
                    0 <= q < r ==> #[trigger] timeseries.rows()[q] == row_filled(
                        old(timeseries).rows()[q],
                        kept_row::<S>(system_steps(old(self).view(), (q + 1) as nat).states),
                    ),
            decreases rows - r,
        {
            self.single_step_rk4();
            let kept = self.keep_state();
            timeseries.write_row(r, &kept);
            r += 1;
        }
    }

    fn timeseries_row_len(&self) -> (len: usize) {
        S::keep_state(&self.state).len()
    }

    fn timeseries_curve_names(&self) -> (names: &'static [&'static str]) {
        S::keep_state_names()
    }
}

/// The row of one node is what the model keeps of its state.
proof fn lemma_kept_row_one<S: Feedback>(state: S::StateT)
    ensures
        kept_row::<S>(seq![state]) == S::keep_state_spec(state),
{
    assert(seq![state].drop_last() =~= Seq::<S::StateT>::empty());
    assert(kept_row::<S>(Seq::<S::StateT>::empty()) =~= Seq::<S::RealT>::empty());
    assert(kept_row::<S>(seq![state]) =~= S::keep_state_spec(state));
}

/// The observables of all the states in one row.
fn keep_all<S: Feedback>(states: &Vec<S::StateT>) -> (kept: Vec<S::RealT>)
    requires
        state_total::<S>(),
    ensures
        S::obeys_row_len_spec() ==> kept@.len() == states@.len() * S::row_len(),
        state_exact::<S>() ==> kept@ == kept_row::<S>(states@),
{
    let mut kept: Vec<S::RealT> = Vec::new();
    let mut n: usize = 0;
    assert(states@.take(0) =~= Seq::empty());
    assert(kept_row::<S>(Seq::empty()) =~= Seq::<S::RealT>::empty());
    assert(0 * S::row_len() == 0);
    while n < states.len()
        invariant
            state_total::<S>(),
            n <= states@.len(),
            S::obeys_row_len_spec() ==> kept@.len() == n * S::row_len(),
            state_exact::<S>() ==> kept@ == kept_row::<S>(states@.take(n as int)),
        decreases states@.len() - n,
    {
        let mut row = S::keep_state(&states[n]);
        proof {
            assert(states@.take(n + 1).drop_last() =~= states@.take(n as int));
            assert(states@.take(n + 1).last() == states@[n as int]);
            assert((n + 1) * S::row_len() == n * S::row_len() + S::row_len()) by (nonlinear_arith);
        }
        kept.append(&mut row);
        n += 1;
    }
    assert(states@.take(n as int) =~= states@);
    kept
}

/// Several nodes that run one and the same model, each from a state of its own.
pub struct MultipleIdenticalFeedbackSystems<S: Feedback> {
    dt: S::RealT,
    pub time: S::RealT,
    nodes: usize,
    states: Vec<S::StateT>,
    model: S::ModelT,
    feedback_history: History<S>,
}

impl<S: Feedback> MultipleIdenticalFeedbackSystems<S> {
    /// The assembly for a network of any number of nodes, about to start.
    pub fn new(network: &Network<S::RealT>, dt: S::RealT) -> (made: Result<Self, SetupError>)
        requires
            state_total::<S>(),
            feedback_total::<S>(),
        ensures
            made matches Ok(system) ==> system.wf() && system.view().states.len() == network.nodes,
            made matches Err(fault) ==> fault is History,
            state_exact::<S>() && feedback_exact::<S>() ==> match made {
                Ok(system) => build_fault(network.incoming(), EQUAL_RINGBUFFERS, dt) is None
                    && system.view() == initial_view::<S>(network.incoming(), dt),
                Err(SetupError::History(fault)) => build_fault(
                    network.incoming(),
                    EQUAL_RINGBUFFERS,
                    dt,
                ) == Some(fault),
                Err(_) => false,
            },
    {
        let feedback_history = match History::<S>::new(dt, network, EQUAL_RINGBUFFERS) {
            Ok(history) => history,
            Err(fault) => {
                return Err(SetupError::History(fault));
            },
        };
        let nodes = network.get_nodes();
        let mut states: Vec<S::StateT> = Vec::new();
        let mut n: usize = 0;
        while n < nodes
            invariant
                state_total::<S>(),
                n <= nodes,
                states@.len() == n,
                state_exact::<S>() ==> forall|k: int|
                    0 <= k < n ==> #[trigger] states@[k] == S::initial_state_spec(),
            decreases nodes - n,
        {
            states.push(S::initial_state());
            n += 1;
        }
        let model = S::initial_model();
        let system = MultipleIdenticalFeedbackSystems {
            dt,
            time: from_whole(0),
            nodes,
            states,
            model,
            feedback_history,
        };
        proof {
            if state_exact::<S>() && feedback_exact::<S>() {
                lemma_initial_history::<S>(&system.feedback_history, network.incoming(), dt);
                let v = initial_view::<S>(network.incoming(), dt);
                assert(system.view().states =~= v.states);
                assert(system.view().models =~= v.models);
            }
        }
        Ok(system)
    }
}

impl<S: Feedback> IntegrationMethods for MultipleIdenticalFeedbackSystems<S> {
    type System = S;

    closed spec fn wf(&self) -> bool {
        &&& self.feedback_history.wf()
        &&& self.feedback_history.lines().len() == self.states@.len()
        &&& self.feedback_history.step() == self.dt
        &&& self.nodes == self.states@.len()
    }

    closed spec fn view(&self) -> SystemView<S> {
        SystemView {
            states: self.states@,
            models: Seq::new(self.states@.len(), |n: int| self.model),
            lines: self.feedback_history.lines(),
            readers: self.feedback_history.readers(),
            dt: self.dt,
            time: self.time,
        }
    }

    fn single_step_rk4(&mut self) {
        let ghost before = self.view();
        step_all::<S>(
            &mut self.states,
            Models::Shared(&self.model),
            &mut self.feedback_history,
            &self.dt,
        );
        self.time = self.time + self.dt;
        proof {
            assert(self.view().models =~= before.models);
            if state_exact::<S>() && feedback_exact::<S>() {
                let probe = SystemView::<S> { time: before.dt, ..before };
                let after = system_step(before);
                assert(system_step(probe).states =~= after.states);
                assert(system_step(probe).lines =~= after.lines);
                assert(self.view().states =~= after.states);
                assert(self.view().lines =~= after.lines);
            }
        }
    }

    fn n_steps_rk4(&mut self, n: usize) {
        let mut done: usize = 0;
        while done < n
            invariant
                self.wf(),
                state_total::<S>(),
                feedback_total::<S>(),
                done <= n,
                same_shape(self.view(), old(self).view()),
                state_exact::<S>() && feedback_exact::<S>() ==> self.view() == system_steps(
                    old(self).view(),
                    done as nat,
                ),
            decreases n - done,
        {
            self.single_step_rk4();
            done += 1;
        }
    }

    fn keep_state(&self) -> (kept: Vec<S::RealT>) {
        keep_all::<S>(&self.states)
    }

    fn integrate_and_keep_segment(&mut self, timeseries: &mut Timeseries<S::RealT>) {
        timeseries.update_time(&self.time);
        let rows = timeseries.segment_len();
        let mut r: usize = 0;
        while r < rows
            invariant
                self.wf(),
                state_total::<S>(),
                feedback_total::<S>(),
                r <= rows,
                rows == old(timeseries).rows().len(),
                timeseries.rows().len() == rows,
                timeseries.start_time() == old(self).view().time,
                timeseries.step() == old(timeseries).step(),
                timeseries.nodes() == old(timeseries).nodes(),
                timeseries.variables() == old(timeseries).variables(),
                same_shape(self.view(), old(self).view()),
                forall|q: int|
                    0 <= q < rows ==> (#[trigger] timeseries.rows()[q]).len() == old(timeseries).rows()[q].len(),
                forall|q: int|
                    r <= q < rows ==> #[trigger] timeseries.rows()[q] == old(timeseries).rows()[q],
                state_exact::<S>() && feedback_exact::<S>() ==> self.view() == system_steps(
                    old(self).view(),
                    r as nat,
                ),
                state_exact::<S>() && feedback_exact::<S>() ==> forall|q: int|
                    0 <= q < r ==> #[trigger] timeseries.rows()[q] == row_filled(
                        old(timeseries).rows()[q],
                        kept_row::<S>(system_steps(old(self).view(), (q + 1) as nat).states),
                    ),
            decreases rows - r,
        {
            self.single_step_rk4();
            let kept = self.keep_state();
            timeseries.write_row(r, &kept);
            r += 1;
        }
    }

    fn timeseries_row_len(&self) -> (len: usize) {
        S::keep_state(&S::initial_state()).len()
    }

    fn timeseries_curve_names(&self) -> (names: &'static [&'static str]) {
        S::keep_state_names()
    }
}

/// Several nodes, each with a model and a state of its own.
pub struct MultipleDistinctFeedbackSystems<S: Feedback> {
    dt: S::RealT,
    pub time: S::RealT,
    nodes: usize,
    states: Vec<S::StateT>,
    models: Vec<S::ModelT>,
    feedback_history: History<S>,
}

impl<S: Feedback> MultipleDistinctFeedbackSystems<S> {
    /// The assembly for a network of any number of nodes, about to start.
    pub fn new(network: &Network<S::RealT>, dt: S::RealT) -> (made: Result<Self, SetupError>)
        requires
            state_total::<S>(),
            feedback_total::<S>(),
        ensures
            made matches Ok(system) ==> system.wf() && system.view().states.len() == network.nodes,
            made matches Err(fault) ==> fault is History,
            state_exact::<S>() && feedback_exact::<S>() ==> match made {
                Ok(system) => build_fault(network.incoming(), EQUAL_RINGBUFFERS, dt) is None
                    && system.view() == initial_view::<S>(network.incoming(), dt),
                Err(SetupError::History(fault)) => build_fault(
                    network.incoming(),
                    EQUAL_RINGBUFFERS,
                    dt,
                ) == Some(fault),
                Err(_) => false,
            },
    {
        let feedback_history = match History::<S>::new(dt, network, EQUAL_RINGBUFFERS) {
            Ok(history) => history,
            Err(fault) => {
                return Err(SetupError::History(fault));
            },
        };
        let nodes = network.get_nodes();
        let mut states: Vec<S::StateT> = Vec::new();
        let mut n: usize = 0;
        while n < nodes
            invariant
                state_total::<S>(),
                n <= nodes,
                states@.len() == n,
                state_exact::<S>() ==> forall|k: int|
                    0 <= k < n ==> #[trigger] states@[k] == S::initial_state_spec(),
            decreases nodes - n,
        {
            states.push(S::initial_state());
            n += 1;
        }
        let mut models: Vec<S::ModelT> = Vec::new();
        let mut m: usize = 0;
        while m < nodes
            invariant
                state_total::<S>(),
                m <= nodes,
                models@.len() == m,
                state_exact::<S>() ==> forall|k: int|
                    0 <= k < m ==> #[trigger] models@[k] == S::initial_model_spec(),
            decreases nodes - m,
        {
            models.push(S::initial_model());
            m += 1;
        }
        let system = MultipleDistinctFeedbackSystems {
            dt,
            time: from_whole(0),
            nodes,
            states,
            models,
            feedback_history,
        };
        proof {
            if state_exact::<S>() && feedback_exact::<S>() {
                lemma_initial_history::<S>(&system.feedback_history, network.incoming(), dt);
                let v = initial_view::<S>(network.incoming(), dt);
                assert(system.view().states =~= v.states);
                assert(system.view().models =~= v.models);
            }
        }
        Ok(system)
    }
}

impl<S: Feedback> IntegrationMethods for MultipleDistinctFeedbackSystems<S> {
    type System = S;

    closed spec fn wf(&self) -> bool {
        &&& self.feedback_history.wf()
        &&& self.feedback_history.lines().len() == self.states@.len()
        &&& self.feedback_history.step() == self.dt
        &&& self.nodes == self.states@.len()
        &&& self.models@.len() == self.states@.len()
    }

    closed spec fn view(&self) -> SystemView<S> {
        SystemView {
            states: self.states@,
            models: self.models@,
            lines: self.feedback_history.lines(),
            readers: self.feedback_history.readers(),
            dt: self.dt,
            time: self.time,
        }
    }

    fn single_step_rk4(&mut self) {
        let ghost before = self.view();
        step_all::<S>(
            &mut self.states,
            Models::Own(&self.models),
            &mut self.feedback_history,
            &self.dt,
        );
        self.time = self.time + self.dt;
        proof {
            assert(self.view().models =~= before.models);
            if state_exact::<S>() && feedback_exact::<S>() {
                let probe = SystemView::<S> { time: before.dt, ..before };
                let after = system_step(before);
                assert(system_step(probe).states =~= after.states);
                assert(system_step(probe).lines =~= after.lines);
                assert(self.view().states =~= after.states);
                assert(self.view().lines =~= after.lines);
            }
        }
    }

    fn n_steps_rk4(&mut self, n: usize) {
        let mut done: usize = 0;
        while done < n
            invariant
                self.wf(),
                state_total::<S>(),
                feedback_total::<S>(),
                done <= n,
                same_shape(self.view(), old(self).view()),
                state_exact::<S>() && feedback_exact::<S>() ==> self.view() == system_steps(
                    old(self).view(),
                    done as nat,
                ),
            decreases n - done,
        {
            self.single_step_rk4();
            done += 1;
        }
    }

    fn keep_state(&self) -> (kept: Vec<S::RealT>) {
        keep_all::<S>(&self.states)
    }

    fn integrate_and_keep_segment(&mut self, timeseries: &mut Timeseries<S::RealT>) {
        timeseries.update_time(&self.time);
        let rows = timeseries.segment_len();
        let mut r: usize = 0;
        while r < rows
            invariant
                self.wf(),
                state_total::<S>(),
                feedback_total::<S>(),
                r <= rows,
                rows == old(timeseries).rows().len(),
                timeseries.rows().len() == rows,
                timeseries.start_time() == old(self).view().time,
                timeseries.step() == old(timeseries).step(),
                timeseries.nodes() == old(timeseries).nodes(),
                timeseries.variables() == old(timeseries).variables(),
                same_shape(self.view(), old(self).view()),
                forall|q: int|
                    0 <= q < rows ==> (#[trigger] timeseries.rows()[q]).len() == old(timeseries).rows()[q].len(),
                forall|q: int|
                    r <= q < rows ==> #[trigger] timeseries.rows()[q] == old(timeseries).rows()[q],
                state_exact::<S>() && feedback_exact::<S>() ==> self.view() == system_steps(
                    old(self).view(),
                    r as nat,
                ),
                state_exact::<S>() && feedback_exact::<S>() ==> forall|q: int|
                    0 <= q < r ==> #[trigger] timeseries.rows()[q] == row_filled(
                        old(timeseries).rows()[q],
                        kept_row::<S>(system_steps(old(self).view(), (q + 1) as nat).states),
                    ),
            decreases rows - r,
        {
            self.single_step_rk4();
            let kept = self.keep_state();
            timeseries.write_row(r, &kept);
            r += 1;
        }
    }

    fn timeseries_row_len(&self) -> (len: usize) {
        S::keep_state(&S::initial_state()).len()
    }

    fn timeseries_curve_names(&self) -> (names: &'static [&'static str]) {
        S::keep_state_names()
    }
}

} // verus!
