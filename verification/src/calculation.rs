use vstd::prelude::*;
use vstd::std_specs::ops::DivSpec;
use crate::composite_system::initial_view;
use crate::composite_system::MultipleDistinctFeedbackSystems;
use crate::composite_system::MultipleIdenticalFeedbackSystems;
use crate::composite_system::SetupError;
use crate::composite_system::SingleFeedbackSystem;
use crate::composite_system::EQUAL_RINGBUFFERS;
use crate::dynamical_system::feedback_exact;
use crate::dynamical_system::feedback_total;
use crate::dynamical_system::state_exact;
use crate::dynamical_system::state_total;
use crate::dynamical_system::DynamicalSystem;
use crate::dynamical_system::Feedback;
use crate::history::build_fault;
use crate::integration_methods::kept_row;
use crate::integration_methods::row_filled;
use crate::integration_methods::same_shape;
use crate::integration_methods::system_step;
use crate::integration_methods::system_steps;
use crate::integration_methods::IntegrationMethods;
use crate::integration_methods::SystemView;
use crate::network::Network;
use crate::scalar::below;
use crate::scalar::exact;
use crate::scalar::floor_spec;
use crate::scalar::floor_steps;
use crate::scalar::from_whole;
use crate::scalar::is_below;
use crate::scalar::total;
use crate::scalar::whole;
use crate::scalar::Scalar;
use crate::timeseries::SaveItems;
use crate::timeseries::Saving;
use crate::timeseries::Timeseries;

verus! {

/// How the nodes of a network are furnished with models.
#[derive(Clone, Copy, Debug, PartialEq, Eq)]
pub enum NodeSetup {
    /// One node.
    Single,
    /// Every node runs the same model.
    Identical,
    /// Every node carries a model of its own.
    Distinct,
}

/// The dynamical models a node can run.
#[derive(Clone, Copy, Debug, PartialEq, Eq)]
pub enum SystemType {
    LangKobayashi,
    Lorenz,
    MackeyGlass,
    HindmarshRose,
    StuartLandau,
    FitzHughNagumo,
    Roessler,
}

/// One item of the agenda of a run.
pub enum Tasks<R> {
    /// Integrate for the span `time` and keep nothing.
    IntegrateUntilTimeNoSave { time: R },
    /// Integrate `segments` segments and save each, simplified within `epsilon`.
    IntegrateSegmentsAndSave { segments: usize, epsilon: R },
    /// Report how much the saved curves were simplified.
    PrintTechnicalDetails,
}

/// What a task asks of the engine and of the sink.
pub enum Work<R> {
    /// Take `steps` steps and keep nothing.
    Advance { steps: usize },
    /// `segments` times: fill the segment, then have the sink save it within `epsilon`.
    SaveSegments { segments: usize, epsilon: R, saving: Saving },
    /// Have the sink report.
    Report,
    /// The span of the task, counted in steps, is beyond the limit of step counts.
    Refuse,
}

/// What `task` asks for, with steps of width `dt`. A span below zero asks for no step.
pub open spec fn work_of<R: Scalar>(task: Tasks<R>, saving: Saving, dt: R) -> Work<R> {
    match task {
        Tasks::IntegrateUntilTimeNoSave { time } => if below(time.div_spec(dt), whole::<R>(0)) {
            Work::Advance { steps: 0 }
        } else {
            match floor_spec(time.div_spec(dt)) {
                Some(steps) => Work::Advance { steps },
                None => Work::Refuse,
            }
        },
        Tasks::IntegrateSegmentsAndSave { segments, epsilon } => Work::SaveSegments {
            segments,
            epsilon,
            saving,
        },
        Tasks::PrintTechnicalDetails => Work::Report,
    }
}

/// Says what `task` asks for, with steps of width `dt`.
pub fn plan_task<R: Scalar>(task: &Tasks<R>, saving: Saving, dt: R) -> (work: Work<R>)
    requires
        total::<R>(),
    ensures
        exact::<R>() ==> work == work_of(*task, saving, dt),
        task is PrintTechnicalDetails <==> work is Report,
        task is IntegrateSegmentsAndSave ==> work == work_of(*task, saving, dt),
        task is IntegrateUntilTimeNoSave ==> work is Advance || work is Refuse,
{
    match task {
        Tasks::IntegrateUntilTimeNoSave { time } => {
            let span = *time / dt;
            let zero: R = from_whole(0);
            if is_below(span, zero) {
                Work::Advance { steps: 0 }
            } else {
                match floor_steps(span) {
                    Some(steps) => Work::Advance { steps },
                    None => Work::Refuse,
                }
            }
        },
        Tasks::IntegrateSegmentsAndSave { segments, epsilon } => Work::SaveSegments {
            segments: *segments,
            epsilon: *epsilon,
            saving,
        },
        Tasks::PrintTechnicalDetails => Work::Report,
    }
}

/// What takes the segments of a run once they are full: files, a plot, a test.
pub trait SegmentSink<R> {
    /// Takes the full segment, to save of it what `save_items` names, simplified within
    /// `epsilon`.
    fn save(&mut self, timeseries: &Timeseries<R>, save_items: &SaveItems, epsilon: &R);

    /// Reports on what was saved, after segments of `segment_length` rows each.
    fn report(&mut self, segment_length: usize);
}

/// Why a run stopped before its agenda was done.
#[derive(Clone, Copy, Debug, PartialEq, Eq)]
pub enum RunError {
    /// The span of a task, counted in steps, is beyond the limit of step counts.
    SpanTooLong,
    /// The count of the steps of the run would be more than the machine can count.
    StepCountOverflow,
}

/// How many steps a piece of work takes, with segments of `segment_length` rows.
pub open spec fn steps_of<R>(work: Work<R>, segment_length: nat) -> nat {
    match work {
        Work::Advance { steps } => steps as nat,
        Work::SaveSegments { segments, .. } => (segments * segment_length) as nat,
        Work::Report => 0,
        Work::Refuse => 0,
    }
}

/// How many steps a list of work takes.
pub open spec fn steps_planned<R>(works: Seq<Work<R>>, segment_length: nat) -> nat
    decreases works.len(),
{
    if works.len() == 0 {
        0
    } else {
        steps_planned(works.drop_last(), segment_length) + steps_of(works.last(), segment_length)
    }
}

/// Why a piece of work cannot be done by a run that has counted `total` steps, if that is
/// so.
pub open spec fn work_fault<R>(work: Work<R>, total: nat, segment_length: nat) -> Option<RunError> {
    if work is Refuse {
        Some(RunError::SpanTooLong)
    } else if total + steps_of(work, segment_length) > u64::MAX {
        Some(RunError::StepCountOverflow)
    } else {
        None
    }
}

/// The fault at which a run that has counted `total` steps stops in a list of work, if it
/// does not come to its end.
pub open spec fn run_fault<R>(works: Seq<Work<R>>, total: nat, segment_length: nat) -> Option<
    RunError,
>
    decreases works.len(),
{
    if works.len() == 0 {
        None
    } else {
        match run_fault(works.drop_last(), total, segment_length) {
            Some(fault) => Some(fault),
            None => work_fault(
                works.last(),
                total + steps_planned(works.drop_last(), segment_length),
                segment_length,
            ),
        }
    }
}

/// What a list of tasks asks for, task by task.
pub open spec fn works_of<R: Scalar>(tasks: Seq<Tasks<R>>, saving: Saving, dt: R) -> Seq<Work<R>> {
    tasks.map_values(|task: Tasks<R>| work_of(task, saving, dt))
}

/// The three ways of assembling nodes.
#[derive(Clone, Copy, Debug, PartialEq, Eq)]
pub enum Composition {
    Single,
    MultipleIdentical,
    MultipleDistinct,
}

/// The assembly for a network of `nodes` nodes set up as `node_setup`: a network of one
/// node is a single system whatever the setup; a network of two or more nodes is assembled
/// from identical or from distinct systems as the setup says. No assembly exists for a
/// network without nodes, nor for a single system of two or more nodes.
pub open spec fn composition_of(nodes: usize, node_setup: NodeSetup) -> Option<Composition> {
    if nodes == 1 {
        Some(Composition::Single)
    } else if nodes >= 2 {
        match node_setup {
            NodeSetup::Single => None,
            NodeSetup::Identical => Some(Composition::MultipleIdentical),
            NodeSetup::Distinct => Some(Composition::MultipleDistinct),
        }
    } else {
        None
    }
}

/// Chooses the assembly for a network of `nodes` nodes set up as `node_setup`.
pub fn choose_composition(nodes: usize, node_setup: NodeSetup) -> (composition: Option<Composition>)
    ensures
        composition == composition_of(nodes, node_setup),
{
    if nodes == 1 {
        Some(Composition::Single)
    } else if nodes >= 2 {
        match node_setup {
            NodeSetup::Single => None,
            NodeSetup::Identical => Some(Composition::MultipleIdentical),
            NodeSetup::Distinct => Some(Composition::MultipleDistinct),
        }
    } else {
        None
    }
}

/// An assembly of nodes of one of the three kinds.
pub enum CompositeSystem<S: Feedback> {
    Single(SingleFeedbackSystem<S>),
    MultipleIdentical(MultipleIdenticalFeedbackSystems<S>),
    MultipleDistinct(MultipleDistinctFeedbackSystems<S>),
}

impl<S: Feedback> CompositeSystem<S> {
    /// Which of the three kinds the assembly is.
    pub open spec fn composition(&self) -> Composition {
        match self {
            CompositeSystem::Single(_) => Composition::Single,
            CompositeSystem::MultipleIdentical(_) => Composition::MultipleIdentical,
            CompositeSystem::MultipleDistinct(_) => Composition::MultipleDistinct,
        }
    }
}

impl<S: Feedback> IntegrationMethods for CompositeSystem<S> {
    type System = S;

    open spec fn wf(&self) -> bool {
        match self {
            CompositeSystem::Single(system) => system.wf(),
            CompositeSystem::MultipleIdentical(system) => system.wf(),
            CompositeSystem::MultipleDistinct(system) => system.wf(),
        }
    }

    open spec fn view(&self) -> SystemView<S> {
        match self {
            CompositeSystem::Single(system) => system.view(),
            CompositeSystem::MultipleIdentical(system) => system.view(),
            CompositeSystem::MultipleDistinct(system) => system.view(),
        }
    }

    fn single_step_rk4(&mut self) {
        match self {
            CompositeSystem::Single(system) => system.single_step_rk4(),
            CompositeSystem::MultipleIdentical(system) => system.single_step_rk4(),
            CompositeSystem::MultipleDistinct(system) => system.single_step_rk4(),
        }
    }

    fn n_steps_rk4(&mut self, n: usize) {
        match self {
            CompositeSystem::Single(system) => system.n_steps_rk4(n),
            CompositeSystem::MultipleIdentical(system) => system.n_steps_rk4(n),
            CompositeSystem::MultipleDistinct(system) => system.n_steps_rk4(n),
        }
    }

    fn keep_state(&self) -> (kept: Vec<S::RealT>) {
        match self {
            CompositeSystem::Single(system) => system.keep_state(),
            CompositeSystem::MultipleIdentical(system) => system.keep_state(),
            CompositeSystem::MultipleDistinct(system) => system.keep_state(),
        }
    }

    fn integrate_and_keep_segment(&mut self, timeseries: &mut Timeseries<S::RealT>) {
        match self {
            CompositeSystem::Single(system) => system.integrate_and_keep_segment(timeseries),
            CompositeSystem::MultipleIdentical(system) => system.integrate_and_keep_segment(
                timeseries,
            ),
            CompositeSystem::MultipleDistinct(system) => system.integrate_and_keep_segment(
                timeseries,
            ),
        }
    }

    fn timeseries_row_len(&self) -> (len: usize) {
        match self {
            CompositeSystem::Single(system) => system.timeseries_row_len(),
            CompositeSystem::MultipleIdentical(system) => system.timeseries_row_len(),
            CompositeSystem::MultipleDistinct(system) => system.timeseries_row_len(),
        }
    }

    fn timeseries_curve_names(&self) -> (names: &'static [&'static str]) {
        match self {
            CompositeSystem::Single(system) => system.timeseries_curve_names(),
            CompositeSystem::MultipleIdentical(system) => system.timeseries_curve_names(),
            CompositeSystem::MultipleDistinct(system) => system.timeseries_curve_names(),
        }
    }
}

/// The assembly of nodes of model `S` for `network`, of the kind that the number of nodes
/// and `node_setup` call for, about to start.
pub fn new_composite_system_of_type<S: Feedback>(
    network: &Network<S::RealT>,
    dt: S::RealT,
    node_setup: NodeSetup,
) -> (made: Result<CompositeSystem<S>, SetupError>)
    requires
        state_total::<S>(),
        feedback_total::<S>(),
    ensures
        made == Err::<CompositeSystem<S>, SetupError>(SetupError::NodeCount) <==> composition_of(
            network.nodes,
            node_setup,
        ) is None,
        made matches Err(fault) ==> fault is NodeCount || fault is History,
        made matches Ok(system) ==> system.wf() && Some(system.composition()) == composition_of(
            network.nodes,
            node_setup,
        ) && system.view().states.len() == network.nodes,
        state_exact::<S>() && feedback_exact::<S>() ==> match made {
            Ok(system) => build_fault(network.incoming(), EQUAL_RINGBUFFERS, dt) is None
                && system.view() == initial_view::<S>(network.incoming(), dt),
            Err(SetupError::History(fault)) => build_fault(network.incoming(), EQUAL_RINGBUFFERS, dt)
                == Some(fault),
            Err(_) => true,
        },
{
    match choose_composition(network.get_nodes(), node_setup) {
        None => Err(SetupError::NodeCount),
        Some(Composition::Single) => match SingleFeedbackSystem::<S>::new(network, dt) {
            Ok(system) => Ok(CompositeSystem::Single(system)),
            Err(fault) => Err(fault),
        },
        Some(Composition::MultipleIdentical) => match MultipleIdenticalFeedbackSystems::<S>::new(
            network,
            dt,
        ) {
            Ok(system) => Ok(CompositeSystem::MultipleIdentical(system)),
            Err(fault) => Err(fault),
        },
        Some(Composition::MultipleDistinct) => match MultipleDistinctFeedbackSystems::<S>::new(
            network,
            dt,
        ) {
            Ok(system) => Ok(CompositeSystem::MultipleDistinct(system)),
            Err(fault) => Err(fault),
        },
    }
}

/// A run: an assembly of nodes, the segment of output that it fills, and the count of
/// the steps taken.
pub struct Calculation<I: IntegrationMethods> {
    pub dt: <I::System as DynamicalSystem>::RealT,
    pub total_steps: u64,
    pub segment_length: usize,
    pub system: I,
    pub timeseries: Timeseries<<I::System as DynamicalSystem>::RealT>,
    pub save_items: SaveItems,
}

impl<I: IntegrationMethods> Calculation<I> {
    /// The assembly is consistent and the segment has `segment_length` rows.
    pub open spec fn wf(&self) -> bool {
        &&& self.system.wf()
        &&& self.timeseries.rows().len() == self.segment_length
    }

    /// The step width of the run.
    pub open spec fn step(&self) -> <I::System as DynamicalSystem>::RealT {
        self.dt
    }

    /// What is saved of the run.
    pub open spec fn saving(&self) -> Saving {
        self.save_items.saving_spec()
    }

    /// A run of `system` that fills `timeseries`, with no step taken yet.
    pub fn new(
        dt: <I::System as DynamicalSystem>::RealT,
        system: I,
        timeseries: Timeseries<<I::System as DynamicalSystem>::RealT>,
        save_items: SaveItems,
    ) -> (calculation: Self)
        ensures
            calculation.step() == dt,
            calculation.total_steps == 0,
            calculation.segment_length == timeseries.rows().len(),
            calculation.system == system,
            calculation.timeseries == timeseries,
            calculation.saving() == save_items.saving_spec(),
    {
        let segment_length = timeseries.segment_len();
        Calculation { dt, total_steps: 0, segment_length, system, timeseries, save_items }
    }

    /// One step, not counted.
    pub fn single_step_rk4(&mut self)
        requires
            old(self).wf(),
            state_total::<I::System>(),
            feedback_total::<I::System>(),
        ensures
            final(self).wf(),
            final(self).total_steps == old(self).total_steps,
            final(self).segment_length == old(self).segment_length,
            final(self).timeseries == old(self).timeseries,
            final(self).dt == old(self).dt,
            final(self).save_items == old(self).save_items,
            same_shape(final(self).system.view(), old(self).system.view()),
            state_exact::<I::System>() && feedback_exact::<I::System>() ==> final(self).system.view() == system_step(old(self).system.view()),
    {
        self.system.single_step_rk4();
    }

    /// One step, counted.
    pub fn single_step_rk4_count(&mut self)
        requires
            old(self).wf(),
            state_total::<I::System>(),
            feedback_total::<I::System>(),
            old(self).total_steps < u64::MAX,
        ensures
            final(self).wf(),
            final(self).total_steps == old(self).total_steps + 1,
            final(self).segment_length == old(self).segment_length,
            final(self).timeseries == old(self).timeseries,
            final(self).dt == old(self).dt,
            final(self).save_items == old(self).save_items,
            same_shape(final(self).system.view(), old(self).system.view()),
            state_exact::<I::System>() && feedback_exact::<I::System>() ==> final(self).system.view() == system_step(old(self).system.view()),
    {
        self.system.single_step_rk4();
        self.total_steps = self.total_steps + 1;
    }

    /// `n` steps, counted.
    pub fn n_steps_rk4(&mut self, n: usize)
        requires
            old(self).wf(),
            state_total::<I::System>(),
            feedback_total::<I::System>(),
            old(self).total_steps + n <= u64::MAX,
        ensures
            final(self).wf(),
            final(self).total_steps == old(self).total_steps + n,
            final(self).segment_length == old(self).segment_length,
            final(self).timeseries == old(self).timeseries,
            final(self).dt == old(self).dt,
            final(self).save_items == old(self).save_items,
            same_shape(final(self).system.view(), old(self).system.view()),
            state_exact::<I::System>() && feedback_exact::<I::System>() ==> final(self).system.view() == system_steps(old(self).system.view(), n as nat),
    {
        self.system.n_steps_rk4(n);
        self.total_steps = self.total_steps + n as u64;
    }

    /// Fills the segment: one step for each of its rows, the observables after the step
    /// written into the row; the steps are counted.
    pub fn integrate_segment(&mut self)
        requires
            old(self).wf(),
            state_total::<I::System>(),
            feedback_total::<I::System>(),
            old(self).total_steps + old(self).segment_length <= u64::MAX,
        ensures
            final(self).wf(),
            final(self).total_steps == old(self).total_steps + old(self).segment_length,
            final(self).segment_length == old(self).segment_length,
            final(self).dt == old(self).dt,
            final(self).save_items == old(self).save_items,
            same_shape(final(self).system.view(), old(self).system.view()),
            final(self).timeseries.start_time() == old(self).system.view().time,
            forall|r: int|
                0 <= r < old(self).segment_length ==> (#[trigger] final(self).timeseries.rows()[r]).len()
                    == old(self).timeseries.rows()[r].len(),
            state_exact::<I::System>() && feedback_exact::<I::System>() ==> final(self).system.view() == system_steps(
                old(self).system.view(),
                old(self).segment_length as nat,
            ),
            state_exact::<I::System>() && feedback_exact::<I::System>() ==> forall|r: int|
                0 <= r < old(self).segment_length ==> #[trigger] final(self).timeseries.rows()[r]
                    == row_filled(
                    old(self).timeseries.rows()[r],
                    kept_row::<I::System>(
                        system_steps(old(self).system.view(), (r + 1) as nat).states,
                    ),
                ),
    {
        self.system.integrate_and_keep_segment(&mut self.timeseries);
        self.total_steps = self.total_steps + self.segment_length as u64;
    }

    /// Says what `task` asks of this run.
    pub fn plan(&self, task: &Tasks<<I::System as DynamicalSystem>::RealT>) -> (work: Work<
        <I::System as DynamicalSystem>::RealT,
    >)
        requires
            total::<<I::System as DynamicalSystem>::RealT>(),
        ensures
            exact::<<I::System as DynamicalSystem>::RealT>() ==> work == work_of(
                *task,
                self.saving(),
                self.step(),
            ),
            task is PrintTechnicalDetails <==> work is Report,
            task is IntegrateSegmentsAndSave ==> work == work_of(*task, self.saving(), self.step()),
            task is IntegrateUntilTimeNoSave ==> work is Advance || work is Refuse,
    {
        plan_task(task, self.save_items.saving(), self.dt)
    }

    /// Does a piece of work: takes its steps, filling the segment and handing it to the
    /// sink where the work asks for that. Work that would take the count of steps beyond
    /// what the machine can count is done as far as whole segments fit.
    pub fn perform_work<K: SegmentSink<<I::System as DynamicalSystem>::RealT>>(
        &mut self,
        work: &Work<<I::System as DynamicalSystem>::RealT>,
        sink: &mut K,
    ) -> (done: Result<(), RunError>)
        requires
            old(self).wf(),
            state_total::<I::System>(),
            feedback_total::<I::System>(),
        ensures
            final(self).wf(),
            final(self).segment_length == old(self).segment_length,
            final(self).dt == old(self).dt,
            final(self).save_items == old(self).save_items,
            same_shape(final(self).system.view(), old(self).system.view()),
            done == match work_fault(
                *work,
                old(self).total_steps as nat,
                old(self).segment_length as nat,
            ) {
                Some(fault) => Err::<(), RunError>(fault),
                None => Ok(()),
            },
            done is Ok ==> final(self).total_steps == old(self).total_steps + steps_of(
                *work,
                old(self).segment_length as nat,
            ),
            done == Err::<(), RunError>(RunError::SpanTooLong) ==> final(self).total_steps == old(self).total_steps && final(self).system.view() == old(self).system.view(),
            old(self).total_steps <= final(self).total_steps,
            state_exact::<I::System>() && feedback_exact::<I::System>() ==> final(self).system.view() == system_steps(
                old(self).system.view(),
                (final(self).total_steps - old(self).total_steps) as nat,
            ),
    {
        match work {
            Work::Advance { steps } => {
                if *steps as u64 > u64::MAX - self.total_steps {
                    return Err(RunError::StepCountOverflow);
                }
                self.n_steps_rk4(*steps);
                Ok(())
            },
            Work::SaveSegments { segments, epsilon, saving } => {
                let mut k: usize = 0;
                while k < *segments
                    invariant
                        self.wf(),
                        state_total::<I::System>(),
                        feedback_total::<I::System>(),
                        k <= *segments,
                        *work is SaveSegments,
                        work->segments == *segments,
                        self.segment_length == old(self).segment_length,
                        self.dt == old(self).dt,
                        self.save_items == old(self).save_items,
                        same_shape(self.system.view(), old(self).system.view()),
                        self.total_steps == old(self).total_steps + k * self.segment_length,
                        state_exact::<I::System>() && feedback_exact::<I::System>()
                            ==> self.system.view() == system_steps(
                            old(self).system.view(),
                            (k * self.segment_length) as nat,
                        ),
                    decreases *segments - k,
                {
                    if self.segment_length as u64 > u64::MAX - self.total_steps {
                        proof {
                            assert((k + 1) * self.segment_length <= *segments
                                * self.segment_length) by (nonlinear_arith)
                                requires
                                    k + 1 <= *segments,
                            ;
                            assert((k + 1) * self.segment_length == k * self.segment_length
                                + self.segment_length) by (nonlinear_arith);
                            assert(steps_of(*work, self.segment_length as nat) == *segments
                                * self.segment_length);
                        }
                        return Err(RunError::StepCountOverflow);
                    }
                    let ghost before = self.system.view();
                    self.integrate_segment();
                    sink.save(&self.timeseries, &self.save_items, epsilon);
                    proof {
                        assert((k + 1) * self.segment_length == k * self.segment_length
                            + self.segment_length) by (nonlinear_arith);
                        if state_exact::<I::System>() && feedback_exact::<I::System>() {
                            lemma_steps_add::<I::System>(
                                old(self).system.view(),
                                (k * self.segment_length) as nat,
                                self.segment_length as nat,
                            );
                        }
                    }
                    k += 1;
                }
                assert(steps_of(*work, self.segment_length as nat) == *segments
                    * self.segment_length);
                Ok(())
            },
            Work::Report => {
                sink.report(self.segment_length);
                Ok(())
            },
            Work::Refuse => Err(RunError::SpanTooLong),
        }
    }

    /// Does what `task` asks of this run.
    pub fn perform_task<K: SegmentSink<<I::System as DynamicalSystem>::RealT>>(
        &mut self,
        task: &Tasks<<I::System as DynamicalSystem>::RealT>,
        sink: &mut K,
    ) -> (done: Result<(), RunError>)
        requires
            old(self).wf(),
            state_total::<I::System>(),
            feedback_total::<I::System>(),
        ensures
            final(self).wf(),
            final(self).segment_length == old(self).segment_length,
            final(self).dt == old(self).dt,
            final(self).save_items == old(self).save_items,
            same_shape(final(self).system.view(), old(self).system.view()),
            old(self).total_steps <= final(self).total_steps,
            exact::<<I::System as DynamicalSystem>::RealT>() ==> done == match work_fault(
                work_of(*task, old(self).saving(), old(self).step()),
                old(self).total_steps as nat,
                old(self).segment_length as nat,
            ) {
                Some(fault) => Err::<(), RunError>(fault),
                None => Ok(()),
            },
            exact::<<I::System as DynamicalSystem>::RealT>() && done is Ok ==> final(self).total_steps == old(self).total_steps + steps_of(
                work_of(*task, old(self).saving(), old(self).step()),
                old(self).segment_length as nat,
            ),
            state_exact::<I::System>() && feedback_exact::<I::System>() ==> final(self).system.view() == system_steps(
                old(self).system.view(),
                (final(self).total_steps - old(self).total_steps) as nat,
            ),
    {
        let work = self.plan(task);
        self.perform_work(&work, sink)
    }

    /// Goes through an agenda, task by task, up to the first task that cannot be done.
    pub fn perform_tasks<K: SegmentSink<<I::System as DynamicalSystem>::RealT>>(
        &mut self,
        tasks: &Vec<Tasks<<I::System as DynamicalSystem>::RealT>>,
        sink: &mut K,
    ) -> (done: Result<(), RunError>)
        requires
            old(self).wf(),
            state_total::<I::System>(),
            feedback_total::<I::System>(),
        ensures
            final(self).wf(),
            final(self).segment_length == old(self).segment_length,
            final(self).dt == old(self).dt,
            final(self).save_items == old(self).save_items,
            same_shape(final(self).system.view(), old(self).system.view()),
            old(self).total_steps <= final(self).total_steps,
            exact::<<I::System as DynamicalSystem>::RealT>() ==> done == match run_fault(
                works_of(tasks@, old(self).saving(), old(self).step()),
                old(self).total_steps as nat,
                old(self).segment_length as nat,
            ) {
                Some(fault) => Err::<(), RunError>(fault),
                None => Ok(()),
            },
            exact::<<I::System as DynamicalSystem>::RealT>() && done is Ok ==> final(self).total_steps == old(self).total_steps + steps_planned(
                works_of(tasks@, old(self).saving(), old(self).step()),
                old(self).segment_length as nat,
            ),
            state_exact::<I::System>() && feedback_exact::<I::System>() ==> final(self).system.view() == system_steps(
                old(self).system.view(),
                (final(self).total_steps - old(self).total_steps) as nat,
            ),
    {
        let ghost works = works_of(tasks@, self.saving(), self.step());
        let ghost length = self.segment_length as nat;
        let mut t: usize = 0;
        assert(works.take(0) =~= Seq::empty());
        while t < tasks.len()
            invariant
                self.wf(),
                state_total::<I::System>(),
                feedback_total::<I::System>(),
                t <= tasks@.len(),
                works == works_of(tasks@, old(self).saving(), old(self).step()),
                length == old(self).segment_length,
                self.segment_length == old(self).segment_length,
                self.dt == old(self).dt,
                self.save_items == old(self).save_items,
                same_shape(self.system.view(), old(self).system.view()),
                old(self).total_steps <= self.total_steps,
                exact::<<I::System as DynamicalSystem>::RealT>() ==> run_fault(
                    works.take(t as int),
                    old(self).total_steps as nat,
                    length,
                ) is None,
                exact::<<I::System as DynamicalSystem>::RealT>() ==> self.total_steps == old(self).total_steps + steps_planned(works.take(t as int), length),
                state_exact::<I::System>() && feedback_exact::<I::System>() ==> self.system.view()
                    == system_steps(
                    old(self).system.view(),
                    (self.total_steps - old(self).total_steps) as nat,
                ),
            decreases tasks@.len() - t,
        {
            let ghost before = *self;
            proof {
                assert(works.take(t + 1).drop_last() =~= works.take(t as int));
                assert(works.take(t + 1).last() == work_of(
                    tasks@[t as int],
                    self.saving(),
                    self.step(),
                ));
            }
            match self.perform_task(&tasks[t], sink) {
                Ok(_) => {},
                Err(fault) => {
                    proof {
                        if exact::<<I::System as DynamicalSystem>::RealT>() {
                            lemma_run_fault_stays(
                                works,
                                t + 1,
                                old(self).total_steps as nat,
                                length,
                            );
                        }
                        if state_exact::<I::System>() && feedback_exact::<I::System>() {
                            lemma_steps_add::<I::System>(
                                old(self).system.view(),
                                (before.total_steps - old(self).total_steps) as nat,
                                (self.total_steps - before.total_steps) as nat,
                            );
                        }
                    }
                    return Err(fault);
                },
            }
            proof {
                if state_exact::<I::System>() && feedback_exact::<I::System>() {
                    lemma_steps_add::<I::System>(
                        old(self).system.view(),
                        (before.total_steps - old(self).total_steps) as nat,
                        (self.total_steps - before.total_steps) as nat,
                    );
                }
            }
            t += 1;
        }
        assert(works.take(t as int) =~= works);
        Ok(())
    }
}

impl<S: Feedback> Calculation<CompositeSystem<S>> {
    /// A run of nodes of model `S` on `network`, assembled as the number of nodes and
    /// `node_setup` call for, with a segment of `segment_length` rows of zeros.
    pub fn examples(
        dt: S::RealT,
        network: &Network<S::RealT>,
        segment_length: usize,
        node_setup: NodeSetup,
        save_items: SaveItems,
    ) -> (made: Result<Self, SetupError>)
        requires
            state_total::<S>(),
            feedback_total::<S>(),
        ensures
            made == Err::<Self, SetupError>(SetupError::NodeCount) <==> composition_of(
                network.nodes,
                node_setup,
            ) is None,
            S::obeys_row_len_spec() && made == Err::<Self, SetupError>(SetupError::RowTooWide)
                ==> network.nodes * S::row_len() > usize::MAX,
            made matches Ok(calculation) ==> {
                &&& calculation.wf()
                &&& calculation.total_steps == 0
                &&& calculation.segment_length == segment_length
                &&& calculation.step() == dt
                &&& Some(calculation.system.composition()) == composition_of(
                    network.nodes,
                    node_setup,
                )
                &&& calculation.system.view().states.len() == network.nodes
                &&& calculation.timeseries.nodes() == network.nodes
                &&& calculation.timeseries.rows().len() == segment_length
                &&& forall|r: int|
                    0 <= r < segment_length ==> (#[trigger] calculation.timeseries.rows()[r]).len()
                        == network.nodes * calculation.timeseries.variables()
                &&& S::obeys_row_len_spec() ==> calculation.timeseries.variables() == S::row_len()
            },
            state_exact::<S>() && feedback_exact::<S>() ==> match made {
                Ok(calculation) => build_fault(network.incoming(), EQUAL_RINGBUFFERS, dt) is None
                    && calculation.system.view() == initial_view::<S>(network.incoming(), dt),
                Err(SetupError::History(fault)) => build_fault(
                    network.incoming(),
                    EQUAL_RINGBUFFERS,
                    dt,
                ) == Some(fault),
                Err(_) => true,
            },
    {
        let system = match new_composite_system_of_type::<S>(network, dt, node_setup) {
            Ok(system) => system,
            Err(fault) => {
                return Err(fault);
            },
        };
        let row_len = system.timeseries_row_len();
        match Timeseries::new(dt, network.get_nodes(), row_len, segment_length, from_whole(0)) {
            Some(timeseries) => Ok(Calculation::new(dt, system, timeseries, save_items)),
            None => Err(SetupError::RowTooWide),
        }
    }
}

/// Taking `a` steps and then `b` more is taking `a + b` steps.
pub proof fn lemma_steps_add<S: Feedback>(v: SystemView<S>, a: nat, b: nat)
    ensures
        system_steps(system_steps(v, a), b) == system_steps(v, a + b),
    decreases b,
{
    if b > 0 {
        lemma_steps_add::<S>(v, a, (b - 1) as nat);
    }
}

/// A fault met in the first pieces of a list of work is the fault of the list.
proof fn lemma_run_fault_stays<R>(works: Seq<Work<R>>, upto: int, total: nat, segment_length: nat)
    requires
        0 <= upto <= works.len(),
        run_fault(works.take(upto), total, segment_length) is Some,
    ensures
        run_fault(works, total, segment_length) == run_fault(
            works.take(upto),
            total,
            segment_length,
        ),
    decreases works.len() - upto,
{
    if upto < works.len() {
        assert(works.take(upto + 1).drop_last() =~= works.take(upto));
        lemma_run_fault_stays(works, upto + 1, total, segment_length);
    } else {
        assert(works.take(upto) =~= works);
    }
}

} // verus!
