use delaynet::calculation::{
    choose_composition, new_composite_system_of_type, plan_task, Calculation, CompositeSystem,
    Composition, NodeSetup, RunError, SegmentSink, SystemType, Tasks, Work,
};
use delaynet::composite_system::{
    MultipleDistinctFeedbackSystems, MultipleIdenticalFeedbackSystems, SetupError,
    SingleFeedbackSystem,
};
use delaynet::dynamical_system::{DynamicalSystem, Feedback};
use delaynet::history::HistoryError;
use delaynet::integration_methods::{
    euler, euler_delay, rk4, rk4_delay, single_step_rk4, IntegrationMethods, RungeKuttaDelay,
};
use delaynet::lorenz;
use delaynet::network::Network;
use delaynet::timer::Timer;
use delaynet::timeseries::{SaveItems, Saving, Timeseries};

type Lorenz = lorenz::System<f64>;

const DT: f64 = 1.0 / 64.0;

fn ring(nodes: usize, strength: f64) -> Network<f64> {
    let mut network = Network::new(nodes, 0.05, 0.0, 100.0, 0, DT);
    network.put_ring(strength, 0.0, 4.0 * DT);
    network
}

#[test]
fn the_number_of_nodes_and_the_setup_choose_the_assembly() {
    assert_eq!(choose_composition(1, NodeSetup::Single), Some(Composition::Single));
    assert_eq!(choose_composition(1, NodeSetup::Identical), Some(Composition::Single));
    assert_eq!(choose_composition(1, NodeSetup::Distinct), Some(Composition::Single));
    assert_eq!(choose_composition(2, NodeSetup::Identical), Some(Composition::MultipleIdentical));
    assert_eq!(choose_composition(9, NodeSetup::Distinct), Some(Composition::MultipleDistinct));
    assert_eq!(choose_composition(2, NodeSetup::Single), None);
    assert_eq!(choose_composition(0, NodeSetup::Single), None);
    assert_eq!(choose_composition(0, NodeSetup::Identical), None);
    assert_eq!(choose_composition(0, NodeSetup::Distinct), None);
}

#[test]
fn assemblies_are_built_as_chosen() {
    let one = new_composite_system_of_type::<Lorenz>(&ring(1, 0.1), DT, NodeSetup::Distinct);
    assert!(matches!(one, Ok(CompositeSystem::Single(_))));
    let same = new_composite_system_of_type::<Lorenz>(&ring(3, 0.1), DT, NodeSetup::Identical);
    assert!(matches!(same, Ok(CompositeSystem::MultipleIdentical(_))));
    let own = new_composite_system_of_type::<Lorenz>(&ring(3, 0.1), DT, NodeSetup::Distinct);
    assert!(matches!(own, Ok(CompositeSystem::MultipleDistinct(_))));
    let none = new_composite_system_of_type::<Lorenz>(&ring(3, 0.1), DT, NodeSetup::Single);
    assert!(matches!(none, Err(SetupError::NodeCount)));
    let empty = new_composite_system_of_type::<Lorenz>(&ring(0, 0.1), DT, NodeSetup::Identical);
    assert!(matches!(empty, Err(SetupError::NodeCount)));
}

#[test]
fn a_single_system_takes_one_node_only() {
    assert!(matches!(
        SingleFeedbackSystem::<Lorenz>::new(&ring(2, 0.1), DT),
        Err(SetupError::NodeCount)
    ));
    assert!(matches!(
        SingleFeedbackSystem::<Lorenz>::new(&ring(0, 0.1), DT),
        Err(SetupError::NodeCount)
    ));
    assert!(SingleFeedbackSystem::<Lorenz>::new(&ring(1, 0.1), DT).is_ok());
}

#[test]
fn a_faulty_network_stops_the_setup() {
    let mut network = Network::new(2, 0.05, 0.0, 100.0, 0, DT);
    network.put_ring(0.1, 0.0, 0.0);
    assert!(matches!(
        MultipleIdenticalFeedbackSystems::<Lorenz>::new(&network, DT),
        Err(SetupError::History(HistoryError::DelayTooSmall))
    ));
    assert!(matches!(
        MultipleDistinctFeedbackSystems::<Lorenz>::new(&network, DT),
        Err(SetupError::History(HistoryError::DelayTooSmall))
    ));
    assert!(matches!(
        Calculation::<CompositeSystem<Lorenz>>::examples(
            DT,
            &network,
            8,
            NodeSetup::Identical,
            SaveItems::Timeseries
        ),
        Err(SetupError::History(HistoryError::DelayTooSmall))
    ));
}

#[test]
fn one_step_is_the_runge_kutta_formula() {
    let mut state = Lorenz::initial_state();
    let model = Lorenz::initial_model();
    let taps = [
        RungeKuttaDelay { state: 0.5, slope: 0.25 },
        RungeKuttaDelay { state: 0.75, slope: -0.5 },
    ];
    let mut keep = RungeKuttaDelay { state: 0.0, slope: 0.0 };
    let before = state;
    rk4_delay::<Lorenz>(&mut state, &model, &mut keep, &taps, &DT);

    let f = |s: &lorenz::State<f64>, d: f64| lorenz::State {
        x: model.sigma * (s.y - s.x) + d,
        y: s.x * (model.rho - s.z) - s.y,
        z: s.x * s.y - model.beta * s.z,
    };
    let k1 = f(&before, taps[0].state);
    let middle = (taps[0].state + taps[1].state) * 0.5 + (taps[0].slope - taps[1].slope) * 0.125;
    assert_eq!(middle, 0.71875);
    let k2 = f(&(before + k1 * 0.5 * DT), middle);
    let k3 = f(&(before + k2 * 0.5 * DT), middle);
    let k4 = f(&(before + k3 * DT), taps[1].state);
    let expected = before + (k1 + k2 * 2.0 + k3 * 2.0 + k4) / 6.0 * DT;
    assert_eq!((state.x, state.y, state.z), (expected.x, expected.y, expected.z));
    assert_eq!(keep.state, expected.x);
    assert_eq!(keep.slope, k1.x);
}

#[test]
fn euler_steps_follow_the_slope() {
    let model = Lorenz::initial_model();
    let mut state = Lorenz::initial_state();
    euler_delay::<Lorenz>(&mut state, &model, &2.0, &0.5);
    // the slope at (1, 1, 1) under the input 2 is (2, 26, 1 - 8/3)
    assert_eq!((state.x, state.y), (2.0, 14.0));
    assert_eq!(state.z, 1.0 + (1.0 - 8.0 / 3.0) * 0.5);

    let mut plain = Lorenz::initial_state();
    euler::<Lorenz, _>(&mut plain, &model, &0.5, |s, _m| lorenz::State {
        x: s.x,
        y: 2.0 * s.y,
        z: -s.z,
    });
    assert_eq!((plain.x, plain.y, plain.z), (1.5, 2.0, 0.5));
}

#[test]
fn plain_runge_kutta_integrates_growth() {
    let model = Lorenz::initial_model();
    let mut state = Lorenz::initial_state();
    let mut time = 0.0;
    for _ in 0..64 {
        rk4::<Lorenz, _>(&mut state, &model, &DT, &time, |s, _m, _t| *s);
        time += DT;
    }
    // x' = x from 1 over one unit of time: e
    assert!((state.x - std::f64::consts::E).abs() < 1e-7);
    assert_eq!(state.x, state.y);
}

#[test]
fn nodes_read_before_any_of_them_pushes() {
    // two nodes that read each other one step back: after the first step both must have
    // read zeros, whatever the other has pushed in that step
    let mut network = Network::new(2, 0.05, 0.0, 100.0, 0, DT);
    network.put_edge(0, 1, 1.0, 0.0, DT);
    network.put_edge(1, 0, 1.0, 0.0, DT);
    let mut coupled = MultipleIdenticalFeedbackSystems::<Lorenz>::new(&network, DT).ok().unwrap();
    coupled.single_step_rk4();
    let mut alone = Lorenz::initial_state();
    let mut keep = RungeKuttaDelay { state: 0.0, slope: 0.0 };
    let zeros = [RungeKuttaDelay { state: 0.0, slope: 0.0 }; 2];
    rk4_delay::<Lorenz>(&mut alone, &Lorenz::initial_model(), &mut keep, &zeros, &DT);
    assert_eq!(coupled.keep_state(), vec![alone.x, alone.y, alone.z, alone.x, alone.y, alone.z]);
    // the second step reads what the first one pushed; the lines hold one sample each,
    // so the tap at the end of the step wraps around to that same sample
    coupled.single_step_rk4();
    let mut second = alone;
    let taps = [keep, keep];
    let mut unused = keep;
    rk4_delay::<Lorenz>(&mut second, &Lorenz::initial_model(), &mut unused, &taps, &DT);
    assert_eq!(coupled.keep_state()[0..3], [second.x, second.y, second.z]);
}

#[test]
fn the_three_assemblies_agree_on_equal_nodes() {
    let network = ring(1, 0.3);
    let mut single = SingleFeedbackSystem::<Lorenz>::new(&network, DT).ok().unwrap();
    let mut same = MultipleIdenticalFeedbackSystems::<Lorenz>::new(&network, DT).ok().unwrap();
    let mut own = MultipleDistinctFeedbackSystems::<Lorenz>::new(&network, DT).ok().unwrap();
    single.n_steps_rk4(200);
    same.n_steps_rk4(200);
    for _ in 0..200 {
        single_step_rk4(&mut own);
    }
    assert_eq!(single.keep_state(), same.keep_state());
    assert_eq!(single.keep_state(), own.keep_state());
    assert_eq!(single.time, same.time);
    assert_eq!(single.time, 200.0 * DT);
}

#[test]
fn rows_are_as_long_as_the_names_say() {
    let names = Lorenz::keep_state_names();
    assert_eq!(names, &["x", "y", "z"]);
    assert_eq!(Lorenz::keep_state(&Lorenz::initial_state()).len(), names.len());
    let with_delay = Lorenz::keep_state_and_delay(&Lorenz::initial_state(), &0.5);
    assert_eq!(with_delay, vec![1.0, 1.0, 1.0, 0.5]);
    assert_eq!(with_delay.len(), Lorenz::keep_state_and_delay_names().len());
    for nodes in 1..6 {
        let network = ring(nodes, 0.1);
        for setup in [NodeSetup::Identical, NodeSetup::Distinct] {
            let mut system =
                new_composite_system_of_type::<Lorenz>(&network, DT, setup).ok().unwrap();
            assert_eq!(system.timeseries_row_len(), names.len());
            assert_eq!(system.timeseries_curve_names().len(), names.len());
            assert_eq!(system.keep_state().len(), nodes * names.len());
            system.n_steps_rk4(3);
            assert_eq!(system.keep_state().len(), nodes * names.len());
        }
    }
}

#[test]
fn a_segment_holds_one_row_for_each_step() {
    let network = ring(2, 0.1);
    let mut calculation: Calculation<CompositeSystem<Lorenz>> =
        Calculation::examples(DT, &network, 5, NodeSetup::Identical, SaveItems::Timeseries)
            .ok()
            .unwrap();
    assert_eq!(calculation.total_steps, 0);
    assert_eq!(calculation.segment_length, 5);
    assert_eq!(calculation.timeseries.segment().len(), 5);
    assert!(calculation.timeseries.segment().iter().all(|row| row == &vec![0.0; 6]));
    calculation.n_steps_rk4(7);
    assert_eq!(calculation.total_steps, 7);
    calculation.single_step_rk4();
    assert_eq!(calculation.total_steps, 7);
    calculation.single_step_rk4_count();
    assert_eq!(calculation.total_steps, 8);

    let mut twin = MultipleIdenticalFeedbackSystems::<Lorenz>::new(&network, DT).ok().unwrap();
    twin.n_steps_rk4(9);
    calculation.integrate_segment();
    assert_eq!(calculation.total_steps, 13);
    assert_eq!(calculation.timeseries.segment_start_time(), 9.0 * DT);
    for row in calculation.timeseries.segment() {
        twin.single_step_rk4();
        assert_eq!(row, &twin.keep_state());
    }
}

#[test]
fn rows_and_observables_are_matched_from_the_start() {
    let mut series = Timeseries::new(DT, 1, 3, 2, 0.0f64).unwrap();
    assert_eq!(series.segment_len(), 2);
    series.write_row(0, &vec![1.0, 2.0]);
    series.write_row(1, &vec![1.0, 2.0, 3.0, 4.0]);
    assert_eq!(series.segment(), &vec![vec![1.0, 2.0, 0.0], vec![1.0, 2.0, 3.0]]);
    series.update_time(&4.5);
    assert_eq!(series.segment_start_time(), 4.5);
    assert!(Timeseries::new(DT, usize::MAX, 2, 1, 0.0f64).is_none());
}

#[test]
fn tasks_say_what_is_to_be_done() {
    let advance = plan_task(&Tasks::IntegrateUntilTimeNoSave { time: 10.0 }, Saving::Both, DT);
    assert!(matches!(advance, Work::Advance { steps: 640 }));
    let part = plan_task(&Tasks::IntegrateUntilTimeNoSave { time: 0.99 }, Saving::Both, 0.5);
    assert!(matches!(part, Work::Advance { steps: 1 }));
    let none = plan_task(&Tasks::IntegrateUntilTimeNoSave { time: -3.0 }, Saving::Both, DT);
    assert!(matches!(none, Work::Advance { steps: 0 }));
    let long = plan_task(&Tasks::IntegrateUntilTimeNoSave { time: 1.0e12 }, Saving::Both, DT);
    assert!(matches!(long, Work::Refuse));
    let save = plan_task(
        &Tasks::IntegrateSegmentsAndSave { segments: 25, epsilon: 0.005 },
        Saving::ParametricCurves,
        DT,
    );
    match save {
        Work::SaveSegments { segments, epsilon, saving } => {
            assert_eq!((segments, epsilon, saving), (25, 0.005, Saving::ParametricCurves));
        }
        _ => panic!("the task asks for segments"),
    }
    let report = plan_task(&Tasks::<f64>::PrintTechnicalDetails, Saving::Timeseries, DT);
    assert!(matches!(report, Work::Report));
}

#[test]
fn a_run_plans_with_its_own_step_and_saving() {
    let items = SaveItems::TimeseriesAndParametricCurve2d { variable_pairs: vec![[0, 2]] };
    assert_eq!(items.saving(), Saving::Both);
    assert_eq!(SaveItems::Timeseries.saving(), Saving::Timeseries);
    let pairs = SaveItems::ParametricCurve2d { variable_pairs: vec![[0, 1], [1, 2]] };
    assert_eq!(pairs.saving(), Saving::ParametricCurves);
    let calculation: Calculation<CompositeSystem<Lorenz>> =
        Calculation::examples(DT, &ring(1, 0.1), 4, NodeSetup::Single, items).ok().unwrap();
    let work = calculation.plan(&Tasks::IntegrateUntilTimeNoSave { time: 2.0 });
    assert!(matches!(work, Work::Advance { steps: 128 }));
    let work = calculation.plan(&Tasks::IntegrateSegmentsAndSave { segments: 3, epsilon: 0.1 });
    assert!(matches!(work, Work::SaveSegments { segments: 3, saving: Saving::Both, .. }));
    assert_eq!(SystemType::Lorenz, SystemType::Lorenz);
}

#[test]
fn the_stopwatch_runs_forward() {
    let mut timer = Timer::new();
    let first = timer.get_nanoseconds();
    let second = timer.get_nanoseconds();
    assert!(second >= first);
    let before_reset = timer.get_nanoseconds_reset();
    assert!(before_reset >= second);
    timer.reset();
    let _ = timer.get_nanoseconds();
}

/// Keeps what it is handed: the start time and the last row of every segment.
struct Recorder {
    saved: Vec<(f64, Vec<f64>, f64)>,
    reports: Vec<usize>,
}

impl SegmentSink<f64> for Recorder {
    fn save(&mut self, timeseries: &Timeseries<f64>, _save_items: &SaveItems, epsilon: &f64) {
        let rows = timeseries.segment();
        self.saved.push((timeseries.segment_start_time(), rows[rows.len() - 1].clone(), *epsilon));
    }

    fn report(&mut self, segment_length: usize) {
        self.reports.push(segment_length);
    }
}

fn fresh_run(segment_length: usize) -> Calculation<CompositeSystem<Lorenz>> {
    Calculation::examples(
        DT,
        &ring(2, 0.1),
        segment_length,
        NodeSetup::Identical,
        SaveItems::Timeseries,
    )
    .ok()
    .unwrap()
}

#[test]
fn an_agenda_is_gone_through_task_by_task() {
    let mut run = fresh_run(16);
    let mut recorder = Recorder { saved: Vec::new(), reports: Vec::new() };
    let tasks = vec![
        Tasks::IntegrateUntilTimeNoSave { time: 1.0 },
        Tasks::IntegrateSegmentsAndSave { segments: 3, epsilon: 0.005 },
        Tasks::PrintTechnicalDetails,
        Tasks::IntegrateSegmentsAndSave { segments: 1, epsilon: 0.25 },
    ];
    assert_eq!(run.perform_tasks(&tasks, &mut recorder), Ok(()));
    assert_eq!(run.total_steps, 64 + 3 * 16 + 16);
    assert_eq!(recorder.reports, vec![16]);
    assert_eq!(recorder.saved.len(), 4);
    let starts: Vec<f64> = recorder.saved.iter().map(|s| s.0).collect();
    assert_eq!(starts, vec![64.0 * DT, 80.0 * DT, 96.0 * DT, 112.0 * DT]);
    let within: Vec<f64> = recorder.saved.iter().map(|s| s.2).collect();
    assert_eq!(within, vec![0.005, 0.005, 0.005, 0.25]);

    let mut twin = MultipleIdenticalFeedbackSystems::<Lorenz>::new(&ring(2, 0.1), DT).ok().unwrap();
    twin.n_steps_rk4(128);
    assert_eq!(run.system.keep_state(), twin.keep_state());
    assert_eq!(recorder.saved[3].1, twin.keep_state());
}

#[test]
fn a_span_beyond_all_step_counts_stops_the_run() {
    let mut run = fresh_run(16);
    let mut recorder = Recorder { saved: Vec::new(), reports: Vec::new() };
    let tasks = vec![
        Tasks::IntegrateUntilTimeNoSave { time: 0.5 },
        Tasks::IntegrateUntilTimeNoSave { time: 1.0e12 },
        Tasks::IntegrateSegmentsAndSave { segments: 3, epsilon: 0.005 },
    ];
    assert_eq!(run.perform_tasks(&tasks, &mut recorder), Err(RunError::SpanTooLong));
    assert_eq!(run.total_steps, 32);
    assert!(recorder.saved.is_empty());
    assert_eq!(
        run.perform_task(&Tasks::IntegrateUntilTimeNoSave { time: 1.0e12 }, &mut recorder),
        Err(RunError::SpanTooLong)
    );
    assert_eq!(run.total_steps, 32);
}

#[test]
fn a_count_beyond_the_machine_stops_the_run() {
    let mut run = fresh_run(16);
    let mut recorder = Recorder { saved: Vec::new(), reports: Vec::new() };
    run.total_steps = u64::MAX - 40;
    assert_eq!(
        run.perform_work(&Work::Advance { steps: 41 }, &mut recorder),
        Err(RunError::StepCountOverflow)
    );
    assert_eq!(run.total_steps, u64::MAX - 40);
    let segments = Work::SaveSegments { segments: 3, epsilon: 0.1, saving: Saving::Timeseries };
    assert_eq!(run.perform_work(&segments, &mut recorder), Err(RunError::StepCountOverflow));
    // two whole segments fitted
    assert_eq!(run.total_steps, u64::MAX - 8);
    assert_eq!(recorder.saved.len(), 2);
    assert_eq!(run.perform_work(&Work::Advance { steps: 8 }, &mut recorder), Ok(()));
    assert_eq!(run.total_steps, u64::MAX);
    assert_eq!(run.perform_work(&Work::Report, &mut recorder), Ok(()));
    assert_eq!(run.perform_work(&Work::Refuse, &mut recorder), Err(RunError::SpanTooLong));
}
