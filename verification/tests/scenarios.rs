use delaynet::calculation::{Calculation, CompositeSystem, NodeSetup, SegmentSink, Tasks};
use delaynet::composite_system::{MultipleIdenticalFeedbackSystems, SingleFeedbackSystem};
use delaynet::dynamical_system::{DynamicalSystem, Feedback, WeightFromEdge};
use delaynet::integration_methods::{rk4, IntegrationMethods};
use delaynet::network::{Edge, Network};
use delaynet::timeseries::{SaveItems, Timeseries};
use num_complex::Complex;
use std::f64::consts::PI;
use std::ops::{Add, Div, Mul};

#[derive(Clone, Copy, Debug, PartialEq)]
struct State {
    e: Complex<f64>,
    n: f64,
}

impl Add for State {
    type Output = State;
    fn add(self, rhs: State) -> State {
        State { e: self.e + rhs.e, n: self.n + rhs.n }
    }
}

impl Mul<f64> for State {
    type Output = State;
    fn mul(self, rhs: f64) -> State {
        State { e: self.e * rhs, n: self.n * rhs }
    }
}

impl Div<f64> for State {
    type Output = State;
    fn div(self, rhs: f64) -> State {
        State { e: self.e / rhs, n: self.n / rhs }
    }
}

#[derive(Clone, Copy)]
struct Model {
    alpha: f64,
    pump: f64,
    t_lk: f64,
}

#[derive(Clone, Copy)]
struct Phasor(Complex<f64>);

impl WeightFromEdge<f64> for Phasor {
    fn from_edge(edge: &Edge<f64>) -> Self {
        Phasor(edge.strength * (edge.turn * Complex::<f64>::i() * 2.0 * PI).exp())
    }
}

impl Mul<Phasor> for Complex<f64> {
    type Output = Complex<f64>;
    fn mul(self, rhs: Phasor) -> Complex<f64> {
        self * rhs.0
    }
}

struct LangKobayashi;

impl DynamicalSystem for LangKobayashi {
    type RealT = f64;
    type StateT = State;
    type ModelT = Model;

    fn initial_state() -> State {
        State { e: Complex::new(0.1, 0.0), n: 0.05 }
    }

    fn initial_model() -> Model {
        Model { alpha: 1.5, pump: 0.1, t_lk: 100.0 }
    }

    fn keep_state(state: &State) -> Vec<f64> {
        vec![state.e.norm_sqr(), state.n]
    }

    fn keep_state_names() -> &'static [&'static str] {
        &["e_norm", "n"]
    }
}

fn slope(state: &State, model: &Model, delay: &Complex<f64>) -> State {
    State {
        e: Complex::new(1.0, model.alpha) * state.n * state.e + delay,
        n: (1.0 / model.t_lk)
            * (model.pump - state.n - (2.0 * state.n + 1.0) * state.e.norm_sqr()),
    }
}

impl Feedback for LangKobayashi {
    type FeedbackT = Complex<f64>;
    type WeightT = Phasor;

    fn zero_feedback() -> Complex<f64> {
        Complex::new(0.0, 0.0)
    }

    fn f(state: &State, model: &Model, delay: &Complex<f64>) -> State {
        slope(state, model, delay)
    }

    fn get_feedback(state: &State) -> Complex<f64> {
        state.e
    }

    fn keep_state_and_delay(state: &State, feedback: &Complex<f64>) -> Vec<f64> {
        vec![state.e.re, state.e.im, state.n, feedback.re, feedback.im]
    }

    fn keep_state_and_delay_names() -> &'static [&'static str] {
        &["e_real", "e_imag", "n", "e_delay_im", "e_delay_re"]
    }
}

#[test]
fn complex_weight_has_the_strength_as_magnitude_and_the_turn_as_angle() {
    for (strength, turn) in [(0.1, 0.0), (0.25, 0.125), (1.5, 0.5), (2.0, 0.75), (0.7, 0.9)] {
        let edge = Edge { group: 0, into: 0, from: 0, strength, turn, delay: 1.0 };
        let weight = Phasor::from_edge(&edge).0;
        assert!((weight.norm() - strength).abs() < 1e-12);
        let angle = weight.arg().rem_euclid(2.0 * PI);
        let expected = (2.0 * PI * turn).rem_euclid(2.0 * PI);
        assert!((angle - expected).abs() < 1e-9);
    }
}

fn run_segments(segments: usize) -> Calculation<CompositeSystem<LangKobayashi>> {
    let dt = 1.0 / 64.0;
    let mut network = Network::new(1, 0.05, 0.0, 100.0, 0, dt);
    network.put_edge(0, 0, 0.1, 0.0, 15.57);
    let mut calculation: Calculation<CompositeSystem<LangKobayashi>> =
        Calculation::examples(dt, &network, 512, NodeSetup::Single, SaveItems::Timeseries)
            .ok()
            .unwrap();
    let mut sink = FiniteRows { segments: 0 };
    let tasks = vec![Tasks::IntegrateSegmentsAndSave { segments, epsilon: 0.005 }];
    assert_eq!(calculation.perform_tasks(&tasks, &mut sink), Ok(()));
    assert_eq!(sink.segments, segments);
    assert!(calculation.system.keep_state().iter().all(|value: &f64| value.is_finite()));
    calculation
}

/// Looks at every row of every segment: all of its values must be finite.
struct FiniteRows {
    segments: usize,
}

impl SegmentSink<f64> for FiniteRows {
    fn save(&mut self, timeseries: &Timeseries<f64>, _save_items: &SaveItems, _epsilon: &f64) {
        for row in timeseries.segment() {
            assert_eq!(row.len(), 2);
            assert!(row.iter().all(|value: &f64| value.is_finite()));
        }
        self.segments += 1;
    }

    fn report(&mut self, _segment_length: usize) {}
}

#[test]
fn single_lang_kobayashi_runs_for_five_hundred_segments() {
    let calculation = run_segments(500);
    assert_eq!(calculation.total_steps, 500 * 512);
}

#[test]
fn single_lang_kobayashi_takes_262144_steps_in_512_segments() {
    let calculation = run_segments(512);
    assert_eq!(calculation.total_steps, 262144);
}

fn ring_of_four(strength: f64) -> MultipleIdenticalFeedbackSystems<LangKobayashi> {
    let dt = 1.0 / 64.0;
    let mut network = Network::new(4, 0.05, 0.0, 100.0, 0, dt);
    network.put_ring(strength, 0.0, 20.0);
    MultipleIdenticalFeedbackSystems::<LangKobayashi>::new(&network, dt).ok().unwrap()
}

#[test]
fn coupling_is_felt_once_the_delay_has_passed() {
    let mut coupled = ring_of_four(0.1);
    let mut free = ring_of_four(0.0);
    // the delay lines start full of zeros, so the first step reads nothing yet
    coupled.single_step_rk4();
    free.single_step_rk4();
    assert_eq!(coupled.keep_state(), free.keep_state());
    // a delay of 20 is 1280 steps: the step after that reads what the first step pushed
    coupled.n_steps_rk4(1280);
    free.n_steps_rk4(1280);
    let a = coupled.keep_state();
    let b = free.keep_state();
    assert_eq!(a.len(), 8);
    for node in 0..4 {
        assert!((a[2 * node] - b[2 * node]).abs() > 1e-9);
    }
}

#[test]
fn zero_strength_feedback_is_plain_runge_kutta() {
    let dt = 1.0 / 64.0;
    let mut network = Network::new(1, 0.05, 0.0, 100.0, 0, dt);
    network.put_edge(0, 0, 0.0, 0.0, 2.0);
    let mut system = SingleFeedbackSystem::<LangKobayashi>::new(&network, dt).ok().unwrap();
    let mut bare = LangKobayashi::initial_state();
    let model = LangKobayashi::initial_model();
    let mut time = 0.0;
    for _ in 0..1000 {
        system.single_step_rk4();
        rk4::<LangKobayashi, _>(&mut bare, &model, &dt, &time, |s, m, _t| {
            slope(s, m, &Complex::new(0.0, 0.0))
        });
        time += dt;
    }
    let kept = system.keep_state();
    let expected = LangKobayashi::keep_state(&bare);
    assert!((kept[0] - expected[0]).abs() < 1e-12);
    assert!((kept[1] - expected[1]).abs() < 1e-12);
}
