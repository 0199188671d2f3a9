use delaynet::dynamical_system::{DynamicalSystem, Feedback, WeightFromEdge};
use delaynet::lorenz;
use delaynet::roessler;
use delaynet::network::Edge;

type Lorenz = lorenz::System<f64>;

#[test]
fn lorenz_observables_match_their_names() {
    let state = Lorenz::initial_state();
    assert_eq!(Lorenz::keep_state(&state), vec![1.0, 1.0, 1.0]);
    assert_eq!(Lorenz::keep_state(&state).len(), Lorenz::keep_state_names().len());
    let model = Lorenz::initial_model();
    assert_eq!(model.beta, 8.0 / 3.0);
    let slope = Lorenz::f(&state, &model, &0.5);
    assert_eq!(slope.x, 0.5);
    assert_eq!(slope.y, 26.0);
    assert_eq!(slope.z, 1.0 - 8.0 / 3.0);
}

#[test]
fn real_weight_is_the_strength() {
    let edge = Edge { group: 0, into: 1, from: 2, strength: 0.25f64, turn: 0.5, delay: 3.0 };
    let w: f64 = WeightFromEdge::from_edge(&edge);
    assert_eq!(w, 0.25);
}

type Roessler = roessler::System<f64>;

#[test]
fn roessler_observables_match_their_names() {
    let state = Roessler::initial_state();
    assert_eq!(Roessler::keep_state(&state), vec![1.0, 1.0, 1.0]);
    assert_eq!(Roessler::keep_state_names(), &["x", "y", "z"]);
    assert_eq!(Roessler::keep_state(&state).len(), Roessler::keep_state_names().len());
    let model = Roessler::initial_model();
    assert_eq!((model.a, model.b, model.c), (0.2, 0.2, 5.7));
    let state = roessler::State { x: 2.0, y: 3.0, z: 0.5 };
    let slope = Roessler::f(&state, &model, &0.25);
    assert_eq!(slope.x, -3.0 - 0.5 + 0.25);
    assert_eq!(slope.y, 2.0 + 0.2 * 3.0);
    assert_eq!(slope.z, 0.2 + 0.5 * (2.0 - 5.7));
    assert_eq!(Roessler::get_feedback(&state), 2.0);
    assert_eq!(Roessler::zero_feedback(), 0.0);
    assert_eq!(Roessler::keep_state_and_delay(&state, &0.25), vec![2.0, 3.0, 0.5, 0.25]);
    assert_eq!(Roessler::keep_state_and_delay_names().len(), 4);
}

#[test]
fn states_are_added_and_scaled_by_their_parts() {
    let a = lorenz::State { x: 1.0, y: 2.0, z: 3.0 };
    let b = lorenz::State { x: 0.5, y: 0.25, z: -3.0 };
    let sum = a + b;
    assert_eq!((sum.x, sum.y, sum.z), (1.5, 2.25, 0.0));
    let scaled = a * 2.0;
    assert_eq!((scaled.x, scaled.y, scaled.z), (2.0, 4.0, 6.0));
    let shrunk = a / 4.0;
    assert_eq!((shrunk.x, shrunk.y, shrunk.z), (0.25, 0.5, 0.75));
    let c = roessler::State { x: 1.0, y: 2.0, z: 3.0 } + roessler::State { x: 1.0, y: 1.0, z: 1.0 };
    assert_eq!((c.x, c.y, c.z), (2.0, 3.0, 4.0));
    let d = roessler::State { x: 1.0, y: 2.0, z: 3.0 } * 0.5 / 0.25;
    assert_eq!((d.x, d.y, d.z), (2.0, 4.0, 6.0));
}
