use delaynet::composite_system::{MultipleIdenticalFeedbackSystems, SingleFeedbackSystem};
use delaynet::history::History;
use delaynet::integration_methods::IntegrationMethods;
use delaynet::lorenz;
use delaynet::network::Network;

type Lorenz = lorenz::System<f64>;

#[test]
fn single_lorenz_runs_and_stays_finite() {
    let dt = 1.0 / 64.0;
    let mut network = Network::new(1, 0.05, 0.0, 100.0, 0, dt);
    network.put_edge(0, 0, 0.1, 0.0, 15.57);
    let mut system = SingleFeedbackSystem::<Lorenz>::new(&network, dt).unwrap();
    system.n_steps_rk4(1000);
    let kept = system.keep_state();
    assert_eq!(kept.len(), 3);
    assert!(kept.iter().all(|x| x.is_finite()));
    assert!((system.time - 1000.0 * dt).abs() < 1e-9);
}

#[test]
fn history_sizes_are_powers_of_two() {
    let dt = 1.0 / 64.0;
    let mut network = Network::new(4, 0.05, 0.0, 100.0, 0, dt);
    network.put_ring(0.1, 0.0, 20.0);
    let history = History::<Lorenz>::new(dt, &network, true).unwrap();
    assert_eq!(history.nodes(), 4);
    for n in 0..4 {
        assert_eq!(history.capacity(n), 2048);
        let readers = history.node_readers(n);
        assert_eq!(readers.len(), 1);
        assert_eq!(readers[0].at_delay, 1280);
        assert_eq!(readers[0].at_node, (n + 3) % 4);
    }
}

#[test]
fn coupling_changes_the_first_step() {
    let dt = 1.0 / 64.0;
    let mut coupled = Network::new(4, 0.05, 0.0, 100.0, 0, dt);
    coupled.put_ring(0.1, 0.0, 20.0);
    let mut a = MultipleIdenticalFeedbackSystems::<Lorenz>::new(&coupled, dt).unwrap();
    a.single_step_rk4();
    let kept = a.keep_state();
    assert_eq!(kept.len(), 12);
}
