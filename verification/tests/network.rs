use delaynet::network::{on_ring, Edge, Network, NetworkError, SelectGroup};

fn ends(network: &Network<f64>) -> Vec<(usize, usize, usize)> {
    network.edges.iter().map(|e| (e.group, e.into, e.from)).collect()
}

fn seeded(nodes: usize, seed: u64) -> Network<f64> {
    Network::new(nodes, 0.05, 0.0, 100.0, seed, 1.0 / 64.0)
}

fn empty(nodes: usize) -> Network<f64> {
    seeded(nodes, 0)
}

#[test]
fn on_ring_wraps_negative_and_large_indices() {
    assert_eq!(on_ring(0, 5), 0);
    assert_eq!(on_ring(4, 5), 4);
    assert_eq!(on_ring(5, 5), 0);
    assert_eq!(on_ring(12, 5), 2);
    assert_eq!(on_ring(-1, 5), 4);
    assert_eq!(on_ring(-5, 5), 0);
    assert_eq!(on_ring(-6, 5), 4);
    assert_eq!(on_ring(isize::MIN, 1), 0);
    assert_eq!(on_ring(isize::MAX, 7), (isize::MAX as usize) % 7);
    assert_eq!(on_ring(-7, usize::MAX), usize::MAX - 7);
}

#[test]
fn new_network_has_no_edges() {
    let network = empty(3);
    assert_eq!(network.get_nodes(), 3);
    assert_eq!(network.get_edge_groups(), 0);
    assert!(network.edges.is_empty());
    assert_eq!(network.default_strength, 0.05);
    assert_eq!(network.default_delay, 100.0);
    assert_eq!(network.dt, 1.0 / 64.0);
}

#[test]
fn put_edge_wraps_both_ends() {
    let mut network = empty(4);
    network.put_edge(-1, 6, 0.3, 0.25, 7.0);
    assert_eq!(ends(&network), vec![(0, 3, 2)]);
    assert_eq!(network.edges[0].strength, 0.3);
    assert_eq!(network.edges[0].turn, 0.25);
    assert_eq!(network.edges[0].delay, 7.0);
    assert_eq!(network.edge_groups, vec!["single edge".to_string()]);
}

#[test]
fn put_ring_feeds_every_successor() {
    let mut network = empty(4);
    network.put_ring(0.1, 0.0, 20.0);
    assert_eq!(ends(&network), vec![(0, 1, 0), (0, 2, 1), (0, 3, 2), (0, 0, 3)]);
    assert_eq!(network.edge_groups, vec!["ring --> (clockwise)".to_string()]);
}

#[test]
fn put_ring_reverse_feeds_every_predecessor() {
    let mut network = empty(3);
    network.put_ring(0.1, 0.0, 20.0);
    network.put_ring_reverse(0.2, 0.0, 10.0);
    assert_eq!(
        ends(&network),
        vec![(0, 1, 0), (0, 2, 1), (0, 0, 2), (1, 0, 1), (1, 1, 2), (1, 2, 0)]
    );
    assert_eq!(network.edge_groups[1], "ring <-- (counter-clockwise)");
    assert_eq!(network.get_edge_groups(), 2);
}

#[test]
fn put_bi_ring_is_one_group_of_both_directions() {
    let mut network = empty(3);
    network.put_bi_ring(0.1, 0.0, 20.0);
    assert_eq!(
        ends(&network),
        vec![(0, 0, 1), (0, 1, 2), (0, 2, 0), (0, 0, 2), (0, 1, 0), (0, 2, 1)]
    );
    assert_eq!(network.edge_groups, vec!["bidirectional ring".to_string()]);
}

#[test]
fn put_diag_couples_at_an_offset() {
    let mut network = empty(5);
    network.put_diag(2, 0.1, 0.0, 20.0);
    assert_eq!(ends(&network), vec![(0, 0, 2), (0, 1, 3), (0, 2, 4), (0, 3, 0), (0, 4, 1)]);
    assert_eq!(network.edge_groups[0], "diagonal with offset 2");
    network.put_diag(-1, 0.1, 0.0, 20.0);
    assert_eq!(ends(&network)[5..], [(1, 0, 4), (1, 1, 0), (1, 2, 1), (1, 3, 2), (1, 4, 3)]);
    assert_eq!(network.edge_groups[1], "diagonal with offset 4");
}

#[test]
fn put_jumps_couples_every_separation() {
    let mut network = empty(8);
    network.put_jumps(1, 3, 2, 0.1, 0.0, 20.0);
    assert_eq!(ends(&network), vec![(0, 1, 3), (0, 4, 6)]);
    assert_eq!(network.edge_groups[0], "jumps (separation: 3, distance: 2)");
    network.put_jumps(-1, 4, -3, 0.1, 0.0, 20.0);
    assert_eq!(ends(&network)[2..], [(1, 7, 4), (1, 3, 0)]);
    assert_eq!(network.edge_groups[1], "jumps (separation: 4, distance: -3)");
}

#[test]
fn put_chain_is_open() {
    let mut network = empty(4);
    network.put_chain(-1, 2, 0.1, 0.0, 20.0);
    assert_eq!(ends(&network), vec![(0, 0, 3), (0, 1, 0), (0, 2, 1)]);
    assert_eq!(network.edge_groups[0], "chain [-1..2]");
    network.put_chain(3, 3, 0.1, 0.0, 20.0);
    assert_eq!(network.edges.len(), 3);
    assert_eq!(network.edge_groups[1], "chain [3..3]");
    network.put_chain(120, 7, 0.1, 0.0, 20.0);
    assert_eq!(network.edges.len(), 3);
    assert_eq!(network.edge_groups[2], "chain [120..7]");
}

#[test]
fn every_builder_call_opens_a_group() {
    let mut network = empty(3);
    network.put_ring(0.1, 0.0, 20.0);
    network.put_edge(0, 0, 0.1, 0.0, 5.0);
    network.put_chain(0, 2, 0.1, 0.0, 5.0);
    assert_eq!(network.get_edge_groups(), 3);
    let groups: Vec<usize> = network.edges.iter().map(|e| e.group).collect();
    assert_eq!(groups, vec![0, 0, 0, 1, 2, 2]);
}

#[test]
fn edges_into_nodes_are_grouped_by_target() {
    let mut network = empty(3);
    network.put_ring(0.1, 0.0, 20.0);
    network.put_edge(1, 1, 0.2, 0.0, 5.0);
    let into_one = network.get_edges_into_node(1);
    assert_eq!(into_one.iter().map(|e| e.from).collect::<Vec<_>>(), vec![0, 1]);
    let all = network.get_edges_into_nodes();
    assert_eq!(all.len(), 3);
    assert_eq!(all[0].iter().map(|e| e.from).collect::<Vec<_>>(), vec![2]);
    assert_eq!(all[1].iter().map(|e| e.from).collect::<Vec<_>>(), vec![0, 1]);
    assert_eq!(all[2].iter().map(|e| e.from).collect::<Vec<_>>(), vec![1]);
    assert!(network.get_edges_into_node(7).is_empty());
}

fn two_groups() -> Network<f64> {
    let mut network = empty(2);
    network.put_ring(0.5, 0.75, 8.0);
    network.put_edge(0, 0, 1.0, 0.5, 4.0);
    network
}

#[test]
fn selections_address_groups() {
    let network = two_groups();
    assert!(SelectGroup::AllGroups.includes(2, 1));
    assert!(SelectGroup::SingleGroup(1).includes(2, 1));
    assert!(!SelectGroup::SingleGroup(1).includes(2, 0));
    assert!(SelectGroup::NotGroup(1).includes(2, 0));
    assert!(!SelectGroup::NotGroup(1).includes(2, 1));
    assert!(!SelectGroup::SingleGroup(2).includes(2, 2));
    assert!(!SelectGroup::NotGroup(2).includes(2, 0));
    assert!(network.addresses(&SelectGroup::SingleGroup(0), 1));
    assert!(!network.addresses(&SelectGroup::SingleGroup(0), 2));
    assert!(!network.addresses(&SelectGroup::AllGroups, 3));
}

#[test]
fn turn_angles_wraps_the_phase() {
    let mut network = two_groups();
    network.turn_angles(0.5, SelectGroup::SingleGroup(0));
    let turns: Vec<f64> = network.edges.iter().map(|e| e.turn).collect();
    assert_eq!(turns, vec![0.25, 0.25, 0.5]);
    network.turn_angles(-0.75, SelectGroup::NotGroup(0));
    assert_eq!(network.edges[2].turn, 0.75);
    assert_eq!(network.edges[0].turn, 0.25);
    network.turn_angles(0.125, SelectGroup::AllGroups);
    let turns: Vec<f64> = network.edges.iter().map(|e| e.turn).collect();
    assert_eq!(turns, vec![0.375, 0.375, 0.875]);
    network.turn_angles(0.5, SelectGroup::SingleGroup(5));
    network.turn_angles(0.5, SelectGroup::NotGroup(5));
    let turns: Vec<f64> = network.edges.iter().map(|e| e.turn).collect();
    assert_eq!(turns, vec![0.375, 0.375, 0.875]);
}

#[test]
fn randomize_strength_adds_scaled_noise() {
    let mut network = two_groups();
    let noise = vec![0.5, -1.0, 0.25];
    assert_eq!(network.randomize_strength_with(0.5, &noise, &SelectGroup::AllGroups), Ok(()));
    let strengths: Vec<f64> = network.edges.iter().map(|e| e.strength).collect();
    assert_eq!(strengths, vec![0.75, 0.0, 1.125]);
    assert_eq!(network.randomize_strength_with(2.0, &noise, &SelectGroup::NotGroup(0)), Ok(()));
    let strengths: Vec<f64> = network.edges.iter().map(|e| e.strength).collect();
    assert_eq!(strengths, vec![0.75, 0.0, 1.625]);
    let turns: Vec<f64> = network.edges.iter().map(|e| e.turn).collect();
    assert_eq!(turns, vec![0.75, 0.75, 0.5]);
}

#[test]
fn randomize_angle_turns_by_scaled_noise() {
    let mut network = two_groups();
    let noise = vec![0.5, -1.0, 0.25];
    assert_eq!(network.randomize_angle_with(0.5, &noise, &SelectGroup::SingleGroup(0)), Ok(()));
    let turns: Vec<f64> = network.edges.iter().map(|e| e.turn).collect();
    assert_eq!(turns, vec![0.0, 0.25, 0.5]);
}

#[test]
fn randomize_delay_scales_relatively() {
    let mut network = two_groups();
    let noise = vec![0.5, -1.0, 0.25];
    assert_eq!(network.randomize_delay_relative_with(0.5, &noise, &SelectGroup::AllGroups), Ok(()));
    let delays: Vec<f64> = network.edges.iter().map(|e| e.delay).collect();
    assert_eq!(delays, vec![10.0, 4.0, 4.5]);
}

#[test]
fn randomize_delay_refuses_amounts_of_one_or_more() {
    let mut network = two_groups();
    let noise = vec![0.5, -1.0, 0.25];
    assert_eq!(
        network.randomize_delay_relative_with(1.0, &noise, &SelectGroup::AllGroups),
        Err(NetworkError::RelativeAmountTooLarge)
    );
    assert_eq!(
        network.randomize_delay_relative_with(3.5, &noise, &SelectGroup::AllGroups),
        Err(NetworkError::RelativeAmountTooLarge)
    );
    assert_eq!(
        network.randomize_delay_relative_with(f64::NAN, &noise, &SelectGroup::AllGroups),
        Err(NetworkError::RelativeAmountTooLarge)
    );
    let delays: Vec<f64> = network.edges.iter().map(|e| e.delay).collect();
    assert_eq!(delays, vec![8.0, 8.0, 4.0]);
}

#[test]
fn randomizers_refuse_noise_of_the_wrong_length() {
    let mut network = two_groups();
    let short = vec![0.5];
    assert_eq!(
        network.randomize_strength_with(0.5, &short, &SelectGroup::AllGroups),
        Err(NetworkError::NoiseLength)
    );
    assert_eq!(
        network.randomize_angle_with(0.5, &short, &SelectGroup::AllGroups),
        Err(NetworkError::NoiseLength)
    );
    assert_eq!(
        network.randomize_delay_relative_with(0.5, &short, &SelectGroup::AllGroups),
        Err(NetworkError::NoiseLength)
    );
    let strengths: Vec<f64> = network.edges.iter().map(|e| e.strength).collect();
    assert_eq!(strengths, vec![0.5, 0.5, 1.0]);
}

#[test]
fn simplify_network_drops_edges_that_carry_nothing() {
    let mut network = empty(3);
    network.put_edge(0, 1, 0.5, 0.0, 1.0);
    network.put_edge(1, 2, 0.0, 0.0, 1.0);
    network.put_edge(2, 0, -0.5, 0.0, 1.0);
    network.put_edge(2, 1, 0.25, 0.0, 1.0);
    network.simplify_network();
    assert_eq!(ends(&network), vec![(0, 0, 1), (3, 2, 1)]);
    assert_eq!(network.get_edge_groups(), 4);
    let kept: Vec<Edge<f64>> = network.edges.clone();
    assert_eq!(kept[1].strength, 0.25);
}

fn big_ring(seed: u64) -> Network<f64> {
    let mut network = seeded(64, seed);
    network.put_ring(1.0, 0.5, 8.0);
    network.put_edge(0, 0, 2.0, 0.25, 4.0);
    network
}

#[test]
fn drawn_noise_stays_within_the_amount() {
    let mut network = big_ring(7);
    network.randomize_strength(0.25, SelectGroup::SingleGroup(0));
    assert!(network.edges[..64].iter().all(|e| (e.strength - 1.0).abs() <= 0.25));
    assert!(network.edges[..64].iter().any(|e| e.strength != 1.0));
    assert_eq!(network.edges[64].strength, 2.0);
    assert!(network.edges.iter().all(|e| e.delay == 8.0 || e.delay == 4.0));

    let mut network = big_ring(7);
    network.randomize_angle(0.125, SelectGroup::NotGroup(1));
    assert!(network.edges[..64].iter().all(|e| (e.turn - 0.5).abs() <= 0.125));
    assert!(network.edges[..64].iter().any(|e| e.turn != 0.5));
    assert_eq!(network.edges[64].turn, 0.25);

    let mut network = big_ring(7);
    assert_eq!(network.randomize_delay_relative(0.5, SelectGroup::AllGroups), Ok(()));
    assert!(network.edges[..64].iter().all(|e| 4.0 <= e.delay && e.delay <= 12.0));
    assert!(network.edges[..64].iter().any(|e| e.delay != 8.0));
    assert!(2.0 <= network.edges[64].delay && network.edges[64].delay <= 6.0);
    assert!(network.edges.iter().all(|e| e.delay > 0.0));
}

#[test]
fn drawn_noise_depends_on_the_seed_alone() {
    let strengths = |seed: u64| {
        let mut network = big_ring(seed);
        network.randomize_strength(0.25, SelectGroup::AllGroups);
        network.edges.iter().map(|e| e.strength).collect::<Vec<f64>>()
    };
    assert_eq!(strengths(3), strengths(3));
    assert_ne!(strengths(3), strengths(4));
}

#[test]
fn a_selection_of_no_group_draws_nothing() {
    let mut touched = big_ring(11);
    let mut untouched = big_ring(11);
    touched.randomize_strength(0.25, SelectGroup::SingleGroup(9));
    assert!(touched.edges.iter().zip(untouched.edges.iter()).all(|(a, b)| a.strength == b.strength));
    // the generator has not moved: both networks draw the same noise next
    touched.randomize_angle(0.25, SelectGroup::AllGroups);
    untouched.randomize_angle(0.25, SelectGroup::AllGroups);
    assert!(touched.edges.iter().zip(untouched.edges.iter()).all(|(a, b)| a.turn == b.turn));
}

#[test]
fn an_amount_of_one_or_more_is_refused_before_anything_is_drawn() {
    let mut refused = big_ring(5);
    let mut fresh = big_ring(5);
    assert_eq!(
        refused.randomize_delay_relative(1.0, SelectGroup::AllGroups),
        Err(NetworkError::RelativeAmountTooLarge)
    );
    assert!(refused.edges.iter().all(|e| e.delay == 8.0 || e.delay == 4.0));
    assert_eq!(refused.randomize_delay_relative(0.5, SelectGroup::AllGroups), Ok(()));
    assert_eq!(fresh.randomize_delay_relative(0.5, SelectGroup::AllGroups), Ok(()));
    assert!(refused.edges.iter().zip(fresh.edges.iter()).all(|(a, b)| a.delay == b.delay));
}
