use delaynet::simplify_timeseries::{
    distance_point_to_line_squared_2d, simplify_curves_individually,
    simplify_parametric_subset_curve,
};

#[test]
fn test_distance() {
    // distance of point `p` from line through `a` and `b`
    let a_1 = [0.0, 0.0];
    let b_1 = [1.0, 0.0];
    let p_1 = [1.0, 1.0];
    let squared_1: f64 = distance_point_to_line_squared_2d(a_1, b_1, p_1);
    assert_eq!(1.0, squared_1.sqrt());

    let a_2 = [0.0, 1.0];
    let b_2 = [1.0, 0.0];
    let p_2 = [1.0, 1.0];
    let squared_2: f64 = distance_point_to_line_squared_2d(a_2, b_2, p_2);
    assert_eq!((0.50_f64).sqrt() as f32, squared_2.sqrt() as f32);

    assert_eq!((0.50_f64) as f32, squared_2 as f32);
}

#[test]
fn squared_distances_are_exact_on_a_grid() {
    assert_eq!(distance_point_to_line_squared_2d([0.0, 0.0], [5.0, 0.0], [2.0, 5.0]), 25.0);
    assert_eq!(distance_point_to_line_squared_2d([0.0, 0.0], [0.0, 2.0], [-3.0, 7.0]), 9.0);
    assert_eq!(distance_point_to_line_squared_2d([1.0, 1.0], [3.0, 3.0], [2.0, 2.0]), 0.0);
    assert_eq!(distance_point_to_line_squared_2d([2.0, 5.0], [5.0, 0.0], [3.0, 0.0]), 100.0 / 34.0);
}

fn column(values: &[f64]) -> Vec<Vec<f64>> {
    values.iter().map(|v| vec![*v]).collect()
}

#[test]
fn a_spike_splits_the_curve() {
    let curves = column(&[0.0, 0.0, 5.0, 0.0, 0.0, 0.0]);
    let kept = simplify_curves_individually(1.0, 0.0, &curves, &0.1, 1);
    assert_eq!(kept, vec![vec![1, 3, 4]]);
    let kept = simplify_curves_individually(1.0, 0.0, &curves, &10.0, 1);
    assert_eq!(kept, vec![vec![2]]);
}

#[test]
fn a_straight_line_keeps_one_row() {
    let curves = column(&[0.0, 1.0, 2.0, 3.0, 4.0, 5.0, 6.0]);
    assert_eq!(simplify_curves_individually(0.5, 10.0, &curves, &0.001, 1), vec![vec![1]]);
    let two = column(&[3.0, 4.0]);
    assert_eq!(simplify_curves_individually(0.5, 10.0, &two, &0.001, 1), vec![vec![1]]);
    let three = column(&[3.0, 40.0, 5.0]);
    assert_eq!(simplify_curves_individually(0.5, 10.0, &three, &0.001, 1), vec![vec![1]]);
}

#[test]
fn every_curve_is_simplified_on_its_own() {
    let curves: Vec<Vec<f64>> = (0..9)
        .map(|i| {
            let t = i as f64;
            vec![t, if i == 4 { 8.0 } else { 0.0 }, (t - 4.0) * (t - 4.0)]
        })
        .collect();
    let kept = simplify_curves_individually(1.0, 0.0, &curves, &0.5, 3);
    assert_eq!(kept.len(), 3);
    assert_eq!(kept[0], vec![1]);
    assert!(kept[1].contains(&4) || kept[1].contains(&5));
    assert!(kept[2].len() > 2);
    for rows in &kept {
        assert!(rows.windows(2).all(|w| w[0] <= w[1]));
        assert!(rows.iter().all(|&r| 0 < r && r <= 8));
    }
    assert!(simplify_curves_individually(1.0, 0.0, &curves, &0.5, 0).is_empty());
}

#[test]
fn a_curve_drawn_against_another_column() {
    // a square: x goes 0, 1, 1, 0, 0 and y goes 0, 0, 1, 1, 0
    let curves: Vec<Vec<f64>> = vec![
        vec![0.0, 0.0],
        vec![1.0, 0.0],
        vec![1.0, 1.0],
        vec![0.0, 1.0],
        vec![0.5, 0.5],
        vec![0.0, 0.25],
    ];
    let tight = simplify_parametric_subset_curve(&curves, 0, 1, 0.01);
    assert!(tight.windows(2).all(|w| w[0] <= w[1]));
    assert!(tight.iter().all(|&r| 0 < r && r <= 5));
    assert!(tight.len() >= 3);
    let loose = simplify_parametric_subset_curve(&curves, 0, 1, 100.0);
    assert_eq!(loose.len(), 1);
}
