use hivesim::utils::{
    generate_path, manhat_distance, spaced_internals, u64_dec, uclid_distance, Neighbors, Path,
};

#[test]
fn decimal_rendering() {
    assert_eq!(u64_dec(0), "0");
    assert_eq!(u64_dec(7), "7");
    assert_eq!(u64_dec(10), "10");
    assert_eq!(u64_dec(12345), "12345");
    assert_eq!(u64_dec(u64::MAX), "18446744073709551615");
}

#[test]
fn neighbors_chunks() {
    let data = [1, 2, 3, 4, 5];
    let mut it = Neighbors::new(&data, 2);
    assert_eq!(it.next(), Some(&[1, 2][..]));
    assert_eq!(it.next(), Some(&[3, 4][..]));
    assert_eq!(it.next(), Some(&[5][..]));
    assert_eq!(it.next(), None);
}

#[test]
fn test_path_start_end_same() {
    let start_p = (0, 0);
    let end_p = (0, 0);
    let result_p = generate_path(start_p, end_p);
    assert_eq!(result_p.path_points.len(), 0);
}

#[test]
fn test_interval_calc() {
    let expected_res = vec![(0, 10), (10, 20), (20, 30)];
    assert_eq!(spaced_internals(10, 3), expected_res);
}

#[test]
fn test_path_step_distance_one() {
    let result_p = generate_path((0, 0), (10, 0));
    for chunk in result_p.path_points.chunks(2) {
        assert_eq!(
            manhat_distance(chunk[0].0, chunk[0].1, chunk[1].0, chunk[1].1),
            1
        );
    }
    assert_eq!(result_p.path_points.len(), 10);
}

#[test]
fn test_path_step_distance_one_angles() {
    let result_p = generate_path((0, 0), (10, 10));
    for chunk in result_p.path_points.chunks(2) {
        assert_eq!(
            manhat_distance(chunk[0].0, chunk[0].1, chunk[1].0, chunk[1].1),
            1
        );
    }
}

#[test]
fn test_path_no_repeat() {
    let mut result_p = generate_path((0, 0), (10, 3));
    let mut p = result_p.path_points.pop();
    while p.is_some() {
        for p2 in result_p.path_points.iter() {
            let k = p.unwrap();
            assert_eq!(k.0 == p2.0 && k.1 == p2.1, false);
        }
        p = result_p.path_points.pop();
    }
}

#[test]
fn test_path_reverse_no_neighbor_repeat() {
    let mut result_p = generate_path((0, 0), (10, 3));
    result_p.add_return_path();
    for chunk in result_p.path_points.windows(2) {
        if chunk.len() == 2 {
            assert_ne!(chunk[0], chunk[1]);
        }
    }
}

#[test]
fn manhat_dist() {
    assert_eq!(2, manhat_distance(0, 0, 1, 1));
}

#[test]
fn uclid_distance_values() {
    assert_eq!(uclid_distance(0, 0, 3, 4), 5);
    assert_eq!(uclid_distance(3, 4, 0, 0), 5);
    assert_eq!(uclid_distance(10, 10, 10, 10), 0);
    // The distance between (0, 0) and (1, 1) is sqrt(2), rounded down.
    assert_eq!(uclid_distance(0, 0, 1, 1), 1);
}

#[test]
fn return_path_walks_back() {
    let mut p = Path::new();
    p.path_points.push((1, 0));
    p.path_points.push((2, 0));
    p.path_points.push((3, 0));
    p.add_return_path();
    assert_eq!(p.path_points, vec![(1, 0), (2, 0), (3, 0), (2, 0), (1, 0)]);
}
