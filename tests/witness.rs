use geodist::error::GeodistError;
use geodist::positioned::{filter_points, position_points, Positioned};
use geodist::witness::{
    farthest_in, hausdorff_directed_from_nearest, hausdorff_directed_naive, hausdorff_naive,
    nearest_in_row,
    HausdorffDirectedWitness, HausdorffWitness,
};

fn key(meters: f64) -> u64 {
    meters.to_bits()
}

/// Planar stand-in for a metric: distance between integer points on a line.
fn rows_for(origins: &[Positioned<i64>], candidates: &[Positioned<i64>]) -> Vec<Vec<u64>> {
    origins
        .iter()
        .map(|o| {
            candidates
                .iter()
                .map(|c| key((o.point - c.point).abs() as f64))
                .collect()
        })
        .collect()
}

#[test]
fn key_order_matches_distance_order() {
    assert!(key(0.0) < key(1e-300));
    assert!(key(1.5) < key(2.0));
    assert!(key(111_195.0) < key(222_390.0));
}

#[test]
fn nearest_prefers_first_of_equal_keys() {
    assert_eq!(nearest_in_row(&vec![5, 3, 3, 7]), 1);
    assert_eq!(nearest_in_row(&vec![4]), 0);
    assert_eq!(nearest_in_row(&vec![9, 8, 7, 6]), 3);
}

#[test]
fn farthest_prefers_first_of_equal_keys() {
    assert_eq!(farthest_in(&vec![2, 9, 9]), 1);
    assert_eq!(farthest_in(&vec![0]), 0);
    assert_eq!(farthest_in(&vec![1, 2, 3]), 2);
}

#[test]
fn directed_scan_reports_origin_and_candidate() {
    // Origins at 0 and 2, one candidate at 0: the second origin is farthest.
    let a = position_points(&[0i64, 2]);
    let b = position_points(&[0i64]);
    let rows = rows_for(&a, &b);
    let w = hausdorff_directed_naive(&a, &b, &rows).unwrap();
    assert_eq!(w.distance_key(), key(2.0));
    assert_eq!(w.origin_index(), 1);
    assert_eq!(w.candidate_index(), 0);
}

#[test]
fn identical_sets_give_zero_key() {
    let a = position_points(&[3i64, 8, 1]);
    let rows = rows_for(&a, &a);
    let w = hausdorff_directed_naive(&a, &a, &rows).unwrap();
    assert_eq!(w.distance_key(), key(0.0));
}

#[test]
fn directed_distance_is_asymmetric_and_symmetric_takes_max() {
    let a = position_points(&[0i64, 2]);
    let b = position_points(&[0i64]);
    let ab = hausdorff_directed_naive(&a, &b, &rows_for(&a, &b)).unwrap();
    let ba = hausdorff_directed_naive(&b, &a, &rows_for(&b, &a)).unwrap();
    assert_eq!(ab.distance_key(), key(2.0));
    assert_eq!(ba.distance_key(), key(0.0));
    assert_ne!(ab.distance_key(), ba.distance_key());

    let sym = HausdorffWitness::new(ab, ba);
    assert_eq!(sym.distance_key(), key(2.0));
    assert_eq!(sym.a_to_b(), ab);
    assert_eq!(sym.b_to_a(), ba);
    let flipped = HausdorffWitness::new(ba, ab);
    assert_eq!(flipped.distance_key(), key(2.0));
}

#[test]
fn rejects_empty_sets() {
    let a = position_points(&[1i64]);
    let none: Vec<Positioned<i64>> = Vec::new();
    let rows: Vec<Vec<u64>> = vec![vec![]];
    assert_eq!(
        hausdorff_directed_naive(&a, &none, &rows),
        Err(GeodistError::EmptyPointSet)
    );
    let no_rows: Vec<Vec<u64>> = Vec::new();
    assert_eq!(
        hausdorff_directed_naive(&none, &a, &no_rows),
        Err(GeodistError::EmptyPointSet)
    );
    assert_eq!(
        hausdorff_directed_from_nearest(&Vec::new()),
        Err(GeodistError::EmptyPointSet)
    );
}

#[test]
fn nearest_lists_agree_with_all_pairs_scan() {
    // Sizes straddle the strategy threshold; both paths must agree.
    for (n, m) in [(30usize, 35usize), (33, 121), (64, 64)] {
        let a: Vec<i64> = (0..n as i64).map(|i| (i * 37) % 101).collect();
        let b: Vec<i64> = (0..m as i64).map(|i| (i * 53) % 97 + 3).collect();
        let pa = position_points(&a);
        let pb = position_points(&b);
        let rows = rows_for(&pa, &pb);
        let naive = hausdorff_directed_naive(&pa, &pb, &rows).unwrap();

        let nearest: Vec<HausdorffDirectedWitness> = pa
            .iter()
            .zip(rows.iter())
            .map(|(o, row)| {
                let j = nearest_in_row(row);
                HausdorffDirectedWitness {
                    distance_key: row[j],
                    origin_index: o.index,
                    candidate_index: pb[j].index,
                }
            })
            .collect();
        let indexed = hausdorff_directed_from_nearest(&nearest).unwrap();
        assert_eq!(naive, indexed);
    }
}

#[test]
fn clipping_keeps_original_indices() {
    let a = [50i64, 10, 60, 12];
    let b = [90i64, 11];
    let pa = filter_points(&a, &vec![false, true, false, true]);
    let pb = filter_points(&b, &vec![false, true]);
    assert_eq!(pa.iter().map(|p| p.index).collect::<Vec<_>>(), vec![1, 3]);
    assert_eq!(pb.iter().map(|p| p.index).collect::<Vec<_>>(), vec![1]);
    let w = hausdorff_directed_naive(&pa, &pb, &rows_for(&pa, &pb)).unwrap();
    assert_eq!(w.origin_index(), 1);
    assert_eq!(w.candidate_index(), 1);
    assert_eq!(w.distance_key(), key(1.0));
}

#[test]
fn positions_follow_input_order() {
    let p = position_points(&['x', 'y']);
    assert_eq!(p[0], Positioned { point: 'x', index: 0 });
    assert_eq!(p[1], Positioned { point: 'y', index: 1 });
}

#[test]
fn symmetric_scan_evaluates_both_directions() {
    let a = position_points(&[0i64, 2]);
    let b = position_points(&[0i64, 7]);
    let w = hausdorff_naive(&a, &b, &rows_for(&a, &b), &rows_for(&b, &a)).unwrap();
    // a -> b: origin 2 is 2 away from candidate 0.
    assert_eq!(w.a_to_b().distance_key(), key(2.0));
    assert_eq!(w.a_to_b().origin_index(), 1);
    assert_eq!(w.a_to_b().candidate_index(), 0);
    // b -> a: origin 7 is 5 away from candidate 2.
    assert_eq!(w.b_to_a().distance_key(), key(5.0));
    assert_eq!(w.b_to_a().origin_index(), 1);
    assert_eq!(w.b_to_a().candidate_index(), 1);
    assert_eq!(w.distance_key(), key(5.0));

    let none: Vec<Positioned<i64>> = Vec::new();
    assert_eq!(
        hausdorff_naive(&a, &none, &vec![vec![], vec![]], &Vec::new()),
        Err(GeodistError::EmptyPointSet)
    );
}

#[test]
fn clipped_directed_preserves_original_indices() {
    // (latitude, longitude); only the first point of `a` lies in the box.
    let inside = (0.0f64, 0.0f64);
    let outside = (10.0f64, 10.0f64);
    let in_box = |p: &(f64, f64)| p.0 >= -1.0 && p.0 <= 1.0 && p.1 >= -1.0 && p.1 <= 1.0;
    let a = [inside, outside];
    let b = [inside];
    let pa = filter_points(&a, &a.iter().map(in_box).collect());
    let pb = filter_points(&b, &b.iter().map(in_box).collect());
    let rows: Vec<Vec<u64>> = pa
        .iter()
        .map(|o| {
            pb.iter()
                .map(|c| key(((o.point.0 - c.point.0).powi(2) + (o.point.1 - c.point.1).powi(2)).sqrt()))
                .collect()
        })
        .collect();
    let witness = hausdorff_directed_naive(&pa, &pb, &rows).unwrap();
    assert_eq!(witness.origin_index(), 0);
    assert_eq!(witness.candidate_index(), 0);
}
