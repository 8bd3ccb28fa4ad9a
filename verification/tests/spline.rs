use ullis::kan::KanError;
use ullis::spline::{
    check_insert, check_regrid, concat_spline, hottest_gap, insert_between, spline_part, tile_end,
    tile_tokens, SplineIndex,
};

fn bits(values: &[f32]) -> Vec<u32> {
    values.iter().map(|v| v.to_bits()).collect()
}

#[test]
fn a_knot_is_inserted_where_the_energy_is() {
    let gap = hottest_gap(&bits(&[0.1, 2.0, 2.5]));
    assert_eq!(gap, 2);
    let centers = bits(&[-2.0, -1.0, 0.0, 1.0]);
    let grown = insert_between(&centers, 1, (-0.5_f32).to_bits());
    assert_eq!(grown, bits(&[-2.0, -1.0, -0.5, 0.0, 1.0]));
    for pair in grown.windows(2) {
        assert!(f32::from_bits(pair[0]) < f32::from_bits(pair[1]));
    }
}

#[test]
fn each_grid_error_has_its_cause() {
    assert_eq!(check_regrid(false, 1, 5, 5), Ok(()));
    assert_eq!(check_regrid(true, 1, 5, 5), Err(KanError::PackedGrid));
    assert_eq!(check_regrid(false, 3, 5, 5), Err(KanError::FrozenGrid));
    assert_eq!(check_insert(16, 17), Err(KanError::GridCap));
    assert_eq!(check_insert(4, 4), Ok(()));
}

#[test]
fn parts_survive_joining() {
    let shared = vec![1, 2, 3, 4];
    let routed = vec![5, 6, 7, 8];
    let full = concat_spline(&shared, Some(&routed), 1, 2, 1, 2, 3);
    assert_eq!(full, vec![1, 2, 7, 3, 4, 8]);
    assert_eq!(spline_part(&full, 2, 3, 0, 2), shared);
    assert_eq!(spline_part(&full, 2, 3, 2, 1), vec![7, 8]);
}

#[test]
fn coefficients_have_their_own_places() {
    let index = SplineIndex::new(2, 2, 2, 1, 2).unwrap();
    assert_eq!(index.g, 3);
    assert_eq!(index.bump_at(4, 3, 1, 2), 23);
    assert!(SplineIndex::new(usize::MAX, 2, 1, 1, 1).is_none());
    assert!(SplineIndex::new(1, 1, usize::MAX, 1, 1).is_none());
    assert!(SplineIndex::new(2, 2, 2, usize::MAX / 4, 2).is_none());
    assert_eq!(index.base_at(1, 0), 2);
    let mut seen = Vec::new();
    for o in 0..2 {
        for i in 0..2 {
            for gi in 0..2 {
                let at = index.shared_at(o, i, gi);
                assert!(!seen.contains(&at));
                seen.push(at);
            }
        }
    }
    assert_ne!(index.routed_at(0, 1, 1, 0), index.routed_at(1, 1, 1, 0));
}

#[test]
fn tiles_cover_the_tokens() {
    let tile = tile_tokens(100, 4, 4, 50).unwrap();
    let mut from = 0;
    let mut covered = 0;
    while from < 50 {
        let to = tile_end(from, tile, 50);
        covered += to - from;
        from = to;
    }
    assert_eq!(covered, 50);
    assert_eq!(tile_tokens(1, 4, 4, 50), Err(KanError::BumpTile));
}
