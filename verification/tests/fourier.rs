use ullis::fourier::{mirror, mirror_swaps};

#[test]
fn bits_are_mirrored() {
    assert_eq!(mirror(0b001, 3), 0b100);
    assert_eq!(mirror(0b110, 3), 0b011);
    assert_eq!(mirror(0, 0), 0);
    for i in 0..64 {
        assert_eq!(mirror(mirror(i, 6), 6), i);
    }
}

#[test]
fn swaps_put_the_places_into_mirrored_order() {
    assert_eq!(mirror_swaps(3), vec![(1, 4), (3, 6)]);
    let mut places: Vec<usize> = (0..32).collect();
    for (i, j) in mirror_swaps(5) {
        places.swap(i, j);
    }
    for (i, &was) in places.iter().enumerate() {
        assert_eq!(was, mirror(i, 5));
    }
}
