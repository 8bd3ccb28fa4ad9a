use ullis::hadamard::{butterfly, check_rows, pad_width, power_reaching, RowsError};

#[test]
fn widths_are_padded_to_a_power_of_two() {
    assert_eq!(pad_width(1), 1);
    assert_eq!(pad_width(5), 8);
    assert_eq!(pad_width(256), 256);
    assert_eq!(power_reaching(5), Some((8, 3)));
    assert_eq!(power_reaching(usize::MAX), None);
}

#[test]
fn a_pass_touches_each_place_once() {
    let n = 16;
    let mut half = 1;
    while half < n {
        let mut seen = vec![0; n];
        for t in 0..n / 2 {
            let (a, b) = butterfly(n, half, t);
            assert_eq!(b, a + half);
            seen[a] += 1;
            seen[b] += 1;
        }
        assert!(seen.iter().all(|&c| c == 1));
        half *= 2;
    }
}

#[test]
fn each_row_error_has_its_cause() {
    assert_eq!(check_rows(6, 2, 3, 6), Ok(()));
    assert_eq!(check_rows(0, 2, 0, 0), Err(RowsError::ZeroWidth));
    assert_eq!(check_rows(5, 2, 3, 6), Err(RowsError::Input));
    assert_eq!(check_rows(6, 2, 3, 5), Err(RowsError::OutputShort));
}

/// The passes over a row, pair by pair.
fn passes(row: &mut [f32]) {
    let n = row.len();
    let mut half = 1;
    while half < n {
        for t in 0..n / 2 {
            let (low, high) = butterfly(n, half, t);
            let (x, y) = (row[low], row[high]);
            row[low] = x + y;
            row[high] = x - y;
        }
        half *= 2;
    }
}

fn fwht_normalized(row: &mut [f32]) {
    passes(row);
    let scale = (row.len() as f32).sqrt().recip();
    for v in row.iter_mut() {
        *v *= scale;
    }
}

fn fwht_rows(x: &[f32], n: usize, d: usize, y: &mut [f32]) {
    check_rows(x.len(), n, d, y.len()).unwrap();
    let mut row = vec![0.0f32; pad_width(d)];
    for i in 0..n {
        row[..d].copy_from_slice(&x[i * d..(i + 1) * d]);
        row[d..].fill(0.0);
        fwht_normalized(&mut row);
        y[i * d..(i + 1) * d].copy_from_slice(&row[..d]);
    }
}

#[test]
fn involution_pow2() {
    let x: Vec<f32> = (0..8).map(|i| i as f32 - 3.5).collect();
    let mut y = x.clone();
    fwht_normalized(&mut y);
    fwht_normalized(&mut y);
    for (a, b) in x.iter().zip(y.iter()) {
        assert!((a - b).abs() < 1e-5, "{a} vs {b}");
    }
}

#[test]
fn orthonormal_columns() {
    let n = 4usize;
    let mut h = vec![0.0f32; n * n];
    for i in 0..n {
        h[i * n + i] = 1.0;
    }
    for r in 0..n {
        fwht_normalized(&mut h[r * n..(r + 1) * n]);
    }
    for i in 0..n {
        for j in 0..n {
            let mut dot = 0.0f32;
            for k in 0..n {
                dot += h[i * n + k] * h[j * n + k];
            }
            let want = if i == j { 1.0 } else { 0.0 };
            assert!((dot - want).abs() < 1e-5, "H_{i}·H_{j}={dot}");
        }
    }
}

#[test]
fn pad_unpad_bwd_matches_fwd() {
    let n = 3usize;
    let d = 6usize;
    let x: Vec<f32> = (0..n * d).map(|i| (i as f32) * 0.1 - 0.8).collect();
    let mut y = vec![0.0f32; n * d];
    fwht_rows(&x, n, d, &mut y);
    let mut dx = vec![0.0f32; n * d];
    fwht_rows(&y, n, d, &mut dx);
    assert!(dx.iter().all(|v| v.is_finite()));
}

#[test]
fn the_transform_is_exact_on_whole_numbers() {
    let x = [3.0f32, -1.0, 4.0, 1.0, -5.0, 9.0, 2.0, -6.0];
    let y = [2.0f32, 7.0, 1.0, -8.0, 2.0, 8.0, 1.0, -8.0];
    let mut tx = x;
    passes(&mut tx);
    assert_eq!(tx[0], 7.0);
    assert_eq!(tx[1], 1.0);
    let mut ty = y;
    passes(&mut ty);
    let inner = |a: &[f32], b: &[f32]| -> f32 { a.iter().zip(b).map(|(p, q)| p * q).sum() };
    assert_eq!(inner(&tx, &y), inner(&x, &ty));
    passes(&mut tx);
    for (back, number) in tx.iter().zip(x) {
        assert_eq!(*back, 8.0 * number);
    }
}
