use ullis::accelerate::{BwdPartialLayout, MobKanSpec};
use ullis::partials::{Fold, Gradient, InTile, Run};

fn tile() -> InTile {
    let spec = MobKanSpec::new(
        20,
        8,
        40,
        4,
        3,
        1,
        2,
        3,
        1,
        false,
        false,
        1.5_f32.to_bits(),
        0.7_f32.to_bits(),
    )
    .unwrap();
    InTile {
        spec,
        layout: BwdPartialLayout::from_spec(&spec),
        in0: 0,
        tin: 8,
    }
}

fn overlap(a: &Fold, b: &Fold) -> bool {
    a.from < b.from + b.len && b.from < a.from + a.len
}

#[test]
fn no_partial_is_folded_twice() {
    let t = tile();
    let folds = t.reduce_bwd_partials(t.layout.floats).unwrap();
    let mix = t.acc_dg_partials();
    let all: Vec<Fold> = folds.iter().chain(&mix).copied().collect();
    for i in 0..all.len() {
        assert!(all[i].from + all[i].len <= t.layout.floats);
        for j in 0..i {
            assert!(!overlap(&all[i], &all[j]));
        }
    }
    // Two token tiles by two output tiles; 40 outputs give two rows each.
    let base = folds.iter().filter(|f| f.gradient == Gradient::Base).count();
    assert_eq!(base, 2 * 40);
    let inputs = folds.iter().filter(|f| f.gradient == Gradient::Input).count();
    assert_eq!(inputs, 2 * 20);
    assert_eq!(mix.len(), 2 * 20 * 32);
}

#[test]
fn ones_fold_into_the_number_of_groups() {
    let t = tile();
    let part = vec![1.0_f32; t.layout.floats];
    let mut base = vec![0.0_f32; t.spec.w_base_len()];
    let mut centers = vec![0.0_f32; t.spec.centers_len()];
    for fold in t.reduce_bwd_partials(part.len()).unwrap() {
        let target = match fold.gradient {
            Gradient::Base => &mut base,
            Gradient::Centers => &mut centers,
            _ => continue,
        };
        for i in 0..fold.len {
            target[fold.to + i] += part[fold.from + i];
        }
    }
    assert!(base.iter().all(|&v| v == 2.0));
    assert!(centers.iter().all(|&v| v == 4.0));
}

#[test]
fn short_partials_are_refused() {
    let t = tile();
    let error = t.reduce_bwd_partials(t.layout.floats - 1).unwrap_err();
    assert_eq!(error.expected, t.layout.floats);
    assert_eq!(error.found, t.layout.floats - 1);
}

#[test]
fn a_run_is_folded_where_it_belongs() {
    let t = tile();
    let fold = t.fold_run(Run::Base { nt: 1, ot: 1, lo: 2 });
    assert_eq!(fold.from, (3 * 32 + 2) * 8);
    assert_eq!(fold.to, 34 * 8);
    assert_eq!(fold.len, 8);
}
