use std::mem::size_of;
use ullis::accelerate::{
    apply_topk_gates, check_fused, check_fused_bwd, check_gemm, i32_dim, u32_dim, BackwardRun,
    BwdPartialLayout, FusedError, FusedLens, GemmError, MobKanSpec, SpecError, MAX_IN, N_TILE,
    OUT_TILE, TG_SCRATCH_FLOATS, TILE_IN,
};

fn bits(values: &[f32]) -> Vec<u32> {
    values.iter().map(|v| v.to_bits()).collect()
}

fn floats(values: &[u32]) -> Vec<f32> {
    values.iter().map(|v| f32::from_bits(*v)).collect()
}

fn spec(n: usize, d: usize, out: usize, g: usize, gs: usize, gr: usize) -> MobKanSpec {
    MobKanSpec::new(
        n,
        d,
        out,
        g,
        gs,
        gr,
        3,
        gs,
        1,
        false,
        false,
        1.5_f32.to_bits(),
        0.7_f32.to_bits(),
    )
    .unwrap()
}

#[test]
fn apply_topk_keeps_k_and_zeros_rest() {
    let mut g = bits(&[0.1f32, 0.7, 0.2, 0.5, 0.1, 0.4]);
    apply_topk_gates(&mut g, 2, 3, 1);
    let g = floats(&g);
    assert!((g[1] - 0.7).abs() < 1e-6);
    assert_eq!(g[0], 0.0);
    assert_eq!(g[2], 0.0);
    assert!((g[3] - 0.5).abs() < 1e-6);
    assert_eq!(g[4], 0.0);
    assert_eq!(g[5], 0.0);
    let mut dense = bits(&[0.1f32, 0.7, 0.2]);
    let orig = dense.clone();
    apply_topk_gates(&mut dense, 1, 3, 0);
    assert_eq!(dense, orig);
}

#[test]
fn spec_layout_is_16_byte_friendly() {
    assert_eq!(size_of::<MobKanSpec>(), 80);
    assert_eq!(size_of::<MobKanSpec>() % 16, 0);
}

#[test]
fn bwd_n_tile_keeps_occupancy_at_d256_train_shape() {
    let spec = spec(384, 256, 256, 12, 8, 4);
    assert_eq!(spec.n_tile, N_TILE);
    assert!(
        spec.n_tiles() > 1,
        "n_tiles={} (need occupancy)",
        spec.n_tiles()
    );
}

#[test]
fn spec_lifts_in_f_above_tile_cap() {
    let spec = spec(2, 512, 64, 4, 3, 1);
    assert_eq!(spec.in_f, 512);
    assert_eq!(spec.tile_in, TILE_IN);
    assert!(spec.in_f > MAX_IN);
    assert_eq!(spec.out_tile, OUT_TILE);
    assert!(spec.out_f > spec.out_tile);
    let extra = 256 + 256 * 4 + 3 + 256 + 3 * 256;
    let par = spec.bwd_tok_par() as usize;
    assert_eq!(spec.scratch_floats_fwd(), extra + spec.out_us());
    assert_eq!(
        spec.scratch_floats(),
        extra + spec.out_us() + extra * par.saturating_sub(1)
    );
    assert!(spec.scratch_floats() <= TG_SCRATCH_FLOATS as usize);
}

#[test]
fn bwd_tok_par_packs_multiple_tokens_at_d256_g4() {
    let spec = spec(384, 256, 256, 4, 3, 1);
    assert!(
        spec.bwd_tok_par() >= 2,
        "tok_par={} (want ≥2 at G=4 so tokens are not fully serial)",
        spec.bwd_tok_par()
    );
    assert!(
        spec.scratch_floats_fwd() < spec.scratch_floats(),
        "fwd scratch must stay 1-token so occupancy does not collapse"
    );
}

#[test]
fn bwd_partial_compact_stays_small_at_d256_g12() {
    let spec = spec(384, 256, 256, 12, 8, 4);
    let layout = BwdPartialLayout::from_spec(&spec);
    let mb = (layout.floats * 4) as f64 / (1024.0 * 1024.0);
    assert!(
        mb < 24.0,
        "compact fused-bwd slab {mb:.1} MB (want < 24 at d=256 G=12 n=384)"
    );
}

#[test]
fn each_descriptor_error_has_its_cause() {
    let base = spec(4, 8, 8, 4, 3, 1);
    let cases = [
        (MobKanSpec { n: 0, ..base }, SpecError::NoTokens),
        (MobKanSpec { in_f: 0, ..base }, SpecError::NoFeatures),
        (MobKanSpec { g: 17, ..base }, SpecError::BumpCount),
        (MobKanSpec { k: 5, ..base }, SpecError::TooManyExperts),
        (MobKanSpec { gs: 0, ..base }, SpecError::NoSharedBumps),
        (MobKanSpec { gr: 2, ..base }, SpecError::BumpSplit),
        (MobKanSpec { g_use: 4, ..base }, SpecError::BumpUse),
        (MobKanSpec { k: 0, ..base }, SpecError::RoutedWithoutExperts),
        (MobKanSpec { inv_width: 0, ..base }, SpecError::BumpWidth),
        (MobKanSpec { tile_in: 9, ..base }, SpecError::TileIn),
        (MobKanSpec { out_tile: 0, ..base }, SpecError::TileOut),
        (MobKanSpec { n_tile: 5, ..base }, SpecError::TileTokens),
        (MobKanSpec { topk: 3, ..base }, SpecError::TopK),
        (MobKanSpec { kan_factor: 0, ..base }, SpecError::Factor),
    ];
    for (spec, error) in cases {
        assert_eq!(spec.validate(), Err(error));
    }
    assert_eq!(base.with_kan_factor(2), Err(SpecError::Factor));
    assert_eq!(base.with_topk(2).unwrap().topk, 2);
    let one = MobKanSpec { k: 1, ..base };
    assert_eq!(one.with_topk(2), Err(SpecError::TopKAboveExperts));
    let wide = MobKanSpec { out_f: 9000, ..base };
    assert_eq!(wide.validate(), Err(SpecError::Scratch));
    assert_eq!(base.force_tiles(7, 5, 3).unwrap().tile_in, 7);
    assert_eq!(u32_dim(7), Ok(7));
    assert_eq!(i32_dim(usize::MAX), Err(SpecError::DimensionTooLarge));
}

#[test]
fn lengths_follow_the_descriptor() {
    let s = spec(5, 32, 24, 4, 3, 1);
    assert_eq!((s.x_len(), s.y_len()), (160, 120));
    assert_eq!((s.w_base_len(), s.w_shared_len()), (768, 96));
    assert_eq!((s.w_routed_len(), s.router_len()), (96, 96));
    assert_eq!((s.centers_len(), s.scale_vec_len()), (4, 24));
    assert_eq!((s.scale_shared_len(), s.scale_routed_len()), (32, 96));
    assert_eq!(
        (s.n_us(), s.in_us(), s.out_us(), s.g_us(), s.gs_us(), s.gr_us()),
        (5, 32, 24, 4, 3, 1)
    );
    assert_eq!((s.k_us(), s.g_use_us(), s.topk_us()), (3, 3, 0));
    assert_eq!((s.tile_in_us(), s.out_tile_us(), s.n_tile_us()), (32, 24, 5));
    assert!(s.dense_router() && s.shared_edge() && !s.quantize() && !s.use_codes());
    assert!(!s.mask_routed());
}

#[test]
fn the_fused_layer_checks_its_tensors() {
    let s = spec(5, 32, 24, 4, 3, 1);
    let good = FusedLens {
        x: 160,
        y: 120,
        w_base: 768,
        w_shared: 96,
        centers: 4,
        inv_widths: 4,
        scale_base: 24,
        scale_shared: 32,
    };
    assert_eq!(check_fused(&s, &good), Ok(()));
    let cases = [
        (
            FusedLens { x: 1, ..good },
            FusedError::Input {
                found: 1,
                expected: 160,
            },
        ),
        (
            FusedLens { y: 1, ..good },
            FusedError::Output {
                found: 1,
                expected: 120,
            },
        ),
        (FusedLens { w_base: 1, ..good }, FusedError::BaseWeights),
        (FusedLens { w_shared: 1, ..good }, FusedError::SharedWeights),
        (FusedLens { centers: 1, ..good }, FusedError::Centers),
        (
            FusedLens {
                inv_widths: 2,
                ..good
            },
            FusedError::InverseWidths {
                found: 2,
                expected: 4,
            },
        ),
        (FusedLens { scale_shared: 1, ..good }, FusedError::Scales),
    ];
    for (lens, error) in cases {
        assert_eq!(check_fused(&s, &lens), Err(error));
    }
    assert_eq!(check_fused_bwd(&s, 160, 120, 160), Ok(BackwardRun::Run));
    assert_eq!(check_fused_bwd(&s, 160, 120, 159), Err(FusedError::BackwardInput));
    assert_eq!(check_fused_bwd(&s, 1, 120, 160), Err(FusedError::BackwardShape));
    let packed = MobKanSpec { packed: 1, ..s };
    assert_eq!(check_fused_bwd(&packed, 1, 1, 1), Ok(BackwardRun::Nothing));
}

#[test]
fn threadgroups_have_their_own_numbers() {
    let s = spec(40, 64, 100, 4, 3, 1);
    let layout = BwdPartialLayout::from_spec(&s);
    assert_eq!((layout.n_tiles, layout.out_tiles), (3, 4));
    let mut seen = Vec::new();
    for nt in 0..layout.n_tiles {
        for ot in 0..layout.out_tiles {
            let tg = layout.tg_index(nt, ot);
            assert!(!seen.contains(&tg));
            seen.push(tg);
        }
    }
    assert_eq!(seen.len(), 12);
}

#[test]
fn products_are_checked_before_they_are_run() {
    assert_eq!(check_gemm(2, 2, 2, 4, 4, 4), Ok(true));
    assert_eq!(check_gemm(0, 2, 2, 0, 4, 0), Ok(false));
    assert_eq!(check_gemm(2, 2, 2, 3, 4, 4), Err(GemmError::ShortA));
    assert_eq!(check_gemm(2, 2, 2, 4, 3, 4), Err(GemmError::ShortB));
    assert_eq!(check_gemm(2, 2, 2, 4, 4, 3), Err(GemmError::ShortC));
}
