use ullis::accelerate::MobKanSpec;
use ullis::device::{
    alloc_shared_bytes, alloc_shared_f32_buffer, check_transfer, device_name, fresh_len,
    fused_source, reusable,
    prefer_host_bwd, setup_device, setup_device_with, synchronize, threadgroup_width,
    wrap_shared_bytes_no_copy, Backend, DeviceError, DeviceFlags, PageSlab, SovereignDevice, PAGE,
};

fn tiny_spec() -> MobKanSpec {
    MobKanSpec::new(
        3,
        4,
        2,
        4,
        3,
        1,
        3,
        3,
        1,
        false,
        false,
        1.5_f32.to_bits(),
        0.7_f32.to_bits(),
    )
    .unwrap()
}

#[test]
fn cpu_device_opens() {
    let d = SovereignDevice::open(false, None).unwrap();
    assert_eq!(d.backend(), Backend::Cpu);
    assert!(!d.is_metal());
}

#[test]
fn fused_msl_compiles_on_apple_silicon() {
    let d = SovereignDevice::open(true, Some("Apple M1".to_string())).unwrap();
    assert!(
        d.is_metal(),
        "Metal fused pipeline must compile on macOS; got {}",
        d.name()
    );
    assert!(!d.name().is_empty());
    let d = SovereignDevice::open(true, None).unwrap();
    assert!(!d.is_metal());
}

#[test]
fn a_found_gpu_is_used_when_it_is_wanted() {
    let flags = DeviceFlags::default();
    let gpu = SovereignDevice::open_with(true, flags, Some("Apple M1".to_string())).unwrap();
    assert_eq!(gpu.backend(), Backend::Metal);
    assert!(gpu.is_metal());
    assert_eq!(gpu.name(), "Apple M1");
    assert_eq!(device_name(&gpu), "metal");
    assert!(synchronize(&gpu).is_ok());
    assert_eq!(gpu.mtl_device(), Some("Apple M1"));
    assert_eq!(gpu.dummy_buffer(), 32);
    let unwanted = SovereignDevice::open_with(false, flags, Some("Apple M1".to_string())).unwrap();
    assert_eq!(unwanted.backend(), Backend::Cpu);
    let none = SovereignDevice::open_with(true, flags, None).unwrap();
    assert_eq!(none.backend(), Backend::Cpu);
    assert!(none.mtl_device().is_none());
    let set = setup_device_with(
        false,
        DeviceFlags {
            fused_grad_ckpt: true,
        },
        None,
    )
    .unwrap();
    assert!(set.fused_grad_ckpt());
    let gpu = Some("Apple M1".to_string());
    assert!(!setup_device(false, gpu.clone()).unwrap().is_metal());
    assert!(setup_device(true, gpu).unwrap().is_metal());
}

#[test]
fn a_cpu_launches_nothing() {
    let cpu = SovereignDevice::open(false, None).unwrap();
    let spec = tiny_spec();
    assert!(matches!(
        cpu.dispatch_fused_mob_kan(&spec, 32, 1024),
        Err(DeviceError::OnCpu)
    ));
    assert!(matches!(
        cpu.dispatch_fused_mob_kan_bwd(&spec, 0, 4, 32, 1024),
        Err(DeviceError::OnCpu)
    ));
    assert!(matches!(
        cpu.dispatch_i8_embed_lookup(1, 1, 1, 32),
        Err(DeviceError::OnCpu)
    ));
}

#[test]
fn a_launch_stays_within_the_group_limit() {
    let gpu =
        SovereignDevice::open(true, Some("Apple M1".to_string())).unwrap();
    let spec = tiny_spec();
    let launch = gpu.dispatch_fused_mob_kan(&spec, 32, 1024).unwrap();
    assert_eq!(launch.groups.0, 3);
    assert!(launch.threads.0 * launch.threads.1 <= 1024);
    let (launch, bwd) = gpu.dispatch_fused_mob_kan_bwd(&spec, 0, 4, 32, 1024).unwrap();
    assert!(launch.threads.0 * launch.threads.1 <= 1024);
    assert_eq!((bwd.n_tiles, bwd.out_tiles, bwd.tin), (1, 1, 4));
    let mut broken = spec;
    broken.g = 0;
    assert!(matches!(
        gpu.dispatch_fused_mob_kan(&broken, 32, 1024),
        Err(DeviceError::Spec(_))
    ));
    let (launch, gemm) = gpu.dispatch_i8_tied_logits(2, 16, 100, 32).unwrap();
    assert_eq!((gemm.n, gemm.d, gemm.v), (2, 16, 100));
    assert!(launch.threads.0 > 0);
    assert!(threadgroup_width(32, 1024, 256, 32) <= 1024);
}

#[test]
fn buffers_are_never_empty_and_transfers_never_overrun() {
    assert_eq!(alloc_shared_f32_buffer(3), 16);
    assert_eq!(alloc_shared_f32_buffer(5), 20);
    assert_eq!(alloc_shared_bytes(0), 16);
    assert_eq!(alloc_shared_bytes(50), 50);
    assert!(check_transfer(4, 4, 16).is_ok());
    assert!(matches!(
        check_transfer(5, 4, 16),
        Err(DeviceError::Overrun)
    ));
    assert!(wrap_shared_bytes_no_copy(2 * PAGE).is_ok());
    assert!(matches!(
        wrap_shared_bytes_no_copy(2 * PAGE + 1),
        Err(DeviceError::Misaligned)
    ));
}

#[test]
fn a_slab_is_whole_pages_of_zeros() {
    assert_eq!(reusable(&[8, 64, 128], 32), Some(1));
    assert_eq!(reusable(&[8], 32), None);
    assert_eq!(fresh_len(33), 64);
    let mut slab = PageSlab::new(100).unwrap();
    assert_eq!(slab.len() % PAGE, 0);
    assert!(!slab.is_empty());
    assert!(slab.as_bytes().iter().all(|&b| b == 0));
    slab.u32_at_mut(8, &[0x0102_0304, 7]).unwrap();
    assert_eq!(slab.u32_at(8, 2).unwrap(), vec![0x0102_0304, 7]);
    assert_eq!(slab.u32_at(0, 2).unwrap(), vec![0, 0]);
    assert_eq!(slab.as_bytes()[8..12], [4, 3, 2, 1]);
    assert!(slab.u32_at(slab.len(), 1).is_err());
    assert!(slab.u32_at(2, 1).is_err());
    assert_eq!(slab.u16_at(2).unwrap(), vec![0, 0]);
    assert_eq!(slab.f32_at(3).unwrap()[2], 0x0102_0304);
    slab.u16_at_mut(&[5, 6]).unwrap();
    assert_eq!(slab.u16_at(3).unwrap(), vec![5, 6, 0]);
    slab.f32_at_mut(&[1.0f32.to_bits()]).unwrap();
    assert_eq!(slab.f32_at(3).unwrap(), vec![0x3f80_0000, 0, 0x0102_0304]);
    slab.as_bytes_mut()[0] = 9;
    assert_eq!(slab.as_bytes()[0], 9);
    let room = slab.len();
    assert!(slab.u16_at_mut(&vec![0; room]).is_err());
    assert!(slab.f32_at_mut(&vec![0; room]).is_err());
    assert!(slab.u32_at_mut(room, &[1]).is_err());
}

#[test]
fn the_kernel_source_follows_the_flags() {
    let on = fused_source(
        DeviceFlags {
            fused_grad_ckpt: true,
        },
        true,
        "BODY",
    );
    let off = fused_source(
        DeviceFlags {
            fused_grad_ckpt: false,
        },
        false,
        "BODY",
    );
    assert!(on.ends_with("BODY") && off.ends_with("BODY"));
    assert_ne!(on, off);
}

#[test]
fn the_host_runs_the_backward_pass_when_told_so() {
    assert!(prefer_host_bwd(Some("1")));
    assert!(!prefer_host_bwd(Some("0")));
}
