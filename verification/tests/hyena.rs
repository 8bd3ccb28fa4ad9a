use ullis::hyena::{
    check_filter, check_filter_parameters, chunk_count, filter_channels, ConvShape,
    HyenaChunkPlan, HyenaError, HyenaFftPlan,
};

#[test]
fn chunk_plan_rejects_an_unbounded_or_inverted_window() {
    assert!(HyenaChunkPlan::new(0, 1).is_err());
    assert!(HyenaChunkPlan::new(2, 3).is_ok());
    assert_eq!(HyenaChunkPlan::new(4, 3).unwrap().fft_len, 8);
}

#[test]
fn fft_plan_uses_causal_zero_padding_geometry() {
    assert_eq!(HyenaFftPlan::new(1).unwrap().fft_len, 1);
    let plan = HyenaFftPlan::new(4).unwrap();
    assert_eq!((plan.time, plan.fft_len, plan.stages), (4, 8, 3));
    assert_eq!(HyenaFftPlan::new(32_000).unwrap().fft_len, 65_536);
    assert!(HyenaFftPlan::new(0).is_err());
}

#[test]
fn filter_rejects_channel_counts_that_would_drop_parameters() {
    // Four channels of three waves, asked for two channels.
    assert!(check_filter_parameters(4, 2, 12, 12, 12).is_err());
    assert_eq!(
        check_filter_parameters(4, 2, 12, 12, 12),
        Err(HyenaError::FilterChannels)
    );
    assert_eq!(check_filter_parameters(4, 4, 12, 12, 12), Ok(()));
    assert_eq!(
        check_filter_parameters(4, 0, 12, 12, 12),
        Err(HyenaError::FilterChannels)
    );
    for (freq, phase, decay) in [(0, 0, 0), (12, 11, 12), (12, 12, 11), (10, 10, 10)] {
        assert_eq!(
            check_filter_parameters(4, 4, freq, phase, decay),
            Err(HyenaError::FilterParameters)
        );
        assert!(filter_channels(4, freq, phase, decay).is_err());
    }
    assert_eq!(filter_channels(4, 12, 12, 12), Ok(4));
    assert_eq!(filter_channels(0, 12, 12, 12), Err(HyenaError::FilterParameters));
}

#[test]
fn each_convolution_error_has_its_cause() {
    assert_eq!(HyenaFftPlan::new(0).err(), Some(HyenaError::ZeroTime));
    assert_eq!(
        HyenaFftPlan::new(usize::MAX).err(),
        Some(HyenaError::LengthOverflow)
    );
    assert_eq!(HyenaChunkPlan::new(0, 1).err(), Some(HyenaError::ZeroChunk));
    assert_eq!(
        HyenaChunkPlan::new(usize::MAX, 2).err(),
        Some(HyenaError::ChunkOverflow)
    );
    let plan = HyenaChunkPlan::new(4, 3).unwrap();
    assert_eq!(plan.for_sequence(0).err(), Some(HyenaError::ZeroSequence));
    assert_eq!(check_filter(plan, 2, 6), Ok(()));
    assert_eq!(check_filter(plan, 2, 5), Err(HyenaError::FilterShape));
    assert_eq!(
        check_filter(plan, usize::MAX, 5),
        Err(HyenaError::FilterOverflow)
    );
    let shape = ConvShape {
        batch: 1,
        time: 5,
        channels: 2,
        input_width: 2,
        input_offset: 0,
    };
    assert_eq!(shape.check_input(10), Ok(10));
    assert_eq!(shape.check_input(9), Err(HyenaError::ShapeMismatch));
    assert!(!HyenaError::ZeroTime.message().is_empty());
}

#[test]
fn chunks_read_only_what_came_before() {
    let plan = HyenaChunkPlan::new(4, 3).unwrap();
    let shape = ConvShape {
        batch: 1,
        time: 6,
        channels: 1,
        input_width: 1,
        input_offset: 0,
    };
    assert_eq!(chunk_count(plan, 6, 0), 4);
    assert_eq!(chunk_count(plan, 6, 4), 2);
    assert_eq!(shape.source(plan, 0, 0, 0, 0), None);
    assert_eq!(shape.source(plan, 0, 0, 2, 0), Some(0));
    assert_eq!(shape.source(plan, 0, 4, 0, 0), Some(2));
    assert_eq!(shape.target(0, 4, 1, 0), 5);
}

/// The convolution chunk by chunk. The product of two transforms is taken as
/// the convolution that wraps around.
fn causal_chunked_conv(
    x: &[f32],
    filter: &[f32],
    batch: usize,
    time: usize,
    channels: usize,
    plan: HyenaChunkPlan,
) -> Vec<f32> {
    let plan = plan.for_sequence(time).unwrap();
    check_filter(plan, channels, filter.len()).unwrap();
    let shape = ConvShape { batch, time, channels, input_width: channels, input_offset: 0 };
    let mut out = vec![0.0; shape.check_input(x.len()).unwrap()];
    let history = plan.kernel_len - 1;
    for channel in 0..channels {
        let taps = &filter[channel * plan.kernel_len..(channel + 1) * plan.kernel_len];
        for sequence in 0..batch {
            let mut start = 0;
            while start < time {
                let count = chunk_count(plan, time, start);
                let mut signal = vec![0.0; plan.fft_len];
                for slot in 0..history + count {
                    if let Some(place) = shape.source(plan, sequence, start, slot, channel) {
                        signal[slot] = x[place];
                    }
                }
                for offset in 0..count {
                    let slot = history + offset;
                    out[shape.target(sequence, start, offset, channel)] = taps
                        .iter()
                        .enumerate()
                        .map(|(tap, w)| w * signal[(slot + plan.fft_len - tap) % plan.fft_len])
                        .sum();
                }
                start += plan.chunk_len;
            }
        }
    }
    out
}

#[test]
fn convolution_is_causal_and_matches_direct_form() {
    let x = [1.0, 2.0, 3.0, 4.0];
    let h = [0.5, 0.25, -0.5, 0.0];
    let y = causal_chunked_conv(&x, &h, 1, 4, 1, HyenaChunkPlan::new(4, 4).unwrap());
    let expected = [0.5, 1.25, 1.5, 1.75];
    for (actual, want) in y.iter().zip(expected) {
        assert!((actual - want).abs() < 1e-5, "{actual} != {want}");
    }
}

#[test]
fn chunked_overlap_save_matches_direct_bounded_convolution_across_chunks() {
    let x = [
        1.0, 10.0, 2.0, 20.0, 3.0, 30.0, 4.0, 40.0, 5.0, 50.0, 6.0, 60.0, 7.0, 70.0,
    ];
    let filter = [0.5, -0.25, 0.125, 1.0, 0.0, -0.5];
    let plan = HyenaChunkPlan::new(4, 3).unwrap();
    let actual = causal_chunked_conv(&x, &filter, 1, 7, 2, plan);
    let mut expected = vec![0.0; x.len()];
    for time in 0..7 {
        for channel in 0..2 {
            for tap in 0..3 {
                if tap <= time {
                    expected[time * 2 + channel] +=
                        x[(time - tap) * 2 + channel] * filter[channel * 3 + tap];
                }
            }
        }
    }
    for (actual, expected) in actual.iter().zip(expected) {
        assert!((actual - expected).abs() < 1e-5, "{actual} != {expected}");
    }
}
