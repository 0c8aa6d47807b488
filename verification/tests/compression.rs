use compactor::compression::{reuse_estimate, CompressionJob};

#[test]
fn estimate_reuse_requires_matching_fingerprint() {
    let job = CompressionJob {
        path: "test.bin".to_string(),
        content_len: 8192,
        modified_time: 1234,
        estimate_valid: true,
        estimated_ratio_bits: 0.5f32.to_bits(),
    };

    assert_eq!(Some(0.5f32.to_bits()), reuse_estimate(&job, 8192, 1234));
    assert_eq!(None, reuse_estimate(&job, 4096, 1234));
    assert_eq!(None, reuse_estimate(&job, 8192, 5678));
}

#[test]
fn invalid_estimate_is_not_reused() {
    let job = CompressionJob {
        path: "test.bin".to_string(),
        content_len: 8192,
        modified_time: 1234,
        estimate_valid: false,
        estimated_ratio_bits: 0.5f32.to_bits(),
    };

    assert_eq!(None, reuse_estimate(&job, 8192, 1234));
}

#[test]
fn non_finite_estimate_is_not_reused() {
    for ratio in [f32::NAN, f32::INFINITY, f32::NEG_INFINITY] {
        let job = CompressionJob {
            path: "test.bin".to_string(),
            content_len: 8192,
            modified_time: 1234,
            estimate_valid: true,
            estimated_ratio_bits: ratio.to_bits(),
        };
        assert_eq!(None, reuse_estimate(&job, 8192, 1234));
    }
    let job = CompressionJob {
        path: "test.bin".to_string(),
        content_len: 8192,
        modified_time: 1234,
        estimate_valid: true,
        estimated_ratio_bits: f32::MAX.to_bits(),
    };
    assert_eq!(Some(f32::MAX.to_bits()), reuse_estimate(&job, 8192, 1234));
}
