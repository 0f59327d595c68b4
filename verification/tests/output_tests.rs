use query_server::output::{
    compress_and_decide, decide_delivery, spill_name, u64_to_dec, INLINE_LIMIT,
};
use query_server::sched::JobResult;

#[test]
fn small_payload_is_inline() {
    let raw = b"a small serialized table".to_vec();
    let out = compress_and_decide(1, raw).unwrap();
    assert!(out.bytes.is_some());
    assert!(out.path.is_none());
}

#[test]
fn inline_bytes_are_real_compressed_data() {
    let raw = b"seven eight nine, seven eight nine, seven eight nine".to_vec();
    let out = compress_and_decide(3, raw.clone()).unwrap();
    let bytes = out.bytes.unwrap();
    // the payload decompresses back to the input, so the compressor
    // really ran and really compressed these bytes
    let roundtrip = zstd::decode_all(std::io::Cursor::new(&bytes[..])).unwrap();
    assert_eq!(roundtrip, raw);
    assert_ne!(bytes, raw);
}

#[test]
fn threshold_decides_inline_or_spill() {
    let at_limit = vec![0u8; INLINE_LIMIT];
    let out = decide_delivery(5, at_limit.clone());
    assert_eq!(out.bytes, Some(at_limit));
    assert!(out.path.is_none());

    let over_limit = vec![0u8; INLINE_LIMIT + 1];
    let out2 = decide_delivery(5, over_limit);
    assert!(out2.bytes.is_none());
    assert_eq!(out2.path.as_deref(), Some("output_5.feather"));
}

#[test]
fn incompressible_large_payload_spills() {
    // a pseudo-random payload well over the threshold stays over it after
    // compression, so it is delivered as a spill path and no bytes
    let mut raw = Vec::with_capacity(4 * INLINE_LIMIT);
    let mut x: u64 = 0x9E3779B97F4A7C15;
    while raw.len() < 4 * INLINE_LIMIT {
        x = x.wrapping_mul(6364136223846793005).wrapping_add(1442695040888963407);
        raw.extend_from_slice(&x.to_le_bytes());
    }
    let out = compress_and_decide(42, raw).unwrap();
    assert!(out.bytes.is_none());
    assert_eq!(out.path.as_deref(), Some("output_42.feather"));
}

#[test]
fn decimal_formatting_is_exact() {
    assert_eq!(u64_to_dec(0), "0");
    assert_eq!(u64_to_dec(9), "9");
    assert_eq!(u64_to_dec(10), "10");
    assert_eq!(u64_to_dec(905), "905");
    assert_eq!(u64_to_dec(u64::MAX), "18446744073709551615");
}

#[test]
fn spill_names_carry_the_job_id() {
    assert_eq!(spill_name(12), "output_12.feather");
    assert_eq!(spill_name(0), "output_0.feather");
}

#[test]
fn output_field_encodes_inline_bytes() {
    let r = JobResult {
        bytes: Some(vec![1u8, 2, 3]),
        path: None,
        duration: std::time::Duration::from_millis(5),
        cost: 10,
    };
    assert_eq!(r.output_field(), Some("AQID".to_string()));
}

#[test]
fn output_field_passes_spill_path_through() {
    let r = JobResult {
        bytes: None,
        path: Some("output_4.feather".to_string()),
        duration: std::time::Duration::from_millis(5),
        cost: 10,
    };
    assert_eq!(r.output_field(), Some("output_4.feather".to_string()));
}

#[test]
fn output_field_is_empty_on_failure() {
    let r = JobResult {
        bytes: None,
        path: None,
        duration: std::time::Duration::from_millis(5),
        cost: 10,
    };
    assert_eq!(r.output_field(), None);
}
