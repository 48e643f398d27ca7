use xbekit::errors::{IntegrityError, PipelineError};
use xbekit::rom::{expected_digest, run_pipeline, Patch, Rom};

#[test]
fn expected_digest_is_the_fixed_constant() {
    let d = expected_digest();
    assert_eq!(
        d,
        vec![
            0xa9, 0xac, 0x85, 0x5c, 0x4e, 0xe8, 0xb4, 0x1b, 0x66, 0x1c, 0x35, 0x78, 0xc9, 0x59,
            0xc0, 0x24, 0xf1, 0x06, 0x8c, 0x47,
        ]
    );
}

#[test]
fn mismatched_base_image_is_refused() {
    assert!(!Rom::verify_hash(&[0u8; 64]));
    let r = Rom::new(vec![0u8; 64]);
    assert!(r.is_err());
}

#[test]
fn digest_constant_itself_is_not_its_own_digest() {
    // Hashing the expected constant must not yield the constant; this
    // fails if the digest routine handed its input back unchanged.
    let d = expected_digest();
    assert!(!Rom::verify_hash(&d));
}

#[test]
fn pipeline_stops_at_the_integrity_gate() {
    let patches: Vec<Vec<u8>> = vec![vec![b'P', b'A', b'T', b'C', b'H', b'E', b'O', b'F']];
    let r = run_pipeline(vec![1, 2, 3], &patches);
    assert_eq!(r, Err(PipelineError::Integrity(IntegrityError)));
}

#[test]
fn patch_wrapper_applies_like_the_stream() {
    let mut stream = vec![b'P', b'A', b'T', b'C', b'H'];
    stream.extend_from_slice(&[0x00, 0x00, 0x01]);
    stream.extend_from_slice(&[0x00, 0x01]);
    stream.push(0x42);
    stream.extend_from_slice(&[b'E', b'O', b'F']);
    let mut patch = Patch::new(stream);
    let mut rom = Rom { bytes: vec![0u8; 4] };
    assert!(patch.apply_to(&mut rom).is_ok());
    assert_eq!(&rom.bytes[..], &[0, 0x42, 0, 0]);
}
