//! The patch target and the orchestration pipeline: a base image is
//! admitted only when its digest equals a fixed constant, the enabled patch
//! streams are then applied in list order, and the first malformed stream
//! stops the run while keeping what earlier streams wrote.

use vstd::prelude::*;

use crate::bytes::bytes_eq;
use crate::errors::{IntegrityError, PatchFormatError, PipelineError};
use crate::ips::{apply_patch, apply_records, patch_ok, patch_records, Ips};

use sha1::Digest;

verus! {

/// The SHA-1 digest of a byte sequence, as the `sha1` crate computes it.
pub uninterp spec fn sha1_of(b: Seq<u8>) -> Seq<u8>;

/// The digest every acceptable base image must have.
pub open spec fn expected_digest_spec() -> Seq<u8> {
    seq![
        0xa9u8, 0xacu8, 0x85u8, 0x5cu8, 0x4eu8, 0xe8u8, 0xb4u8, 0x1bu8, 0x66u8, 0x1cu8, 0x35u8,
        0x78u8, 0xc9u8, 0x59u8, 0xc0u8, 0x24u8, 0xf1u8, 0x06u8, 0x8cu8, 0x47u8,
    ]
}

/// The digest constant as bytes.
pub fn expected_digest() -> (r: Vec<u8>)
    ensures
        r@ == expected_digest_spec(),
{
    let r: Vec<u8> = vec![
        0xa9, 0xac, 0x85, 0x5c, 0x4e, 0xe8, 0xb4, 0x1b, 0x66, 0x1c, 0x35, 0x78, 0xc9, 0x59, 0xc0,
        0x24, 0xf1, 0x06, 0x8c, 0x47,
    ];
    proof {
        assert(r@ =~= expected_digest_spec());
    }
    r
}

/// Relies on `sha1::Sha1` through the `Digest` trait (`new`, `update`,
/// `finalize`): the digest is 20 bytes and depends on the input bytes
/// alone.
#[verifier::external_body]
fn sha1_digest(bytes: &[u8]) -> (r: Vec<u8>)
    ensures
        r@ == sha1_of(bytes@),
        r@.len() == 20,
{
    let mut hasher = sha1::Sha1::new();
    hasher.update(bytes);
    hasher.finalize().to_vec()
}

/// The base image buffer a patch session mutates in place.
pub struct Rom {
    /// The image bytes.
    pub bytes: Vec<u8>,
}

impl Rom {
    /// Admits base image bytes: they become a `Rom` exactly when their
    /// digest equals the expected constant.
    pub fn new(bytes: Vec<u8>) -> (r: Result<Rom, IntegrityError>)
        ensures
            r is Ok <==> sha1_of(bytes@) == expected_digest_spec(),
            r is Ok ==> r.unwrap().bytes@ == bytes@,
    {
        if Rom::verify_hash(bytes.as_slice()) {
            Ok(Rom { bytes })
        } else {
            Err(IntegrityError)
        }
    }

    /// Whether the digest of `bytes` equals the expected constant.
    pub fn verify_hash(bytes: &[u8]) -> (r: bool)
        ensures
            r == (sha1_of(bytes@) == expected_digest_spec()),
    {
        let digest = sha1_digest(bytes);
        let expected = expected_digest();
        bytes_eq(&digest, &expected)
    }
}

/// One patch, ready to apply to a `Rom`.
pub struct Patch {
    ips_file: Ips,
}

impl View for Patch {
    type V = Seq<u8>;

    closed spec fn view(&self) -> Seq<u8> {
        self.ips_file@
    }
}

impl Patch {
    /// Wraps raw patch bytes.
    pub fn new(bytes: Vec<u8>) -> (r: Patch)
        ensures
            r@ == bytes@,
    {
        Patch { ips_file: Ips::new(bytes) }
    }

    /// Applies this patch's records to the image buffer, in stream order,
    /// keeping what was applied when the stream turns out truncated.
    pub fn apply_to(&mut self, rom: &mut Rom) -> (r: Result<(), PatchFormatError>)
        ensures
            final(self)@ == old(self)@,
            final(rom).bytes@ == apply_records(old(rom).bytes@, patch_records(old(self)@)),
            r is Ok <==> patch_ok(old(self)@),
    {
        self.ips_file.apply_to(&mut rom.bytes)
    }
}

/// The buffer after the records of the first `k` streams were applied in
/// list order.
pub open spec fn apply_upto(buf: Seq<u8>, streams: Seq<Seq<u8>>, k: int) -> Seq<u8>
    decreases k,
{
    if k <= 0 {
        buf
    } else {
        apply_records(apply_upto(buf, streams, k - 1), patch_records(streams[k - 1]))
    }
}

/// Whether every stream before index `k` is well formed.
pub open spec fn all_ok_upto(streams: Seq<Seq<u8>>, k: int) -> bool {
    forall|j: int| 0 <= j < k ==> patch_ok(#[trigger] streams[j])
}

/// Applies a whole ordered list of patch streams to a base image. The
/// integrity gate comes first and refuses a base image before anything is
/// written. After it, the streams apply in list order; a malformed stream
/// ends the run and its index comes back in the error, while every
/// complete record read so far stays applied.
pub fn run_pipeline(base: Vec<u8>, patches: &Vec<Vec<u8>>) -> (r: Result<Vec<u8>, PipelineError>)
    ensures
        ({
            let ps = patches.deep_view();
            let n = ps.len() as int;
            &&& (sha1_of(base@) != expected_digest_spec() ==> r == Err::<Vec<u8>, PipelineError>(
                PipelineError::Integrity(IntegrityError),
            ))
            &&& (sha1_of(base@) == expected_digest_spec() && all_ok_upto(ps, n) ==> r is Ok
                && r.unwrap()@ == apply_upto(base@, ps, n))
            &&& (forall|i: int|
                sha1_of(base@) == expected_digest_spec() && 0 <= i < n && all_ok_upto(ps, i)
                    && !patch_ok(ps[i]) ==> r == Err::<Vec<u8>, PipelineError>(
                    PipelineError::Patch { index: i as usize, error: PatchFormatError },
                ))
        }),
{
    let ghost base0 = base@;
    let ghost ps = patches.deep_view();
    let mut rom = match Rom::new(base) {
        Err(e) => {
            return Err(PipelineError::Integrity(e));
        },
        Ok(rom) => rom,
    };
    let n = patches.len();
    let mut i: usize = 0;
    while i < n
        invariant
            n == patches.len(),
            i <= n,
            ps == patches.deep_view(),
            base0 == base@,
            sha1_of(base0) == expected_digest_spec(),
            all_ok_upto(ps, i as int),
            rom.bytes@ == apply_upto(base0, ps, i as int),
        decreases n - i,
    {
        proof {
            assert(ps[i as int] == patches@[i as int]@);
        }
        let res = apply_patch(&mut rom.bytes, &patches[i]);
        if res.is_err() {
            return Err(PipelineError::Patch { index: i, error: PatchFormatError });
        }
        i = i + 1;
    }
    Ok(rom.bytes)
}

} // verus!
