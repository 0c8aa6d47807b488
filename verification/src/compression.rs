//! Jobs handed to compression workers, and the rule for reusing the estimate
//! that the analysis made of a file.
use vstd::prelude::*;

verus! {

/// A file to compress, with the estimate the analysis made of it.
/// `estimated_ratio_bits` holds the bits of the estimated compression ratio
/// (an IEEE 754 single-precision number).
pub struct CompressionJob {
    pub path: String,
    pub content_len: u64,
    pub modified_time: u64,
    pub estimate_valid: bool,
    pub estimated_ratio_bits: u32,
}

/// A single-precision number is finite when its exponent bits are not all set.
pub open spec fn ratio_bits_finite(bits: u32) -> bool {
    (bits >> 23u32) & 0xffu32 != 0xffu32
}

/// The estimate may be reused when it was valid, the file still has the length
/// and modification time it had when it was estimated, and the ratio is finite.
pub open spec fn reuse_estimate_spec(job: CompressionJob, content_len: u64, modified_time: u64) -> Option<u32> {
    if job.estimate_valid && job.content_len == content_len && job.modified_time == modified_time
        && ratio_bits_finite(job.estimated_ratio_bits) {
        Some(job.estimated_ratio_bits)
    } else {
        None
    }
}

/// The bits of the analysis estimate of the job's file, when it may be reused
/// for a file now `content_len` bytes long and last modified at `modified_time`.
pub fn reuse_estimate(job: &CompressionJob, content_len: u64, modified_time: u64) -> (res: Option<u32>)
    ensures
        res == reuse_estimate_spec(*job, content_len, modified_time),
{
    let bits = job.estimated_ratio_bits;
    if job.estimate_valid && job.content_len == content_len && job.modified_time == modified_time
        && (bits >> 23u32) & 0xffu32 != 0xffu32 {
        Some(bits)
    } else {
        None
    }
}

/// A file whose length or modification time changed since the analysis is
/// estimated again: its earlier estimate is never reused.
pub proof fn law_changed_files_are_reestimated(job: CompressionJob, content_len: u64, modified_time: u64)
    requires
        job.content_len != content_len || job.modified_time != modified_time,
    ensures
        reuse_estimate_spec(job, content_len, modified_time) is None,
{
}

} // verus!
