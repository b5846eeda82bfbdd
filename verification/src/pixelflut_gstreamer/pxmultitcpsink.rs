use crate::pixelflut_gstreamer::partitioned_buffer_meta::BufferPartitionBin;
use vstd::prelude::*;

verus! {

/// Why a buffer cannot be sent.
pub enum RenderError {
    /// No hosts are configured.
    NoHosts,
}

/// One part of a buffer to send: bytes `start..end`, over round-robin slot `robin_idx`.
pub struct SendJob {
    pub robin_idx: usize,
    pub start: usize,
    pub end: usize,
}

/// How a buffer is sent.
pub enum RenderPlan {
    /// The whole buffer over round-robin slot 0; a write error fails the render.
    WholeBuffer,
    /// Each part over its own slot, in parallel; a write error of a part is reported and the
    /// render goes on.
    Parts(Vec<SendJob>),
}

/// Whether every bin lies inside a buffer of `buf_len` bytes.
pub open spec fn bins_fit(bins: Seq<BufferPartitionBin>, buf_len: nat) -> bool {
    forall|i: int| 0 <= i < bins.len() ==> #[trigger] bins[i].offset + bins[i].len <= buf_len
}

/// The send job of bin `i`: its bytes, over slot `i`.
pub open spec fn job_of(bins: Seq<BufferPartitionBin>, i: int) -> SendJob {
    SendJob {
        robin_idx: i as usize,
        start: bins[i].offset,
        end: (bins[i].offset + bins[i].len) as usize,
    }
}

/// Each send job is its bin: slot `i` sends exactly the `bins[i].len` bytes that start at
/// `bins[i].offset`, inside the buffer.
pub proof fn law_job_is_its_bin(bins: Seq<BufferPartitionBin>, buf_len: nat, i: int)
    requires
        bins_fit(bins, buf_len),
        0 <= i < bins.len(),
        bins.len() <= usize::MAX,
        buf_len <= usize::MAX,
    ensures
        job_of(bins, i).robin_idx == i,
        job_of(bins, i).start == bins[i].offset,
        job_of(bins, i).end - job_of(bins, i).start == bins[i].len,
        job_of(bins, i).end <= buf_len,
{
    assert(bins[i].offset + bins[i].len <= buf_len);
}

/// Decides how a buffer of `buf_len` bytes is sent: an error when no hosts are configured;
/// otherwise the whole buffer when it carries no partition bins, or one job per bin, bin `i`
/// over round-robin slot `i`.
pub fn render_plan(
    pool_is_empty: bool,
    bins: Option<&Vec<BufferPartitionBin>>,
    buf_len: usize,
) -> (r: Result<RenderPlan, RenderError>)
    requires
        bins matches Some(b) ==> bins_fit(b@, buf_len as nat),
    ensures
        pool_is_empty ==> r is Err,
        !pool_is_empty && bins is None ==> r matches Ok(RenderPlan::WholeBuffer),
        !pool_is_empty && bins is Some ==> ({
            &&& r matches Ok(RenderPlan::Parts(jobs))
            &&& jobs@.len() == bins.unwrap()@.len()
            &&& forall|i: int| 0 <= i < jobs@.len() ==> #[trigger] jobs@[i] == job_of(bins.unwrap()@, i)
        }),
{
    if pool_is_empty {
        return Err(RenderError::NoHosts);
    }
    match bins {
        None => Ok(RenderPlan::WholeBuffer),
        Some(b) => {
            let mut jobs: Vec<SendJob> = Vec::new();
            let mut i: usize = 0;
            while i < b.len()
                invariant
                    i <= b@.len(),
                    bins_fit(b@, buf_len as nat),
                    jobs@.len() == i,
                    forall|k: int| 0 <= k < i ==> #[trigger] jobs@[k] == job_of(b@, k),
                decreases b@.len() - i,
            {
                let bin = &b[i];
                assert(b@[i as int].offset + b@[i as int].len <= buf_len);
                jobs.push(SendJob { robin_idx: i, start: bin.offset, end: bin.offset + bin.len });
                i = i + 1;
            }
            Ok(RenderPlan::Parts(jobs))
        },
    }
}

} // verus!
