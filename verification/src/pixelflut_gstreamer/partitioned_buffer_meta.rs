use vstd::prelude::*;

verus! {

// Buffer metadata for "partitioned" streaming buffers - to leverage multiple streams.
// The Pixelflut transform takes an image and translates it into multiple byte sequences that
// can all be written independently. Since there is only a single buffer, downstream needs to
// know which parts are "independent" (so that a PX command isn't cut in the middle). This is
// done by the metadata here: each bin has an (offset, len), specifying the part of the buffer
// it should write out.
/// One independently writable part of a buffer.
#[derive(Clone, Copy)]
pub struct BufferPartitionBin {
    pub offset: usize,
    pub len: usize,
}

/// Indicates that a buffer (containing raw bytes) is "partitioned" into bins that can be
/// written in parallel or independently.
#[derive(Clone)]
pub struct BufferPartitionMetadataParams {
    pub bins: Vec<BufferPartitionBin>,
}

} // verus!
