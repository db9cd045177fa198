//! How far a seek can be off in what was assembled.

use vstd::prelude::*;

use crate::assemble::{self, gop, AssembleParams, SegmentBytes};

verus! {

/// Seek granularity is kept across image switches: the output starts with a
/// sync sample, neighbouring sync samples are at most `gop_size` apart, and the
/// last one is less than `gop_size` temporal units in front of the last frame.
pub proof fn assembled_streams_keep_seek_granularity(
    segments: Seq<SegmentBytes>,
    p: AssembleParams,
)
    requires
        assemble::assembled(segments, p) is Ok,
    ensures
        ({
            let out = assemble::assembled(segments, p)->Ok_0;
            let keys = out.key_samples;
            &&& keys.len() > 0
            &&& keys[0] == 1
            &&& forall|i: int, j: int|
                0 <= i && j == i + 1 && j < keys.len() ==> #[trigger] keys[j]
                    - #[trigger] keys[i] <= p.gop_size
            &&& out.tus.len() + 1 - keys.last() <= p.gop_size
        }),
{
    let frames = assemble::frame_counts(segments);
    gop::plan_has_every_frame(frames, p.gop_size);
    gop::sync_samples_are_at_most_a_gop_apart(frames, p.gop_size);
}

} // verus!
