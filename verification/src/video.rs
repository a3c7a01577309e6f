//! Video delivery decisions: whole-file downloads in bounded chunks and
//! single-chunk partial-content responses for range requests.

use vstd::prelude::*;

verus! {

/// Maximum size in bytes of an incoming HTTP request.
pub const REQUEST_SIZE: usize = 4096;

/// Size in bytes of a portion of a video (never exceeded by one read).
pub const VIDEO_BUFFER_SIZE: usize = 2097152;

/// What to do for a video request, given the optional range start and the
/// file length.
#[derive(PartialEq, Eq, Structural, Debug)]
pub enum VideoPlan {
    /// No range start: send the whole file, reading through a buffer of
    /// this size.
    Download { buffer_size: usize },
    /// A range start below the file length: send one chunk of exactly this
    /// length from `begin`, as `206 Partial Content`.
    Stream { begin: usize, length: usize },
    /// A range start at or past the file length: `416`, no body.
    Unsatisfiable,
}

/// The delivery decision: a download reads through a buffer no larger than
/// the chunk cap or the file; a satisfiable range gets one chunk covering
/// the lesser of the remaining bytes and the chunk cap.
pub open spec fn video_plan(range_start: Option<usize>, total: usize) -> VideoPlan {
    match range_start {
        None => VideoPlan::Download {
            buffer_size: if total <= VIDEO_BUFFER_SIZE {
                total
            } else {
                VIDEO_BUFFER_SIZE
            },
        },
        Some(begin) => {
            if begin >= total {
                VideoPlan::Unsatisfiable
            } else {
                VideoPlan::Stream {
                    begin,
                    length: if total - begin <= VIDEO_BUFFER_SIZE {
                        (total - begin) as usize
                    } else {
                        VIDEO_BUFFER_SIZE
                    },
                }
            }
        },
    }
}

/// Decide how to deliver a video of `total` bytes.
pub fn plan_video(range_start: Option<usize>, total: usize) -> (p: VideoPlan)
    ensures
        p == video_plan(range_start, total),
{
    match range_start {
        None => {
            let buffer_size = if total <= VIDEO_BUFFER_SIZE {
                total
            } else {
                VIDEO_BUFFER_SIZE
            };
            VideoPlan::Download { buffer_size }
        },
        Some(begin) => {
            if begin >= total {
                VideoPlan::Unsatisfiable
            } else {
                let remaining = total - begin;
                let length = if remaining <= VIDEO_BUFFER_SIZE {
                    remaining
                } else {
                    VIDEO_BUFFER_SIZE
                };
                VideoPlan::Stream { begin, length }
            }
        },
    }
}

/// A range start below the file length is answered with one chunk whose
/// length is the lesser of the remaining bytes and the chunk cap, so the
/// declared range runs from `begin` to `begin + length - 1`, still inside
/// the file; a range start at or past the file length is not satisfiable.
pub proof fn lemma_range_semantics(begin: usize, total: usize)
    ensures
        begin < total ==> video_plan(Some(begin), total) == (VideoPlan::Stream {
            begin,
            length: (if total - begin <= VIDEO_BUFFER_SIZE {
                (total - begin) as usize
            } else {
                VIDEO_BUFFER_SIZE
            }),
        }),
        begin < total ==> (video_plan(Some(begin), total) matches VideoPlan::Stream {
            begin: b,
            length: l,
        } && 1 <= l <= VIDEO_BUFFER_SIZE && b + l <= total),
        begin >= total ==> video_plan(Some(begin), total) == VideoPlan::Unsatisfiable,
{
}

// ---------------------------------------------------------------------------
// The whole-file download loop
// ---------------------------------------------------------------------------

/// The bytes delivered before the read at position `k` of a run.
pub open spec fn bytes_before(reads: Seq<int>, k: int) -> int
    decreases k,
{
    if k <= 0 {
        0
    } else {
        bytes_before(reads, k - 1) + reads[k - 1]
    }
}

/// What one read of the download loop can return, at a given offset of a
/// file of `total` bytes, through a buffer of `cap` bytes: before the end
/// of the file at least one byte and at most the rest of the file, at the
/// end exactly zero.
pub open spec fn valid_whole_read(total: int, cap: int, offset: int, r: int) -> bool {
    if offset < total {
        1 <= r <= total - offset && r <= cap
    } else {
        r == 0
    }
}

/// A complete run of the download loop: every read is valid at its offset,
/// and the run stops exactly at the first zero-length read.
pub open spec fn whole_download_run(reads: Seq<int>, total: int, cap: int) -> bool {
    &&& reads.len() > 0
    &&& forall|k: int|
        0 <= k < reads.len() ==> valid_whole_read(total, cap, bytes_before(reads, k), #[trigger] reads[k])
    &&& reads.last() == 0
    &&& forall|k: int| 0 <= k < reads.len() - 1 ==> #[trigger] reads[k] != 0
}

/// Every offset of a download run stays within the file.
proof fn lemma_run_offsets(reads: Seq<int>, total: int, cap: int, k: int)
    requires
        total >= 0,
        0 <= k <= reads.len(),
        forall|t: int|
            0 <= t < reads.len() ==> valid_whole_read(
                total,
                cap,
                bytes_before(reads, t),
                #[trigger] reads[t],
            ),
    ensures
        0 <= bytes_before(reads, k) <= total,
    decreases k,
{
    if k > 0 {
        lemma_run_offsets(reads, total, cap, k - 1);
    }
}

/// Before the final read, every read moves the offset by at least one byte.
proof fn lemma_run_progress(reads: Seq<int>, total: int, cap: int, k: int)
    requires
        total >= 0,
        0 <= k <= reads.len() - 1,
        forall|t: int|
            0 <= t < reads.len() ==> valid_whole_read(
                total,
                cap,
                bytes_before(reads, t),
                #[trigger] reads[t],
            ),
        forall|t: int| 0 <= t < reads.len() - 1 ==> #[trigger] reads[t] != 0,
    ensures
        bytes_before(reads, k) >= k,
    decreases k,
{
    if k > 0 {
        lemma_run_progress(reads, total, cap, k - 1);
        assert(reads[k - 1] != 0);
        assert(valid_whole_read(total, cap, bytes_before(reads, k - 1), reads[k - 1]));
    }
}

/// A whole-file download delivers the file exactly: the sum of the bytes
/// written across all chunks equals the file length, and the loop
/// terminates, after at most one read per byte plus the final empty read.
pub proof fn lemma_download_totals(reads: Seq<int>, total: int, cap: int)
    requires
        total >= 0,
        cap >= 1,
        whole_download_run(reads, total, cap),
    ensures
        bytes_before(reads, reads.len() - 1) == total,
        reads.len() <= total + 1,
{
    let last = reads.len() - 1;
    lemma_run_offsets(reads, total, cap, last);
    assert(valid_whole_read(total, cap, bytes_before(reads, last), reads[last]));
    assert(bytes_before(reads, last) == total);
    lemma_run_progress(reads, total, cap, last);
}

} // verus!
