//! Captured frames, where they come from, and where the syslog text starts
//! in one.

use vstd::prelude::*;
use vstd::slice::slice_subrange;

verus! {

/// The byte `<`, with which the priority field of a syslog message opens.
pub const PRI_MARKER: u8 = 0x3c;

/// One captured frame: link, network and transport headers of unknown
/// length, then the datagram's payload.
#[derive(Debug, Clone, PartialEq)]
pub struct PacketData {
    /// The frame's bytes as captured.
    pub data: Vec<u8>,
}

/// A feed of captured frames.
pub trait PacketSource {
    /// The next frame; `Ok(None)` where none arrived in time; `Err` with a
    /// description where the capture failed.
    fn next_packet(&mut self) -> Result<Option<PacketData>, String>;

    /// A description of the link layer, for diagnostics.
    fn get_datalink(&self) -> String;
}

/// `at` is the place of the first `<` in `frame`.
pub open spec fn is_first_marker(frame: Seq<u8>, at: int) -> bool {
    &&& 0 <= at < frame.len()
    &&& frame[at] == PRI_MARKER
    &&& forall|before: int| 0 <= before < at ==> frame[before] != PRI_MARKER
}

/// Where the payload is taken to start: at the first `<`, or at the start
/// of the frame where it holds none.
pub open spec fn payload_start(frame: Seq<u8>) -> int {
    if exists|at: int| is_first_marker(frame, at) {
        choose|at: int| is_first_marker(frame, at)
    } else {
        0
    }
}

/// The part of a frame that is read as a syslog message.
pub open spec fn payload(frame: Seq<u8>) -> Seq<u8> {
    frame.subrange(payload_start(frame), frame.len() as int)
}

/// A frame has at most one first `<`.
pub proof fn lemma_first_marker_unique(frame: Seq<u8>, at: int, other: int)
    requires
        is_first_marker(frame, at),
        is_first_marker(frame, other),
    ensures
        at == other,
{
    if at < other {
        assert(frame[at] != PRI_MARKER);
    }
    if other < at {
        assert(frame[other] != PRI_MARKER);
    }
}

/// Leading bytes without a `<` do not change what is read: a message that
/// opens with `<` is found whole behind any such bytes.
pub proof fn lemma_leading_bytes_skipped(junk: Seq<u8>, message: Seq<u8>)
    requires
        forall|i: int| 0 <= i < junk.len() ==> junk[i] != PRI_MARKER,
        message.len() > 0,
        message[0] == PRI_MARKER,
    ensures
        payload(junk + message) == message,
        payload(message) == message,
{
    let frame = junk + message;
    assert(is_first_marker(frame, junk.len() as int));
    lemma_first_marker_unique(frame, junk.len() as int, payload_start(frame));
    assert(frame.subrange(junk.len() as int, frame.len() as int) =~= message);
    assert(is_first_marker(message, 0));
    lemma_first_marker_unique(message, 0, payload_start(message));
    assert(message.subrange(0, message.len() as int) =~= message);
}

/// Finds where the payload of `frame` starts.
pub fn payload_offset(frame: &[u8]) -> (offset: usize)
    ensures
        offset == payload_start(frame@),
        offset <= frame@.len(),
{
    let n = frame.len();
    let mut i: usize = 0;
    while i < n
        invariant
            n == frame@.len(),
            i <= n,
            forall|before: int| 0 <= before < i ==> frame@[before] != PRI_MARKER,
        decreases n - i,
    {
        if frame[i] == PRI_MARKER {
            proof {
                assert(is_first_marker(frame@, i as int));
                lemma_first_marker_unique(frame@, i as int, payload_start(frame@));
            }
            return i;
        }
        i += 1;
    }
    proof {
        assert forall|at: int| !is_first_marker(frame@, at) by {
            if 0 <= at < frame@.len() {
                assert(frame@[at] != PRI_MARKER);
            }
        }
    }
    0
}

/// The part of `frame` that is read as a syslog message: from the first `<`
/// on, or all of it where it holds none.
pub fn payload_of(frame: &[u8]) -> (bytes: &[u8])
    ensures
        bytes@ == payload(frame@),
{
    let start = payload_offset(frame);
    slice_subrange(frame, start, frame.len())
}

} // verus!
