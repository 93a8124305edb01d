//! Bounded capture of an approved child process's output.
//!
//! The application spawns the process, reads its pipes and waits for it; every
//! chunk it reads is accounted for here, and only the first bytes up to the
//! stream cap are kept.
use vstd::prelude::*;

verus! {

/// Most bytes kept of one output stream.
pub const STREAM_CAP: usize = 65536;

/// Bounded result of an approved child process.
#[derive(Debug)]
pub struct ProcessResult {
    /// Normal exit code, if the process exited normally.
    pub exit_code: Option<i32>,
    /// Terminating signal, if available.
    pub signal: Option<i32>,
    /// Captured stdout up to the stream cap.
    pub stdout: Vec<u8>,
    /// Captured stderr up to the stream cap.
    pub stderr: Vec<u8>,
    /// Whether stdout exceeded the cap.
    pub stdout_truncated: bool,
    /// Whether stderr exceeded the cap.
    pub stderr_truncated: bool,
}

/// The bytes kept of one stream so far, and whether any were dropped.
#[derive(Debug)]
pub struct Stream {
    /// Kept bytes, never more than [`STREAM_CAP`].
    pub bytes: Vec<u8>,
    /// Whether some read bytes were not kept.
    pub truncated: bool,
}

/// The bytes kept after `chunk` is read into `kept`.
pub open spec fn kept_after(kept: Seq<u8>, chunk: Seq<u8>) -> Seq<u8> {
    let room = STREAM_CAP - kept.len();
    if chunk.len() <= room {
        kept + chunk
    } else {
        kept + chunk.subrange(0, room)
    }
}

impl Stream {
    /// Nothing read yet.
    pub fn new() -> (stream: Stream)
        ensures
            stream.bytes@.len() == 0,
            !stream.truncated,
    {
        Stream { bytes: Vec::new(), truncated: false }
    }

    /// Account for one chunk read from the pipe: keep what fits under the cap.
    pub fn accept(&mut self, chunk: &[u8])
        requires
            old(self).bytes@.len() <= STREAM_CAP,
        ensures
            final(self).bytes@ == kept_after(old(self).bytes@, chunk@),
            final(self).bytes@.len() <= STREAM_CAP,
            final(self).truncated == (old(self).truncated || chunk@.len() > STREAM_CAP
                - old(self).bytes@.len()),
    {
        let room = STREAM_CAP - self.bytes.len();
        let retained = if chunk.len() < room {
            chunk.len()
        } else {
            room
        };
        let ghost before = self.bytes@;
        let mut i: usize = 0;
        while i < retained
            invariant
                i <= retained <= chunk@.len(),
                retained <= room,
                room == STREAM_CAP - before.len(),
                self.bytes@ == before + chunk@.subrange(0, i as int),
                self.truncated == old(self).truncated,
            decreases retained - i,
        {
            self.bytes.push(chunk[i]);
            i = i + 1;
            assert(self.bytes@ =~= before + chunk@.subrange(0, i as int));
        }
        if retained < chunk.len() {
            self.truncated = true;
        }
        proof {
            if chunk@.len() <= room {
                assert(chunk@.subrange(0, retained as int) =~= chunk@);
            }
        }
    }
}

} // verus!
