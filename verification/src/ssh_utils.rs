//! Remote deployment channel, modelled as verifiable decisions: the session
//! life cycle as a state machine, and the upload byte accounting whose final
//! exact-equality check decides whether a transfer was complete. The caller
//! performs the transport work and feeds the outcomes back in as events.

use vstd::prelude::*;

use crate::HotSwapError;

verus! {

/// Life cycle of one remote session bound to a single host and credential
/// pair.
#[derive(Clone, Copy, Debug, PartialEq, Eq, Structural)]
pub enum SessionState {
    /// No transport connection yet.
    Unconnected,
    /// Transport handshake done, credentials not yet presented.
    Connected,
    /// Credentials accepted; operations may start.
    Authenticated,
    /// An upload or command execution is in flight.
    Active,
    /// Terminal: the session must never attempt further transport work.
    Failed,
}

/// What the transport layer reports back to the session.
#[derive(Clone, Copy, Debug, PartialEq, Eq, Structural)]
pub enum SessionEvent {
    /// The transport handshake succeeded.
    TransportReady,
    /// The transport could not be established.
    TransportFailed,
    /// The remote host accepted the credentials.
    AuthAccepted,
    /// The remote host rejected the credentials.
    AuthRejected,
    /// An upload or command execution begins.
    OperationStarted,
    /// The in-flight operation finished.
    OperationFinished,
}

/// The session transition table: next state, and the error surfaced to the
/// caller when the event is a failure or arrives out of order. A `Failed`
/// session fails fast on every further event, and an event that the current
/// state does not expect also dooms the session.
pub open spec fn session_step_spec(s: SessionState, ev: SessionEvent) -> (
    SessionState,
    Option<HotSwapError>,
) {
    match (s, ev) {
        (SessionState::Unconnected, SessionEvent::TransportReady) => (
            SessionState::Connected,
            None,
        ),
        (SessionState::Unconnected, SessionEvent::TransportFailed) => (
            SessionState::Failed,
            Some(HotSwapError::ConnectionError),
        ),
        (SessionState::Connected, SessionEvent::AuthAccepted) => (
            SessionState::Authenticated,
            None,
        ),
        (SessionState::Connected, SessionEvent::AuthRejected) => (
            SessionState::Failed,
            Some(HotSwapError::AuthenticationError),
        ),
        (SessionState::Authenticated, SessionEvent::OperationStarted) => (
            SessionState::Active,
            None,
        ),
        (SessionState::Active, SessionEvent::OperationFinished) => (
            SessionState::Authenticated,
            None,
        ),
        _ => (SessionState::Failed, Some(HotSwapError::SessionClosedError)),
    }
}

/// Advance the session by one transport event.
pub fn session_step(s: SessionState, ev: SessionEvent) -> (r: (SessionState, Option<HotSwapError>))
    ensures
        r == session_step_spec(s, ev),
{
    match (s, ev) {
        (SessionState::Unconnected, SessionEvent::TransportReady) => (
            SessionState::Connected,
            None,
        ),
        (SessionState::Unconnected, SessionEvent::TransportFailed) => (
            SessionState::Failed,
            Some(HotSwapError::ConnectionError),
        ),
        (SessionState::Connected, SessionEvent::AuthAccepted) => (
            SessionState::Authenticated,
            None,
        ),
        (SessionState::Connected, SessionEvent::AuthRejected) => (
            SessionState::Failed,
            Some(HotSwapError::AuthenticationError),
        ),
        (SessionState::Authenticated, SessionEvent::OperationStarted) => (
            SessionState::Active,
            None,
        ),
        (SessionState::Active, SessionEvent::OperationFinished) => (
            SessionState::Authenticated,
            None,
        ),
        _ => (SessionState::Failed, Some(HotSwapError::SessionClosedError)),
    }
}

/// A failed session never recovers, and every further event keeps reporting
/// the fail-fast error.
pub proof fn lemma_failed_is_terminal(ev: SessionEvent)
    ensures
        session_step_spec(SessionState::Failed, ev) == (
            SessionState::Failed,
            Some(HotSwapError::SessionClosedError),
        ),
{
}

/// The size of each slice an upload streams at a time, in bytes.
pub const UPLOAD_CHUNK_SIZE: usize = 32768;

/// Byte accounting of one upload: how many bytes the remote stream was
/// promised, and how many have been written to it so far.
#[derive(Clone, Copy, Debug, PartialEq, Eq, Structural)]
pub struct UploadTracker {
    pub expected: u64,
    pub written: u64,
}

/// Start accounting for an upload of a local file of exactly `file_size`
/// bytes.
pub fn upload_begin(file_size: u64) -> (t: UploadTracker)
    ensures
        t.expected == file_size,
        t.written == 0,
{
    UploadTracker { expected: file_size, written: 0 }
}

/// Record that one chunk of `n` bytes was written to the remote stream.
pub fn record_chunk(t: &mut UploadTracker, n: u64)
    requires
        old(t).written + n <= u64::MAX,
    ensures
        final(t).expected == old(t).expected,
        final(t).written == old(t).written + n,
{
    t.written = t.written + n;
}

/// Completion of an upload: the written byte count must equal the promised
/// one exactly; any mismatch is surfaced, never ignored.
pub open spec fn finish_spec(t: UploadTracker) -> Result<(), HotSwapError> {
    if t.written == t.expected {
        Ok(())
    } else {
        Err(HotSwapError::TransferIncompleteError)
    }
}

/// Close the upload accounting: the transferred byte count is checked for
/// exact equality with the local file's size.
pub fn upload_finish(t: &UploadTracker) -> (r: Result<(), HotSwapError>)
    ensures
        r == finish_spec(*t),
{
    if t.written == t.expected {
        Ok(())
    } else {
        Err(HotSwapError::TransferIncompleteError)
    }
}

/// Total size of a run of chunks.
pub open spec fn sum_chunks(chunks: Seq<u64>) -> int
    decreases chunks.len(),
{
    if chunks.len() == 0 {
        0
    } else {
        chunks[0] + sum_chunks(chunks.skip(1))
    }
}

/// The tracker after recording a run of chunks one by one.
pub open spec fn tracker_after(t: UploadTracker, chunks: Seq<u64>) -> UploadTracker
    decreases chunks.len(),
{
    if chunks.len() == 0 {
        t
    } else {
        tracker_after(
            UploadTracker { expected: t.expected, written: (t.written + chunks[0]) as u64 },
            chunks.skip(1),
        )
    }
}

/// A total of chunk sizes is never negative.
pub proof fn lemma_sum_chunks_nonneg(chunks: Seq<u64>)
    ensures
        sum_chunks(chunks) >= 0,
    decreases chunks.len(),
{
    if chunks.len() > 0 {
        lemma_sum_chunks_nonneg(chunks.skip(1));
    }
}

/// Recording chunks adds exactly their total to the written count and keeps
/// the expected count.
pub proof fn lemma_tracker_after(t: UploadTracker, chunks: Seq<u64>)
    requires
        t.written + sum_chunks(chunks) <= u64::MAX,
    ensures
        tracker_after(t, chunks).expected == t.expected,
        tracker_after(t, chunks).written == t.written + sum_chunks(chunks),
    decreases chunks.len(),
{
    if chunks.len() > 0 {
        lemma_sum_chunks_nonneg(chunks.skip(1));
        lemma_tracker_after(
            UploadTracker { expected: t.expected, written: (t.written + chunks[0]) as u64 },
            chunks.skip(1),
        );
    }
}

/// An upload of a local file of size `file_size` finishes complete exactly
/// when the recorded chunks put `file_size` bytes into the remote stream;
/// any other total — a truncation after `file_size - 1` bytes, say — is
/// surfaced as an incomplete transfer.
pub proof fn lemma_transfer_exactness(chunks: Seq<u64>, file_size: u64)
    requires
        sum_chunks(chunks) <= u64::MAX,
    ensures
        ({
            let t = tracker_after(UploadTracker { expected: file_size, written: 0 }, chunks);
            &&& (finish_spec(t) == Ok::<(), HotSwapError>(()) <==> sum_chunks(chunks)
                == file_size)
            &&& (sum_chunks(chunks) != file_size ==> finish_spec(t) == Err::<
                (),
                HotSwapError,
            >(HotSwapError::TransferIncompleteError))
        }),
{
    lemma_sum_chunks_nonneg(chunks);
    lemma_tracker_after(UploadTracker { expected: file_size, written: 0 }, chunks);
}

} // verus!
