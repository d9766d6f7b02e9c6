//! The reader loop of a websocket connection as a state machine: for each
//! thing the connection delivers, the next state and what to do.
use vstd::prelude::*;

verus! {

/// How many times in a row an ended stream is waited out before giving up.
pub const MAX_RETRIES: u32 = 5;

/// Seconds to wait after the `attempt`-th consecutive end of stream
/// (counting from 0): 1, 2, 4, …
pub open spec fn backoff_secs(attempt: nat) -> nat
    decreases attempt,
{
    if attempt == 0 {
        1
    } else {
        2 * backoff_secs((attempt - 1) as nat)
    }
}

/// What the connection delivered.
#[derive(Debug, Clone, Copy, PartialEq, Eq, Structural)]
pub enum ReadEvent {
    /// A text message, and whether handling it succeeded.
    Text(bool),
    /// The server closed the connection.
    Closed,
    /// Some other kind of message.
    Unhandled,
    /// Reading failed.
    ReadFailed,
    /// The stream ended.
    Ended,
}

/// Why the loop stops.
#[derive(Debug, Clone, Copy, PartialEq, Eq, Structural)]
pub enum StopReason {
    /// Handling a message failed; its error is reported.
    PackageFailed,
    ClosedByServer,
    ReadError,
    RetriesExhausted,
}

/// What the loop does next.
#[derive(Debug, Clone, Copy, PartialEq, Eq, Structural)]
pub enum ListenAction {
    /// Read the next message.
    Continue,
    /// Sleep this many seconds, then read again.
    Wait(u64),
    /// Report the reason and stop.
    Stop(StopReason),
}

/// The reader loop's memory: how many ends of stream in a row were waited
/// out.
#[derive(Debug)]
pub struct ListenState {
    retry_attempts: u32,
}

impl ListenState {
    #[verifier::type_invariant]
    spec fn bounded(self) -> bool {
        self.retry_attempts <= MAX_RETRIES
    }

    /// The consecutive ends of stream waited out so far.
    pub closed spec fn attempts(self) -> nat {
        self.retry_attempts as nat
    }

    pub fn new() -> (r: ListenState)
        ensures
            r.attempts() == 0,
    {
        ListenState { retry_attempts: 0 }
    }

    pub fn retry_attempts(&self) -> (r: u32)
        ensures
            r == self.attempts(),
            r <= MAX_RETRIES,
    {
        proof {
            use_type_invariant(self);
        }
        self.retry_attempts
    }

    /// Takes one event: a handled text resets the count; a failed text, a
    /// close or a read error stops; other messages are skipped; an ended
    /// stream is waited out `backoff_secs(count)` seconds while fewer than
    /// `MAX_RETRIES` ends were waited out, and stops the loop after that.
    pub fn step(&mut self, event: ReadEvent) -> (r: ListenAction)
        ensures
            final(self).attempts() <= MAX_RETRIES,
            match event {
                ReadEvent::Text(true) => r == ListenAction::Continue && final(self).attempts() == 0,
                ReadEvent::Text(false) => r == ListenAction::Stop(StopReason::PackageFailed)
                    && final(self).attempts() == old(self).attempts(),
                ReadEvent::Closed => r == ListenAction::Stop(StopReason::ClosedByServer)
                    && final(self).attempts() == old(self).attempts(),
                ReadEvent::Unhandled => r == ListenAction::Continue && final(self).attempts()
                    == old(self).attempts(),
                ReadEvent::ReadFailed => r == ListenAction::Stop(StopReason::ReadError)
                    && final(self).attempts() == old(self).attempts(),
                ReadEvent::Ended => if old(self).attempts() < MAX_RETRIES {
                    r == ListenAction::Wait(backoff_secs(old(self).attempts()) as u64)
                        && final(self).attempts() == old(self).attempts() + 1
                } else {
                    r == ListenAction::Stop(StopReason::RetriesExhausted)
                        && final(self).attempts() == old(self).attempts()
                },
            },
    {
        proof {
            use_type_invariant(&*self);
        }
        match event {
            ReadEvent::Text(true) => {
                self.retry_attempts = 0;
                ListenAction::Continue
            },
            ReadEvent::Text(false) => ListenAction::Stop(StopReason::PackageFailed),
            ReadEvent::Closed => ListenAction::Stop(StopReason::ClosedByServer),
            ReadEvent::Unhandled => ListenAction::Continue,
            ReadEvent::ReadFailed => ListenAction::Stop(StopReason::ReadError),
            ReadEvent::Ended => {
                if self.retry_attempts < MAX_RETRIES {
                    let secs = backoff(self.retry_attempts);
                    self.retry_attempts = self.retry_attempts + 1;
                    ListenAction::Wait(secs)
                } else {
                    ListenAction::Stop(StopReason::RetriesExhausted)
                }
            },
        }
    }
}

fn backoff(attempt: u32) -> (r: u64)
    requires
        attempt < MAX_RETRIES,
    ensures
        r == backoff_secs(attempt as nat),
{
    let mut r: u64 = 1;
    let mut i: u32 = 0;
    while i < attempt
        invariant
            i <= attempt < MAX_RETRIES,
            r == backoff_secs(i as nat),
            i == 0 ==> r == 1,
            i == 1 ==> r == 2,
            i == 2 ==> r == 4,
            i == 3 ==> r == 8,
            i == 4 ==> r == 16,
        decreases attempt - i,
    {
        r = r * 2;
        i = i + 1;
        assert(backoff_secs(i as nat) == 2 * backoff_secs((i - 1) as nat));
    }
    r
}

impl StopReason {
    /// The error message reported for this reason (the handler's own error
    /// is reported for `PackageFailed`).
    pub fn message(&self) -> (r: &'static str)
        ensures
            r@ == match *self {
                StopReason::PackageFailed => "Error handling WebSocket package"@,
                StopReason::ClosedByServer => "WebSocket connection closed by server"@,
                StopReason::ReadError => "Error reading WebSocket message"@,
                StopReason::RetriesExhausted => "Max retry attempts reached. Giving up on reconnecting."@,
            },
    {
        match self {
            StopReason::PackageFailed => "Error handling WebSocket package",
            StopReason::ClosedByServer => "WebSocket connection closed by server",
            StopReason::ReadError => "Error reading WebSocket message",
            StopReason::RetriesExhausted => "Max retry attempts reached. Giving up on reconnecting.",
        }
    }
}

/// The total of the waits from the `attempt`-th end of stream on, until
/// the loop gives up.
pub open spec fn remaining_wait(attempt: nat) -> nat
    decreases MAX_RETRIES - attempt,
{
    if attempt >= MAX_RETRIES {
        0
    } else {
        backoff_secs(attempt) + remaining_wait(attempt + 1)
    }
}

/// Law: a fresh loop that only ever sees the stream end waits 1, 2, 4, 8
/// and 16 seconds, 31 seconds in all, before it gives up.
pub proof fn lemma_total_backoff()
    ensures
        remaining_wait(0) == 31,
        backoff_secs(0) == 1 && backoff_secs(1) == 2 && backoff_secs(2) == 4 && backoff_secs(3)
            == 8 && backoff_secs(4) == 16,
{
    reveal_with_fuel(backoff_secs, 5);
    reveal_with_fuel(remaining_wait, 6);
}

} // verus!
