use vstd::prelude::*;

verus! {

/// The two kinds of interactive session.
#[derive(Clone, Copy, Debug, PartialEq, Eq, Structural)]
pub enum SessionMode {
    /// Traffic is logged and a prompt is shown for input.
    Debug,
    /// What arrives is printed as text; no prompt is shown.
    Interactive,
}

impl SessionMode {
    /// Whether the session shows a prompt: at its start and after each input
    /// that it sends.
    pub fn prompts(self) -> (res: bool)
        ensures
            res == (self == SessionMode::Debug),
    {
        match self {
            SessionMode::Debug => true,
            SessionMode::Interactive => false,
        }
    }
}

/// What one non-blocking receive of an interactive session brought.
#[derive(Clone, Copy, Debug, PartialEq, Eq, Structural)]
pub enum RecvOutcome {
    /// The receive handed out this many bytes.
    Received(usize),
    /// No data was ready.
    WouldBlock,
    /// The receive failed in any other way.
    Failed,
}

/// What an interactive session does next.
#[derive(Clone, Copy, Debug, PartialEq, Eq, Structural)]
pub enum SessionStep {
    /// Nothing came: poll again.
    Idle,
    /// Data came: print it as text and poll again.
    Show,
    /// Data came (and was logged): show the prompt again and poll again.
    Prompt,
    /// The pipe broke: the session ends.
    Broken,
}

/// A session goes on while data arrives or none is ready yet; an empty
/// receive (the end of the stream) or any other failure ends it. Data that
/// arrives is printed in an interactive session and answered with a new
/// prompt in a debugging one.
pub fn session_step(mode: SessionMode, outcome: RecvOutcome) -> (res: SessionStep)
    ensures
        res == (match outcome {
            RecvOutcome::Received(n) => if n == 0 {
                SessionStep::Broken
            } else if mode == SessionMode::Interactive {
                SessionStep::Show
            } else {
                SessionStep::Prompt
            },
            RecvOutcome::WouldBlock => SessionStep::Idle,
            RecvOutcome::Failed => SessionStep::Broken,
        }),
{
    match outcome {
        RecvOutcome::Received(n) => if n == 0 {
            SessionStep::Broken
        } else {
            match mode {
                SessionMode::Interactive => SessionStep::Show,
                SessionMode::Debug => SessionStep::Prompt,
            }
        },
        RecvOutcome::WouldBlock => SessionStep::Idle,
        RecvOutcome::Failed => SessionStep::Broken,
    }
}

} // verus!
