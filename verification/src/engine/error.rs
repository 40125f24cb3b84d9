//! Engine error type.

use vstd::prelude::*;

verus! {

/// All engine errors flow through this type. Each variant carries the text of
/// what went wrong.
#[derive(Debug)]
pub enum EngineError {
    /// Graphics/GPU related error.
    Graphics(String),
    /// Window/platform related error.
    Platform(String),
    /// Invalid configuration or state.
    InvalidState(String),
    /// I/O error, as the operating system described it.
    Io(String),
    /// Shader compilation error.
    Shader(String),
}

impl EngineError {
    /// The text shown to a user: the kind of error, then its description.
    pub open spec fn text(&self) -> Seq<char> {
        match self {
            EngineError::Graphics(msg) => "graphics error: "@ + msg@,
            EngineError::Platform(msg) => "platform error: "@ + msg@,
            EngineError::InvalidState(msg) => "invalid state: "@ + msg@,
            EngineError::Io(msg) => "io error: "@ + msg@,
            EngineError::Shader(msg) => "shader error: "@ + msg@,
        }
    }

    /// Whether this is an `InvalidState` error carrying exactly `msg`.
    pub open spec fn is_invalid_state(&self, msg: Seq<char>) -> bool {
        self matches EngineError::InvalidState(m) && m@ == msg
    }

    /// Render the error for a log line.
    pub fn message(&self) -> (r: String)
        ensures
            r@ == self.text(),
    {
        match self {
            EngineError::Graphics(msg) => String::from_str("graphics error: ").concat(msg.as_str()),
            EngineError::Platform(msg) => String::from_str("platform error: ").concat(msg.as_str()),
            EngineError::InvalidState(msg) => String::from_str("invalid state: ").concat(
                msg.as_str(),
            ),
            EngineError::Io(msg) => String::from_str("io error: ").concat(msg.as_str()),
            EngineError::Shader(msg) => String::from_str("shader error: ").concat(msg.as_str()),
        }
    }
}

} // verus!
