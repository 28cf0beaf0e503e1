//! Why an action failed.
use vstd::prelude::*;
use vstd::string::StringExecFns;
use crate::codec::CodecError;

verus! {

/// The failures that a job can record.
#[derive(Clone, Debug)]
pub enum Error {
    /// The worker's channel closed before it sent a result.
    Flume,
    /// A subprocess could not be spawned or read.
    Io { e: String },
    /// A shell command exited with a non-zero status; `e` is its stderr.
    Bash { e: String },
    /// An HTTP request failed.
    WebRequest { e: String },
    /// A plugin could not be loaded, instantiated or run.
    Wasm { e: String },
    /// A plugin's memory could not be grown, read or written.
    WasmMemoryAccess { e: String },
    /// The bytes that a plugin returned are not a message.
    ByparParse { e: CodecError },
    /// A plugin returned a message other than `Output`.
    WasmWrongTypeReturned,
}

pub open spec fn codec_message(e: CodecError) -> Seq<char> {
    match e {
        CodecError::Truncated => "buffer too short"@,
        CodecError::InvalidUtf8 => "invalid UTF-8"@,
        CodecError::UnknownTag { tag } => "unknown tag"@,
    }
}

/// The text that describes an error.
pub open spec fn error_message(e: Error) -> Seq<char> {
    match e {
        Error::Flume => "Flume error occured! Check that the pipe isn't dropped too early."@,
        Error::Io { e } => "IO error occured! "@ + e@,
        Error::Bash { e } => "Bash execution failed! "@ + e@,
        Error::WebRequest { e } => "WebRequest execution failed! "@ + e@,
        Error::Wasm { e } => "Wasm execution failed! "@ + e@,
        Error::WasmMemoryAccess { e } => "Wasm memory access error! "@ + e@,
        Error::ByparParse { e } => "An error occured while trying to parse packets: "@
            + codec_message(e),
        Error::WasmWrongTypeReturned => "WASM module returned the wrong type"@,
    }
}

impl CodecError {
    pub fn message(&self) -> (r: String)
        ensures
            r@ == codec_message(*self),
    {
        match self {
            CodecError::Truncated => String::from_str("buffer too short"),
            CodecError::InvalidUtf8 => String::from_str("invalid UTF-8"),
            CodecError::UnknownTag { .. } => String::from_str("unknown tag"),
        }
    }
}

impl Error {
    /// The text that describes this error.
    pub fn message(&self) -> (r: String)
        ensures
            r@ == error_message(*self),
    {
        match self {
            Error::Flume => String::from_str(
                "Flume error occured! Check that the pipe isn't dropped too early.",
            ),
            Error::Io { e } => String::from_str("IO error occured! ").concat(e.as_str()),
            Error::Bash { e } => String::from_str("Bash execution failed! ").concat(e.as_str()),
            Error::WebRequest { e } => String::from_str("WebRequest execution failed! ").concat(
                e.as_str(),
            ),
            Error::Wasm { e } => String::from_str("Wasm execution failed! ").concat(e.as_str()),
            Error::WasmMemoryAccess { e } => String::from_str("Wasm memory access error! ").concat(
                e.as_str(),
            ),
            Error::ByparParse { e } => {
                let m = e.message();
                String::from_str("An error occured while trying to parse packets: ").concat(
                    m.as_str(),
                )
            },
            Error::WasmWrongTypeReturned => String::from_str("WASM module returned the wrong type"),
        }
    }
}

} // verus!
