//! The command surface of the tool, as plain data.
//!
//! The values here are produced by the command-line front end; the library
//! only defines their shape.

use vstd::prelude::*;

verus! {

/// A parsed invocation: one command.
pub struct EdmiArgs {
    pub command: Command,
}

/// The four operations the tool offers.
pub enum Command {
    /// Encode a new message into a PNG chunk.
    Encode(EncodeArgs),
    /// Decode the message held by a PNG chunk.
    Decode(DecodeArgs),
    /// Remove the chunk holding a message.
    Remove(RemoveArgs),
    /// Print all chunks that can hold messages.
    Print(PrintArgs),
}

/// What the encode operation needs.
pub struct EncodeArgs {
    /// Path to a local PNG file, or URL of a remote one.
    pub source: String,
    /// Type of the chunk to create for the message.
    pub chunk_type: String,
    /// The message to store inside the chunk.
    pub message: String,
    /// Where to write the result; when absent, a path is derived from the
    /// source.
    pub output_file: Option<String>,
}

/// What the decode operation needs.
pub struct DecodeArgs {
    /// Path to a local PNG file, or URL of a remote one.
    pub source: String,
    /// Type of the chunk holding the message to decode.
    pub chunk_type: String,
}

/// What the remove operation needs.
pub struct RemoveArgs {
    /// Path to a local PNG file, or URL of a remote one.
    pub source: String,
    /// Type of the chunk to remove.
    pub chunk_type: String,
    /// Where to write the result; when absent, a path is derived from the
    /// source.
    pub output_file: Option<String>,
}

/// What the print operation needs.
pub struct PrintArgs {
    /// Path to a local PNG file, or URL of a remote one.
    pub source: String,
}

} // verus!
