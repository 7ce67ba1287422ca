//! The ways in which recovering a payload can fail.

use vstd::prelude::*;

verus! {

/// Why an obfuscated string was rejected. The checks run in the order of the
/// variants, and the first one that fails decides the kind.
#[derive(Clone, Copy, Debug, PartialEq, Eq, Structural)]
pub enum ErrorKind {
    /// The reversed input is not canonical, padded base64.
    DecodeError,
    /// The decoded bytes are not valid UTF-8.
    EncodingError,
    /// The decoded text is not framed by the obfuscation key on both sides.
    KeyMismatchError,
    /// The text between the two keys does not start with `{` and end with `}`.
    FormatError,
}

impl ErrorKind {
    /// The human-readable description of each kind.
    pub open spec fn message_text(self) -> Seq<char> {
        match self {
            ErrorKind::DecodeError => "Base64 decode error"@,
            ErrorKind::EncodingError => "UTF-8 decode error"@,
            ErrorKind::KeyMismatchError => "Invalid obfuscation key"@,
            ErrorKind::FormatError => "Not a valid JSON object"@,
        }
    }

    /// Returns the description that is shown to a caller for this kind.
    pub fn message(&self) -> (res: &'static str)
        ensures
            res@ == self.message_text(),
    {
        match self {
            ErrorKind::DecodeError => "Base64 decode error",
            ErrorKind::EncodingError => "UTF-8 decode error",
            ErrorKind::KeyMismatchError => "Invalid obfuscation key",
            ErrorKind::FormatError => "Not a valid JSON object",
        }
    }
}

} // verus!
