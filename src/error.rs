use vstd::prelude::*;

verus! {

/// Everything that can go wrong while encoding or decoding a message.
#[derive(Clone, Copy, Debug, PartialEq, Eq, Structural)]
pub enum CodecError {
    /// A read asked for more bytes than the buffer still holds unread.
    Underflow,
    /// No schema is registered under this protocol id.
    UnknownProtocolId(i16),
    /// The packet's fields do not match the schema registered under this id.
    SchemaMismatch(i16),
    /// A schema is already registered under this protocol id.
    DuplicateProtocolId(i16),
}

} // verus!
