use vstd::prelude::*;

verus! {

/// Every way a parse can fail. Each error is fatal to the whole parse: the
/// first one aborts the block loop and is returned to the caller.
#[derive(Clone, Copy, PartialEq, Eq, Debug)]
pub enum FlacError {
    /// The source ended before an expected fixed-size read completed.
    UnexpectedEof,
    /// The first four bytes are not the FLAC signature; carries what was found.
    BadMagic { found: [u8; 4] },
    /// A structurally valid but disallowed 7-bit block type code.
    UnexpectedBlockType(u8),
    /// Fewer than four bytes remained where a block header was expected.
    TruncatedHeader,
    /// The buffer ended before the declared block length was reached.
    TruncatedPayload,
    /// A STREAMINFO payload shorter than its fixed 34-byte size.
    InsufficientData,
    /// A bit read past the end of a `BitCursor`'s buffer.
    OutOfBits,
}

} // verus!
