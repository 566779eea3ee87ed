//! The codec's encoding configuration: an immutable value describing the
//! three policies that define the wire format.

use vstd::prelude::*;

verus! {

/// Byte order of multi-byte integer fields on the wire.
#[derive(Debug, Clone, Copy, PartialEq, Eq, Structural)]
pub enum ByteOrder {
    /// Most significant byte first.
    BigEndian,
    /// Least significant byte first.
    LittleEndian,
}

/// How integer fields are sized on the wire.
#[derive(Debug, Clone, Copy, PartialEq, Eq, Structural)]
pub enum IntEncoding {
    /// Every integer occupies its full declared byte width, whatever its value.
    FixedWidth,
    /// Integers occupy as few bytes as their value allows.
    VariableWidth,
}

/// What decode does with bytes left after the record's last field.
#[derive(Debug, Clone, Copy, PartialEq, Eq, Structural)]
pub enum TrailingBytes {
    /// Extra bytes are ignored; decode succeeds on any long-enough buffer.
    Permit,
    /// Extra bytes are an error.
    Reject,
}

/// The immutable configuration of a codec.
///
/// There is no runtime reconfiguration: the codec in this crate implements
/// exactly [`CodecConfig::canonical`], and a second policy would be a second,
/// separately named codec.
#[derive(Debug, Clone, Copy, PartialEq, Eq, Structural)]
pub struct CodecConfig {
    pub byte_order: ByteOrder,
    pub int_encoding: IntEncoding,
    pub trailing_bytes: TrailingBytes,
}

impl CodecConfig {
    /// The one configuration this crate implements: big-endian, fixed-width
    /// integers, trailing bytes permitted.
    ///
    /// The three policies are proved of the codec itself:
    /// [`crate::codec::lemma_record_big_endian`],
    /// [`crate::codec::lemma_record_bytes_len`], and
    /// [`crate::codec::lemma_trailing_tolerance`].
    pub open spec fn canonical() -> CodecConfig {
        CodecConfig {
            byte_order: ByteOrder::BigEndian,
            int_encoding: IntEncoding::FixedWidth,
            trailing_bytes: TrailingBytes::Permit,
        }
    }
}

/// The canonical coder configuration.
///
/// Properties:
/// - Big endian
/// - Fixed integer encoding (a 32-bit value `1` occupies 4 bytes, never 1)
/// - Trailing bytes allowed: decode does not fail when the buffer holds more
///   data past the end of the record
pub fn coder() -> (c: CodecConfig)
    ensures
        c == CodecConfig::canonical(),
{
    CodecConfig {
        byte_order: ByteOrder::BigEndian,
        int_encoding: IntEncoding::FixedWidth,
        trailing_bytes: TrailingBytes::Permit,
    }
}

} // verus!
