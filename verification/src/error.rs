//! What can go wrong while a package is decoded.

use crate::types::MapMetaType;
use vstd::prelude::*;

verus! {

/// The integrity checkpoints of the container.
#[derive(Debug, Clone, Copy, PartialEq, Eq, Structural)]
pub enum Checkpoint {
    /// The digest over the metadata section.
    Metadata,
    /// The digest over the encrypted file-info block.
    FileInfo,
    /// The digest over the body. The decoder does not verify it.
    Body,
}

/// Why a package could not be decoded. Every kind is fatal: no partly
/// decoded package is ever handed out.
#[derive(Debug, Clone, Copy, PartialEq, Eq, Structural)]
pub enum DecodeError {
    /// The input ended before a field did, or a length or offset points
    /// beyond what the input holds.
    Truncated,
    /// The input does not begin with the container's signature.
    BadMagic,
    /// The format version is outside the supported range. The decoder
    /// accepts every version byte and never returns this kind.
    UnsupportedVersion,
    /// A digest recomputed over a section differs from the one in the header.
    DigestMismatch { which: Checkpoint },
    /// The key derived from the metadata does not decrypt the known block.
    KeyMismatch,
    /// The metadata lacks a field that the key is derived from.
    MissingMetadataField { field: MapMetaType },
    /// A string's length prefix is not well formed. Every sequence of prefix
    /// bytes has a meaning, so the decoder never returns this kind.
    MalformedNetString,
    /// A string's bytes are not valid UTF-8.
    InvalidUtf8,
    /// A metadata key has no name. Such keys are filed under
    /// `MapMetaType::Unknown`, so the decoder never returns this kind.
    UnknownMetaKey,
}

} // verus!
