//! Inspection library for machine-learning checkpoint containers.
//!
//! The crate parses the metadata headers of the two container formats
//! (safetensors and gguf) into a uniform tensor directory, rebuilds a
//! hierarchical module tree from the flat tensor names, and carries the
//! integer core of the statistical analysis pipeline (bin counting,
//! sampling decisions, request state machine).  Floating-point work,
//! file I/O and the interactive loop live outside the library.

use vstd::prelude::*;

pub mod util;
pub mod codec;
pub mod model;
pub mod tree;
pub mod flatten;
pub mod counts;
pub mod meta;
pub mod storage;
pub mod gguf;
pub mod safetensors;
pub mod analysis;

verus! {

/// The error taxonomy of the library.  Every fallible operation reports
/// one of these; `message` renders the human-readable text.
#[derive(Debug, Clone, PartialEq, Eq)]
pub enum AppError {
    /// The 8-byte length prefix exceeds the header sanity limit.
    HeaderTooLarge,
    /// The safetensors header bytes are not valid UTF-8 JSON.
    HeaderJson,
    /// A tensor entry in the safetensors header is malformed.
    BadTensorEntry,
    /// The first four bytes are not the gguf magic.
    NotGguf,
    /// The gguf version field is not 3.
    GgufVersion,
    /// The gguf header ended before a field was complete.
    GgufTruncated,
    /// A gguf string is not valid UTF-8.
    GgufBadString,
    /// A gguf metadata value carries an unknown type tag.
    UnknownMetaType(u32),
    /// A gguf tensor record names a type id the registry does not know.
    UnknownTensorType(u32),
    /// A gguf tensor record has zero dimensions.
    EmptyShape,
    /// The derived byte size of a gguf tensor overflowed.
    SizeOverflow,
    /// The `general.alignment` metadata value is unusable (zero).
    BadAlignment,
    /// Rewriting gguf metadata is a deliberate capability gap.
    GgufWriteUnsupported,
    /// A metadata value cannot be rendered into the written header.
    UnsupportedMetaValue,
    /// Decoding was asked for a tensor type with no decode path.
    UnsupportedTensorType,
    /// Analysis was asked for an empty tensor.
    TensorEmpty,
    /// The analysis request was dropped before completion.
    Cancelled,
    /// A storage backend failed; the payload is its own report.
    StorageFailure(String),
}

/// The text each error renders to; a storage failure carries its
/// backend's own report.
pub open spec fn message_spec(e: AppError) -> Seq<char> {
    match e {
        AppError::HeaderTooLarge => "header is larger than 100MiB; not a safetensors file?"@,
        AppError::HeaderJson => "invalid safetensors header"@,
        AppError::BadTensorEntry => "malformed tensor entry in safetensors header"@,
        AppError::NotGguf => "not a gguf file"@,
        AppError::GgufVersion => "not a version 3 gguf file"@,
        AppError::GgufTruncated => "gguf header is truncated"@,
        AppError::GgufBadString => "gguf string is not valid utf-8"@,
        AppError::UnknownMetaType(_) => "unknown metadata type"@,
        AppError::UnknownTensorType(_) => "not a valid ggml type"@,
        AppError::EmptyShape => "empty shape"@,
        AppError::SizeOverflow => "tensor size overflowed"@,
        AppError::BadAlignment => "invalid alignment"@,
        AppError::GgufWriteUnsupported => "editing gguf files is not yet supported"@,
        AppError::UnsupportedMetaValue => "unsupported metadata value"@,
        AppError::UnsupportedTensorType => "unsupported tensor type"@,
        AppError::TensorEmpty => "tensor is empty"@,
        AppError::Cancelled => "cancelled"@,
        AppError::StorageFailure(text) => text@,
    }
}

impl AppError {
    /// The human-readable message of this error.
    pub fn message(&self) -> (r: String)
        ensures
            r@ == message_spec(*self),
    {
        match self {
            AppError::HeaderTooLarge => "header is larger than 100MiB; not a safetensors file?".to_owned(),
            AppError::HeaderJson => "invalid safetensors header".to_owned(),
            AppError::BadTensorEntry => "malformed tensor entry in safetensors header".to_owned(),
            AppError::NotGguf => "not a gguf file".to_owned(),
            AppError::GgufVersion => "not a version 3 gguf file".to_owned(),
            AppError::GgufTruncated => "gguf header is truncated".to_owned(),
            AppError::GgufBadString => "gguf string is not valid utf-8".to_owned(),
            AppError::UnknownMetaType(_) => "unknown metadata type".to_owned(),
            AppError::UnknownTensorType(_) => "not a valid ggml type".to_owned(),
            AppError::EmptyShape => "empty shape".to_owned(),
            AppError::SizeOverflow => "tensor size overflowed".to_owned(),
            AppError::BadAlignment => "invalid alignment".to_owned(),
            AppError::GgufWriteUnsupported => "editing gguf files is not yet supported".to_owned(),
            AppError::UnsupportedMetaValue => "unsupported metadata value".to_owned(),
            AppError::UnsupportedTensorType => "unsupported tensor type".to_owned(),
            AppError::TensorEmpty => "tensor is empty".to_owned(),
            AppError::Cancelled => "cancelled".to_owned(),
            AppError::StorageFailure(text) => text.clone(),
        }
    }
}

} // verus!
