//! The ways in which decoding an object can fail.

use vstd::prelude::*;

verus! {

/// The kind of object that a header announces.
#[derive(Clone, Copy, Debug, PartialEq, Eq, Structural)]
pub enum ObjectType {
    Blob,
    Tree,
    Commit,
    Tag,
}

/// A text field of a tree entry.
#[derive(Clone, Copy, Debug, PartialEq, Eq, Structural)]
pub enum EntryField {
    Mode,
    Name,
}

/// A commit header field that holds a person and a date.
#[derive(Clone, Copy, Debug, PartialEq, Eq, Structural)]
pub enum UserField {
    Author,
    Committer,
}

/// A commit header field that every commit must hold.
#[derive(Clone, Copy, Debug, PartialEq, Eq, Structural)]
pub enum RequiredField {
    Tree,
    Author,
    Committer,
}

/// Why an input was rejected. Every parser returns the first failure that
/// it meets, and returns no partial result beside it.
#[derive(Clone, Debug, PartialEq, Eq)]
pub enum Error {
    /// A digest does not have the 20 bytes of a SHA-1 digest.
    InvalidDigestLength { actual: usize },
    /// The object holds no null byte, so its header never ends.
    MissingNullTerminator,
    /// The object header holds no space between type and size.
    MalformedHeader,
    /// The type named in the object header is none of the four known ones.
    UnknownObjectType(Vec<u8>),
    /// The size in the object header is no decimal number that fits 64 bits.
    InvalidSizeField,
    /// The payload is not as long as the object header says.
    SizeMismatch { declared: u64, actual: usize },
    /// The object is of a known kind that this crate does not decode.
    UnsupportedObjectType(ObjectType),
    /// A tree entry holds no space after its mode.
    MissingEntryMode,
    /// A tree entry holds no null byte after its name.
    MissingEntryName,
    /// Fewer than 20 bytes follow the name of a tree entry.
    TruncatedEntryHash,
    /// A text field of a tree entry is not UTF-8.
    NonUtf8EntryField(EntryField),
    /// The commit header is not closed by an empty line.
    UnexpectedEndOfHeader,
    /// A commit header line holds no space between name and value.
    MalformedHeaderLine,
    /// The value of a `tree` or `parent` field is not hexadecimal.
    InvalidHexDigest,
    /// The commit header holds a second `tree` field.
    DuplicateTreeField,
    /// The commit header holds a second `author` or `committer` field.
    DuplicateField(UserField),
    /// The commit header holds a field of an unknown name.
    UnrecognizedHeaderField(Vec<u8>),
    /// The commit header lacks a field that every commit must hold.
    MissingRequiredField(RequiredField),
    /// A person's entry holds no `<` before the email address.
    MissingEmailOpenBracket,
    /// The byte before the `<` of a person's entry is not a space.
    MissingSpaceBeforeEmail,
    /// A person's entry holds no `>` after the email address.
    MissingEmailCloseBracket,
    /// The byte after the `>` of a person's entry is not a space.
    MissingSpaceAfterEmail,
    /// A person's entry holds no space between timestamp and time zone.
    MalformedDateField,
    /// A byte range that must be text is not UTF-8.
    NonUtf8Field,
}

/// An [`Error`] as a mathematical value: byte strings are sequences.
pub enum ErrorView {
    InvalidDigestLength { actual: usize },
    MissingNullTerminator,
    MalformedHeader,
    UnknownObjectType(Seq<u8>),
    InvalidSizeField,
    SizeMismatch { declared: u64, actual: usize },
    UnsupportedObjectType(ObjectType),
    MissingEntryMode,
    MissingEntryName,
    TruncatedEntryHash,
    NonUtf8EntryField(EntryField),
    UnexpectedEndOfHeader,
    MalformedHeaderLine,
    InvalidHexDigest,
    DuplicateTreeField,
    DuplicateField(UserField),
    UnrecognizedHeaderField(Seq<u8>),
    MissingRequiredField(RequiredField),
    MissingEmailOpenBracket,
    MissingSpaceBeforeEmail,
    MissingEmailCloseBracket,
    MissingSpaceAfterEmail,
    MalformedDateField,
    NonUtf8Field,
}

impl View for Error {
    type V = ErrorView;

    open spec fn view(&self) -> ErrorView {
        match *self {
            Error::InvalidDigestLength { actual } => ErrorView::InvalidDigestLength { actual },
            Error::MissingNullTerminator => ErrorView::MissingNullTerminator,
            Error::MalformedHeader => ErrorView::MalformedHeader,
            Error::UnknownObjectType(token) => ErrorView::UnknownObjectType(token@),
            Error::InvalidSizeField => ErrorView::InvalidSizeField,
            Error::SizeMismatch { declared, actual } => ErrorView::SizeMismatch {
                declared,
                actual,
            },
            Error::UnsupportedObjectType(kind) => ErrorView::UnsupportedObjectType(kind),
            Error::MissingEntryMode => ErrorView::MissingEntryMode,
            Error::MissingEntryName => ErrorView::MissingEntryName,
            Error::TruncatedEntryHash => ErrorView::TruncatedEntryHash,
            Error::NonUtf8EntryField(field) => ErrorView::NonUtf8EntryField(field),
            Error::UnexpectedEndOfHeader => ErrorView::UnexpectedEndOfHeader,
            Error::MalformedHeaderLine => ErrorView::MalformedHeaderLine,
            Error::InvalidHexDigest => ErrorView::InvalidHexDigest,
            Error::DuplicateTreeField => ErrorView::DuplicateTreeField,
            Error::DuplicateField(field) => ErrorView::DuplicateField(field),
            Error::UnrecognizedHeaderField(name) => ErrorView::UnrecognizedHeaderField(name@),
            Error::MissingRequiredField(field) => ErrorView::MissingRequiredField(field),
            Error::MissingEmailOpenBracket => ErrorView::MissingEmailOpenBracket,
            Error::MissingSpaceBeforeEmail => ErrorView::MissingSpaceBeforeEmail,
            Error::MissingEmailCloseBracket => ErrorView::MissingEmailCloseBracket,
            Error::MissingSpaceAfterEmail => ErrorView::MissingSpaceAfterEmail,
            Error::MalformedDateField => ErrorView::MalformedDateField,
            Error::NonUtf8Field => ErrorView::NonUtf8Field,
        }
    }
}

} // verus!
