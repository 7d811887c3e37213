//! Error values of the library. Paths are held as strings and outside I/O
//! errors by their message.
use vstd::prelude::*;

verus! {

/// An Obsidian link whose text does not follow the link grammar.
#[derive(Debug, PartialEq, Eq)]
pub enum InvalidObsidianLink {
    ParseError(String),
    MissingMatchGroup { link: String, group: String },
}

/// A markdown link whose text does not follow the link grammar.
#[derive(Debug, PartialEq, Eq)]
pub enum InvalidMarkdownLink {
    ParseError(String),
    MissingMatchGroup { link: String, group: String },
}

/// The output directory already exists.
#[derive(Debug, PartialEq, Eq)]
pub struct DirExistsError(pub String);

/// The vault has no index file: the file name and the vault.
#[derive(Debug, PartialEq, Eq)]
pub struct MissingIndexError(pub String, pub String);

/// A directory that should exist does not.
#[derive(Debug, PartialEq, Eq)]
pub struct MissingDirectoryError(pub String);

/// Why a build could not start.
#[derive(Debug, PartialEq, Eq)]
pub enum InitializationError {
    OutputDirExists(DirExistsError),
    MissingDirectory(MissingDirectoryError),
    MissingIndexError(MissingIndexError),
}

#[derive(Debug, PartialEq, Eq)]
pub enum IndexError {
    IndexOpenError,
    IndexReadError,
}

#[derive(Debug, PartialEq, Eq)]
pub enum MathFindError {
    NestedMathMode(String),
}

#[derive(Debug, PartialEq, Eq)]
pub enum ReadConfigError {
    NoSuchFile(String),
    ReadToString,
    InvalidToml(String),
}

/// Why the age of a file could not be read.
#[derive(Debug, PartialEq, Eq)]
pub enum GetAgeError {
    MissingFileError(String),
    ModificationTimeError(String),
}

#[derive(Debug, PartialEq, Eq)]
pub enum FileWriteError {
    IOError(String),
}

#[derive(Debug, PartialEq, Eq)]
pub enum NotePathError {
    NoStem(String),
    InvalidUTF8(String),
}

/// Why an input path could not be mapped into the output directory.
#[derive(Debug, PartialEq, Eq)]
pub enum PathInputToOutputError {
    StripPrefixError,
    Canonicalize(String),
}

#[derive(Debug, PartialEq, Eq)]
pub enum PreambleError {
    PreambleReadError(String),
    FileWriteError(FileWriteError),
}

} // verus!
