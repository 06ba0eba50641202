//! The error values reported around the formatting core. The core
//! itself is total and never fails; these describe what can go wrong
//! at the reading and writing boundary, with each cause carried as
//! plain text.

use vstd::prelude::*;
use vstd::string::StringExecFns;

verus! {

/// Failure while saving a formatted text.
#[derive(Debug)]
pub enum TextFileOutputError {
    /// The output file could not be created; holds the cause.
    CannotCreate(String),
    /// The output file could not be written; holds the cause.
    CannotWrite(String),
    /// The output file could not be flushed; holds the cause.
    CannotFlush(String),
    /// The output path already exists; holds the path.
    AlreadyExists(String),
}

impl TextFileOutputError {
    /// The error described as one line of text.
    pub fn message(&self) -> (r: String)
        ensures
            match self {
                TextFileOutputError::CannotCreate(cause) => r@ == "Cannot create error: "@
                    + cause@,
                TextFileOutputError::CannotWrite(cause) => r@ == "Cannot write error: "@ + cause@,
                TextFileOutputError::CannotFlush(cause) => r@ == "Cannot flush error: "@ + cause@,
                TextFileOutputError::AlreadyExists(path) => r@ == "Already exists error: File "@
                    + path@ + " is already exists"@,
            },
    {
        match self {
            TextFileOutputError::CannotCreate(cause) => {
                let mut m = String::from_str("Cannot create error: ");
                m.append(cause.as_str());
                m
            },
            TextFileOutputError::CannotWrite(cause) => {
                let mut m = String::from_str("Cannot write error: ");
                m.append(cause.as_str());
                m
            },
            TextFileOutputError::CannotFlush(cause) => {
                let mut m = String::from_str("Cannot flush error: ");
                m.append(cause.as_str());
                m
            },
            TextFileOutputError::AlreadyExists(path) => {
                let mut m = String::from_str("Already exists error: File ");
                m.append(path.as_str());
                m.append(" is already exists");
                m
            },
        }
    }
}

/// Failure while processing one source file.
#[derive(Debug)]
pub enum FileProcessError {
    /// The source path could not be represented as text.
    InvalidPath(InvalidPathError),
    /// The formatted text could not be saved.
    SaveError(TextFileOutputError),
    /// The source text could not be loaded; holds the cause.
    LoadError(String),
}

impl FileProcessError {
    /// The error described as one line of text.
    pub fn message(&self) -> (r: String)
        ensures
            r@ == "File process failed"@,
    {
        String::from_str("File process failed")
    }
}

/// Failure while processing a directory of source files.
#[derive(Debug)]
pub enum DirectoryProcessError {
    /// A path could not be represented as text.
    InvalidPath(InvalidPathError),
    /// A formatted text could not be saved.
    SaveError(TextFileOutputError),
    /// A source text could not be loaded; holds the cause.
    LoadError(String),
    /// Any other failure.
    Other,
}

impl DirectoryProcessError {
    /// The error described as one line of text.
    pub fn message(&self) -> (r: String)
        ensures
            r@ == "File process failed"@,
    {
        String::from_str("File process failed")
    }
}

/// A path that cannot be used.
#[derive(Debug)]
pub enum InvalidPathError {
    /// The file was not found at the path; holds the path.
    FileNotFound(String),
}

impl InvalidPathError {
    /// The error described as one line of text.
    pub fn message(&self) -> (r: String)
        ensures
            match self {
                InvalidPathError::FileNotFound(path) => r@ == "Not exists error: File "@ + path@
                    + " is not found"@,
            },
    {
        match self {
            InvalidPathError::FileNotFound(path) => {
                let mut m = String::from_str("Not exists error: File ");
                m.append(path.as_str());
                m.append(" is not found");
                m
            },
        }
    }
}

} // verus!
