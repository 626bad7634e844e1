use crate::fs::FileType;
use crate::glob::tokenizer::TokenSet;
use vstd::prelude::*;

verus! {

#[verifier::external_type_specification]
#[verifier::external_body]
pub struct ExIoError(std::io::Error);

/// Relies on std::io::Error::last_os_error: the error that the last system call on this thread
/// left behind. It depends on the process state, so nothing is said of it.
#[verifier::external_body]
fn last_os_error() -> (r: std::io::Error) {
    std::io::Error::last_os_error()
}

/// The errors of this library.
#[derive(Debug)]
pub enum Error {
    /// A failure reported by the operating system.
    IoError(std::io::Error),
    /// The type bits of a stat result were outside the known set.
    InvalidFileType(u8),
    /// A file type that the builder does not process.
    UnsupportedFileType(FileType),
    /// A glob that does not parse: the pattern, the tokens that would have been accepted, and
    /// the byte offset at which parsing stopped.
    InvalidGlobParse(String, TokenSet, usize),
    /// A glob that parses but breaks a structural rule: the pattern and the rule.
    InvalidGlobCompile(String, String),
}

pub type Result<T> = std::result::Result<T, Error>;

impl Error {
    /// Takes the integer returned from a C function (-1 is an error, other values are treated as
    /// success) and converts it to a result.
    pub fn from_int(result: i32) -> (r: Result<i32>)
        ensures
            result == -1 <==> r is Err,
            r is Err ==> r->Err_0 is IoError,
            result != -1 ==> r == Ok::<i32, Error>(result),
    {
        if result == -1 {
            Err(Error::IoError(last_os_error()))
        } else {
            Ok(result)
        }
    }

    /// Takes the size returned from a C function (-1 is an error, other values are treated as
    /// success) and converts it to a result.
    pub fn from_size(result: isize) -> (r: Result<isize>)
        ensures
            result == -1 <==> r is Err,
            r is Err ==> r->Err_0 is IoError,
            result != -1 ==> r == Ok::<isize, Error>(result),
    {
        if result == -1 {
            Err(Error::IoError(last_os_error()))
        } else {
            Ok(result)
        }
    }
}

} // verus!
