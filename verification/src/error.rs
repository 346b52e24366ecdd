//! The error taxonomy: the only recoverable failure is that the input file
//! could not be opened.

use vstd::prelude::*;

verus! {

/// Why the program refuses to start: the named file could not be opened
/// (carrying the path and the underlying cause), or a bare exit code to
/// mirror.
pub enum Error {
    FileError { filepath: String, why: String },
    ExitCode(i32),
}

/// The one-line diagnostic for a file that could not be opened.
pub open spec fn file_error_message(filepath: Seq<char>, why: Seq<char>) -> Seq<char> {
    "could not open '"@ + filepath + "': "@ + why
}

impl Error {
    /// Builds the error for a file that could not be opened.
    pub fn from_bad_file(filepath: &str, why: &str) -> (e: Error)
        ensures
            e matches Error::FileError { filepath: f, why: w } && f@ == filepath@ && w@ == why@,
    {
        Error::FileError { filepath: String::from_str(filepath), why: String::from_str(why) }
    }

    /// The diagnostic to print: the file-error line, carrying the exact
    /// path, or nothing for a bare exit code.
    pub fn get_message(&self) -> (r: Option<String>)
        ensures
            match *self {
                Error::FileError { filepath, why } => r matches Some(s) && s@
                    == file_error_message(filepath@, why@),
                Error::ExitCode(_) => r is None,
            },
    {
        match self {
            Error::FileError { filepath, why } => {
                let mut s = String::from_str("could not open '");
                s.append(filepath.as_str());
                s.append("': ");
                s.append(why.as_str());
                proof {
                    assert(s@ =~= file_error_message(filepath@, why@));
                }
                Some(s)
            },
            Error::ExitCode(_) => None,
        }
    }

    /// The process exit code this error maps to: the mirrored code, or 1
    /// for a file error.
    pub fn exit_code(&self) -> (r: i32)
        ensures
            r == (match *self {
                Error::ExitCode(i) => i as int,
                _ => 1int,
            }),
    {
        match self {
            Error::ExitCode(i) => *i,
            _ => 1,
        }
    }
}

} // verus!
