use vstd::prelude::*;

use crate::file_format::FormatError;

verus! {

/// Why a script could not be compiled.
pub enum CompileError {
    /// A document is malformed in its notation.
    Format(FormatError),
    /// A file could not be read; the message says why.
    IO(String),
    /// Nothing exists at the path.
    InvalidPath(String),
    /// An image could not be decoded; the message says why.
    Image(String),
}

impl CompileError {
    /// The kind of error, as shown in an error banner.
    pub fn name(&self) -> (r: String)
        ensures
            r@ == match self {
                CompileError::Format(FormatError::JSON(_)) => "json - Format"@,
                CompileError::Format(FormatError::YAML(_)) => "YAML - Format"@,
                CompileError::IO(_) => "IO"@,
                CompileError::InvalidPath(_) => "InvalidPath"@,
                CompileError::Image(_) => "Image"@,
            },
    {
        match self {
            CompileError::Format(e) => {
                let mut n = e.name();
                n.append(" - Format");
                proof {
                    reveal_strlit(" - Format");
                    reveal_strlit("json");
                    reveal_strlit("YAML");
                    reveal_strlit("json - Format");
                    reveal_strlit("YAML - Format");
                }
                assert(n@ =~= match self {
                    CompileError::Format(FormatError::JSON(_)) => "json - Format"@,
                    _ => "YAML - Format"@,
                });
                n
            },
            CompileError::IO(_) => String::from_str("IO"),
            CompileError::InvalidPath(_) => String::from_str("InvalidPath"),
            CompileError::Image(_) => String::from_str("Image"),
        }
    }

    /// The error's message.
    pub fn message(&self) -> (r: String)
        ensures
            r@ == match self {
                CompileError::Format(e) => match e {
                    FormatError::JSON(m) => m@,
                    FormatError::YAML(m) => m@,
                },
                CompileError::IO(m) => m@,
                CompileError::InvalidPath(p) => "Invalid Path: "@ + p@ + "."@,
                CompileError::Image(m) => m@,
            },
    {
        match self {
            CompileError::Format(e) => e.message(),
            CompileError::IO(m) => m.clone(),
            CompileError::InvalidPath(p) => {
                let mut s = String::from_str("Invalid Path: ");
                s.append(p.as_str());
                s.append(".");
                s
            },
            CompileError::Image(m) => m.clone(),
        }
    }
}

} // verus!
