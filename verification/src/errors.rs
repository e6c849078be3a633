use vstd::prelude::*;

use crate::text::{decimal, decimal_of, push_all, push_str, string_of};

verus! {

/// The failures that the library reports, each with the text of its message.
#[derive(Debug, Clone, PartialEq, Eq)]
pub enum SemgrepError {
    /// The tree-sitter grammar could not be loaded into the parser.
    LanguageSetup,
    /// The path given does not exist.
    PathNotFound(String),
    /// The path given could not be made canonical.
    Canonicalize(String),
    /// A file found under the root does not lie under it.
    NotUnderRoot { path: String, root: String },
    /// Neither a data directory nor a home directory is known.
    NoHomeDir,
    /// A batch of documents and its metadata differ in length.
    LengthMismatch { documents: usize, metadata: usize },
    /// A search needs a query unless it runs interactively.
    QueryRequired,
    /// The API answered with an error; the message is complete.
    Api(String),
}

impl SemgrepError {
    /// The text of the error message.
    pub open spec fn message_spec(&self) -> Seq<char> {
        match self {
            SemgrepError::LanguageSetup => "failed to set tree-sitter language"@,
            SemgrepError::PathNotFound(p) => "path does not exist: "@ + p@,
            SemgrepError::Canonicalize(p) => "failed to canonicalize "@ + p@,
            SemgrepError::NotUnderRoot { path, root } => path@ + " is not under "@ + root@,
            SemgrepError::NoHomeDir => "unable to determine home dir"@,
            SemgrepError::LengthMismatch { documents, metadata } => "documents length ("@
                + decimal(*documents as nat) + ") does not match metadata length ("@ + decimal(
                *metadata as nat,
            ) + ")"@,
            SemgrepError::QueryRequired => "query is required unless --interactive is used"@,
            SemgrepError::Api(m) => m@,
        }
    }

    /// The error message.
    pub fn message(&self) -> (res: String)
        ensures
            res@ == self.message_spec(),
    {
        let mut out: Vec<char> = Vec::new();
        match self {
            SemgrepError::LanguageSetup => {
                push_str(&mut out, "failed to set tree-sitter language");
            },
            SemgrepError::PathNotFound(p) => {
                push_str(&mut out, "path does not exist: ");
                push_str(&mut out, p.as_str());
            },
            SemgrepError::Canonicalize(p) => {
                push_str(&mut out, "failed to canonicalize ");
                push_str(&mut out, p.as_str());
            },
            SemgrepError::NotUnderRoot { path, root } => {
                push_str(&mut out, path.as_str());
                push_str(&mut out, " is not under ");
                push_str(&mut out, root.as_str());
            },
            SemgrepError::NoHomeDir => {
                push_str(&mut out, "unable to determine home dir");
            },
            SemgrepError::LengthMismatch { documents, metadata } => {
                push_str(&mut out, "documents length (");
                let d = decimal_of(*documents as u64);
                push_all(&mut out, d.as_slice());
                push_str(&mut out, ") does not match metadata length (");
                let m = decimal_of(*metadata as u64);
                push_all(&mut out, m.as_slice());
                push_str(&mut out, ")");
            },
            SemgrepError::QueryRequired => {
                push_str(&mut out, "query is required unless --interactive is used");
            },
            SemgrepError::Api(m) => {
                push_str(&mut out, m.as_str());
            },
        }
        string_of(out.as_slice())
    }
}

} // verus!
