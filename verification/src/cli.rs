use vstd::prelude::*;

use crate::errors::SemgrepError;
use crate::text::{chars_eq, chars_of, lower, string_of, to_ascii_lowercase, trim, trim_chars};

verus! {

/// The languages that a search or an index can be restricted to.
#[derive(Debug, Clone, Copy, PartialEq, Eq)]
pub enum LangArg {
    Python,
    Javascript,
    Typescript,
    Rust,
    Go,
}

impl LangArg {
    /// The language's name, as units record it.
    pub open spec fn name(self) -> Seq<char> {
        match self {
            LangArg::Python => "python"@,
            LangArg::Javascript => "javascript"@,
            LangArg::Typescript => "typescript"@,
            LangArg::Rust => "rust"@,
            LangArg::Go => "go"@,
        }
    }

    /// The language's name, as units record it.
    pub fn as_str(&self) -> (res: &'static str)
        ensures
            res@ == self.name(),
    {
        match self {
            LangArg::Python => "python",
            LangArg::Javascript => "javascript",
            LangArg::Typescript => "typescript",
            LangArg::Rust => "rust",
            LangArg::Go => "go",
        }
    }
}

/// The command line: a search, or a subcommand.
#[derive(Debug, Clone)]
pub struct Cli {
    pub command: Option<Commands>,
    pub query: Option<String>,
    pub path: String,
    pub lang: Option<LangArg>,
    pub ext: Option<String>,
    pub num: usize,
    pub json: bool,
    pub interactive: bool,
    pub url: Option<String>,
    pub index: Option<String>,
    pub files_only: bool,
    pub show_content: bool,
}

/// The subcommands.
#[derive(Debug, Clone)]
pub enum Commands {
    /// Index a project without searching.
    Init {
        path: String,
        lang: Option<LangArg>,
        ext: Option<String>,
        url: Option<String>,
        index: Option<String>,
    },
    /// Remove the index of a project, or all indices of this tool.
    Clear { path: String, all: bool, url: Option<String>, index: Option<String> },
}

/// How a search runs: reading queries one by one, or with the query given.
#[derive(Debug, Clone, PartialEq, Eq)]
pub enum SearchMode {
    Interactive,
    Single(String),
}

/// A search's mode and the number of results it asks for.
#[derive(Debug, Clone, PartialEq, Eq)]
pub struct SearchPlan {
    pub mode: SearchMode,
    pub top_k: usize,
}

/// How a search runs: interactively if asked, else with the query given, which it then
/// needs; it asks for `num` results, and at least one.
pub fn plan_search(query: Option<String>, interactive: bool, num: usize) -> (res: Result<SearchPlan, SemgrepError>)
    ensures
        match res {
            Ok(p) => p.top_k == if num == 0 {
                1
            } else {
                num
            } && if interactive {
                p.mode == SearchMode::Interactive
            } else {
                query matches Some(q) && p.mode matches SearchMode::Single(s) && s@ == q@
            },
            Err(e) => !interactive && query is None && e == SemgrepError::QueryRequired,
        },
{
    let top_k = if num == 0 {
        1
    } else {
        num
    };
    if interactive {
        return Ok(SearchPlan { mode: SearchMode::Interactive, top_k });
    }
    match query {
        Some(q) => Ok(SearchPlan { mode: SearchMode::Single(q), top_k }),
        None => Err(SemgrepError::QueryRequired),
    }
}

/// What a line read in interactive mode asks for.
#[derive(Debug, Clone, PartialEq, Eq)]
pub enum InteractiveInput {
    /// A blank line: read the next.
    Skip,
    /// `exit` or `quit` in any case: stop.
    Quit,
    /// A query: the trimmed line.
    Query(String),
}

/// What a line read in interactive mode asks for: nothing when blank, to stop when it is
/// `exit` or `quit` in any ASCII case, else a search for the trimmed line.
pub open spec fn interactive_input_spec(line: Seq<char>) -> Option<Option<Seq<char>>> {
    let t = trim(line);
    if t.len() == 0 {
        None
    } else if lower(t) == lower("exit"@) || lower(t) == lower("quit"@) {
        Some(None)
    } else {
        Some(Some(t))
    }
}

/// What a line read in interactive mode asks for.
pub fn interactive_input(line: &str) -> (res: InteractiveInput)
    ensures
        match interactive_input_spec(line@) {
            None => res == InteractiveInput::Skip,
            Some(None) => res == InteractiveInput::Quit,
            Some(Some(q)) => res matches InteractiveInput::Query(s) && s@ == q,
        },
{
    let v = chars_of(line);
    let t = trim_chars(v.as_slice());
    if t.len() == 0 {
        return InteractiveInput::Skip;
    }
    let l = to_ascii_lowercase(t.as_slice());
    let exit = chars_of("exit");
    let quit = chars_of("quit");
    let le = to_ascii_lowercase(exit.as_slice());
    let lq = to_ascii_lowercase(quit.as_slice());
    if chars_eq(l.as_slice(), le.as_slice()) || chars_eq(l.as_slice(), lq.as_slice()) {
        InteractiveInput::Quit
    } else {
        InteractiveInput::Query(string_of(t.as_slice()))
    }
}

} // verus!
