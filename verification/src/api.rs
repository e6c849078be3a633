use vstd::prelude::*;

use std::hash::{Hash, Hasher};

use crate::errors::SemgrepError;
use crate::paths::{file_name, file_name_of, parent, parent_of};
use crate::scan::normalized_extension;
use crate::text::{
    chars_of, hex, hex_of, is_ascii_alnum, join, lower, push_all, push_str, seqs_of, string_of,
    to_ascii_lowercase, trim, trim_chars,
};

verus! {

/// A restriction of a search to one file, by its path relative to the root.
#[derive(Debug, Clone, PartialEq, Eq)]
pub enum PathFilter {
    Exact(String),
}

/// The filter clauses and their parameters for a search, in order: the exact file, the
/// language, the extension.
pub open spec fn filter_parts(
    path_filter: Option<Seq<char>>,
    language: Option<Seq<char>>,
    extension: Option<Seq<char>>,
) -> (Seq<Seq<char>>, Seq<Seq<char>>) {
    let (c1, p1) = match path_filter {
        Some(p) => (seq!["file_path = ?"@], seq![p]),
        None => (seq![], seq![]),
    };
    let (c2, p2) = match language {
        Some(l) => (seq!["language = ?"@], seq![l]),
        None => (seq![], seq![]),
    };
    let (c3, p3) = match extension {
        Some(e) => (seq!["file_path LIKE ?"@], seq![seq!['%'] + normalized_extension(e)]),
        None => (seq![], seq![]),
    };
    (c1 + c2 + c3, p1 + p2 + p3)
}

/// The filter of a search: its clauses joined with ` AND `, and their parameters; `None`
/// when nothing restricts the search.
pub open spec fn filter_spec(
    path_filter: Option<Seq<char>>,
    language: Option<Seq<char>>,
    extension: Option<Seq<char>>,
) -> Option<(Seq<char>, Seq<Seq<char>>)> {
    let (clauses, params) = filter_parts(path_filter, language, extension);
    if clauses.len() == 0 {
        None
    } else {
        Some((join(clauses, " AND "@), params))
    }
}

/// The view of an optional path filter.
pub open spec fn path_filter_view(pf: Option<&PathFilter>) -> Option<Seq<char>> {
    match pf {
        Some(PathFilter::Exact(p)) => Some(p@),
        None => None,
    }
}

/// The views of a sequence of strings.
pub open spec fn strings_of(v: Seq<String>) -> Seq<Seq<char>> {
    v.map_values(|s: String| s@)
}

/// The filter condition and its string parameters for a search restricted to a file, a
/// language and an extension, each if given.
pub fn build_filter(path_filter: Option<&PathFilter>, language: Option<&str>, extension: Option<&str>) -> (res: Option<(String, Vec<String>)>)
    ensures
        match filter_spec(
            path_filter_view(path_filter),
            crate::parser::opt_str_view(language),
            crate::parser::opt_str_view(extension),
        ) {
            Some((c, p)) => res matches Some((rc, rp)) && rc@ == c && strings_of(rp@) == p,
            None => res is None,
        },
{
    let mut clauses: Vec<Vec<char>> = Vec::new();
    let mut params: Vec<String> = Vec::new();
    let ghost (c1, p1) = match path_filter_view(path_filter) {
        Some(p) => (seq!["file_path = ?"@], seq![p]),
        None => (seq![], seq![]),
    };
    let ghost (c2, p2) = match crate::parser::opt_str_view(language) {
        Some(l) => (seq!["language = ?"@], seq![l]),
        None => (seq![], seq![]),
    };
    let ghost (c3, p3) = match crate::parser::opt_str_view(extension) {
        Some(e) => (seq!["file_path LIKE ?"@], seq![seq!['%'] + normalized_extension(e)]),
        None => (seq![], seq![]),
    };
    match path_filter {
        Some(PathFilter::Exact(p)) => {
            clauses.push(chars_of("file_path = ?"));
            params.push(p.clone());
        },
        None => {},
    }
    assert(seqs_of(clauses@) =~= c1);
    assert(strings_of(params@) =~= p1);
    match language {
        Some(l) => {
            clauses.push(chars_of("language = ?"));
            params.push(<String as vstd::string::StringExecFns>::from_str(l));
        },
        None => {},
    }
    assert(seqs_of(clauses@) =~= c1 + c2);
    assert(strings_of(params@) =~= p1 + p2);
    match extension {
        Some(e) => {
            clauses.push(chars_of("file_path LIKE ?"));
            let n = crate::scan::normalize_extension(e);
            let mut v: Vec<char> = Vec::new();
            v.push('%');
            push_str(&mut v, n.as_str());
            assert(v@ =~= seq!['%'] + normalized_extension(e@));
            params.push(string_of(v.as_slice()));
        },
        None => {},
    }
    assert(seqs_of(clauses@) =~= c1 + c2 + c3);
    assert(strings_of(params@) =~= p1 + p2 + p3);
    if clauses.len() == 0 {
        return None;
    }
    let joined = join_with(&clauses, " AND ");
    Some((string_of(joined.as_slice()), params))
}

/// The parts joined with `sep` between each two.
fn join_with(parts: &Vec<Vec<char>>, sep: &str) -> (res: Vec<char>)
    ensures
        res@ == join(seqs_of(parts@), sep@),
{
    let ghost all = seqs_of(parts@);
    let sv = chars_of(sep);
    let mut out: Vec<char> = Vec::new();
    for i in 0..parts.len()
        invariant
            all == seqs_of(parts@),
            sv@ == sep@,
            out@ == join(all.take(i as int), sep@),
    {
        assert(all.take(i + 1).drop_last() =~= all.take(i as int));
        assert(all.take(i + 1).last() == parts@[i as int]@);
        if i > 0 {
            push_all(&mut out, sv.as_slice());
        } else {
            assert(out@ =~= seq![]);
        }
        push_all(&mut out, parts[i].as_slice());
        assert(out@ =~= join(all.take(i + 1), sep@));
    }
    assert(all.take(all.len() as int) =~= all);
    out
}

/// A character of an index name: ASCII letters and digits, `-` and `_`; any other becomes `-`.
pub open spec fn index_name_char(c: char) -> char {
    if is_ascii_alnum(c) || c == '-' || c == '_' {
        c
    } else {
        '-'
    }
}

/// `s` without leading `-`.
pub open spec fn trim_dashes_start(s: Seq<char>) -> Seq<char>
    decreases s.len(),
{
    if s.len() > 0 && s[0] == '-' {
        trim_dashes_start(s.drop_first())
    } else {
        s
    }
}

/// `s` without trailing `-`.
pub open spec fn trim_dashes_end(s: Seq<char>) -> Seq<char>
    decreases s.len(),
{
    if s.len() > 0 && s.last() == '-' {
        trim_dashes_end(s.drop_last())
    } else {
        s
    }
}

/// A project name made fit for an index name: other characters made `-`, leading and
/// trailing `-` dropped, lower-cased; `project` when nothing is left.
pub open spec fn sanitized_index_part(s: Seq<char>) -> Seq<char> {
    let cleaned = trim_dashes_end(trim_dashes_start(s.map_values(|c: char| index_name_char(c))));
    if cleaned.len() == 0 {
        "project"@
    } else {
        lower(cleaned)
    }
}

/// A project name made fit for an index name.
pub fn sanitize_index_part(s: &str) -> (res: String)
    ensures
        res@ == sanitized_index_part(s@),
{
    let v = chars_of(s);
    let ghost mapped = s@.map_values(|c: char| index_name_char(c));
    let mut cleaned: Vec<char> = Vec::new();
    for i in 0..v.len()
        invariant
            v@ == s@,
            mapped == s@.map_values(|c: char| index_name_char(c)),
            cleaned@ == mapped.take(i as int),
    {
        let c = v[i];
        if crate::text::is_ascii_alphanumeric(c) || c == '-' || c == '_' {
            cleaned.push(c);
        } else {
            cleaned.push('-');
        }
        assert(cleaned@ =~= mapped.take(i + 1));
    }
    assert(mapped.take(mapped.len() as int) =~= mapped);
    let mut a: usize = 0;
    assert(mapped.subrange(0, mapped.len() as int) =~= mapped);
    while a < cleaned.len() && cleaned[a] == '-'
        invariant
            a <= cleaned@.len(),
            cleaned@ == mapped,
            trim_dashes_start(mapped) == trim_dashes_start(mapped.subrange(a as int, mapped.len() as int)),
        decreases cleaned.len() - a,
    {
        assert(mapped.subrange(a as int, mapped.len() as int).drop_first() =~= mapped.subrange(
            a + 1,
            mapped.len() as int,
        ));
        a = a + 1;
    }
    let front = crate::text::sub_chars(cleaned.as_slice(), a, cleaned.len());
    let mut b = front.len();
    assert(front@.subrange(0, front@.len() as int) =~= front@);
    while b > 0 && front[b - 1] == '-'
        invariant
            b <= front@.len(),
            trim_dashes_end(front@) == trim_dashes_end(front@.subrange(0, b as int)),
        decreases b,
    {
        assert(front@.subrange(0, b as int).drop_last() =~= front@.subrange(0, b - 1));
        b = b - 1;
    }
    let trimmed = crate::text::sub_chars(front.as_slice(), 0, b);
    if trimmed.len() == 0 {
        <String as vstd::string::StringExecFns>::from_str("project")
    } else {
        let l = to_ascii_lowercase(trimmed.as_slice());
        string_of(l.as_slice())
    }
}

/// The base URL of the API: the one given on the command line, else the one in the
/// environment, else the local default.
pub open spec fn base_url_spec(cli_url: Option<Seq<char>>, env_url: Option<Seq<char>>) -> Seq<char> {
    match cli_url {
        Some(u) => u,
        None => match env_url {
            Some(u) => u,
            None => "http://127.0.0.1:8080"@,
        },
    }
}

/// The base URL of the API, from the command line (`cli_url`) or the environment
/// (`env_url`, `SEMGREP_URL`), else `http://127.0.0.1:8080`.
pub fn resolve_base_url(cli_url: Option<String>, env_url: Option<String>) -> (res: String)
    ensures
        res@ == base_url_spec(crate::parser::opt_view(cli_url), crate::parser::opt_view(env_url)),
{
    match cli_url {
        Some(u) => u,
        None => match env_url {
            Some(u) => u,
            None => <String as vstd::string::StringExecFns>::from_str("http://127.0.0.1:8080"),
        },
    }
}

/// `Hash` of a string slice with `DefaultHasher`.
pub uninterp spec fn text_hash(s: Seq<char>) -> u64;

/// Hashes a string with std's `DefaultHasher` (`Hash` for `str`, then `finish`). The
/// contract claims only that the result is a function of the text: `DefaultHasher::new`
/// starts from fixed keys.
#[verifier::external_body]
fn hash_text(s: &str) -> (h: u64)
    ensures
        h == text_hash(s@),
{
    let mut hasher = std::collections::hash_map::DefaultHasher::new();
    s.hash(&mut hasher);
    hasher.finish()
}

/// `Hash` of a `Path` (by its components) with `DefaultHasher`.
pub uninterp spec fn path_hash(p: Seq<char>) -> u64;

/// Hashes a path with std's `DefaultHasher` (`Hash` for `Path`, then `finish`). The
/// contract claims only that the result is a function of the path's text.
#[verifier::external_body]
fn hash_path(p: &str) -> (h: u64)
    ensures
        h == path_hash(p@),
{
    let mut hasher = std::collections::hash_map::DefaultHasher::new();
    std::path::Path::new(p).hash(&mut hasher);
    hasher.finish()
}

/// The index name of a project: the one given on the command line, else a non-blank one in
/// the environment, else `semgrep-` with the project's directory name made fit and the
/// hexadecimal hash of its root path.
pub open spec fn index_name_spec(root: Seq<char>, cli_index: Option<Seq<char>>, env_index: Option<Seq<char>>) -> Seq<char> {
    match cli_index {
        Some(v) => v,
        None => match env_index {
            Some(v) if trim(v).len() > 0 => v,
            _ => {
                let project = match file_name(root) {
                    Some(n) => n,
                    None => "project"@,
                };
                "semgrep-"@ + sanitized_index_part(project) + "-"@ + hex(text_hash(root) as nat)
            },
        },
    }
}

/// The index name of the project at `root`, from the command line (`cli_index`), the
/// environment (`env_index`, `SEMGREP_INDEX`), or the project itself.
pub fn resolve_index_name(root: &str, cli_index: Option<String>, env_index: Option<String>) -> (res: String)
    ensures
        res@ == index_name_spec(root@, crate::parser::opt_view(cli_index), crate::parser::opt_view(env_index)),
{
    if let Some(v) = cli_index {
        return v;
    }
    if let Some(v) = env_index {
        let vv = chars_of(v.as_str());
        let t = trim_chars(vv.as_slice());
        if t.len() > 0 {
            return v;
        }
    }
    let rv = chars_of(root);
    let project = match file_name_of(rv.as_slice()) {
        Some(n) => string_of(n.as_slice()),
        None => <String as vstd::string::StringExecFns>::from_str("project"),
    };
    let part = sanitize_index_part(project.as_str());
    let h = hash_text(root);
    let hx = hex_of(h);
    let mut out: Vec<char> = Vec::new();
    push_str(&mut out, "semgrep-");
    push_str(&mut out, part.as_str());
    push_str(&mut out, "-");
    push_all(&mut out, hx.as_slice());
    string_of(out.as_slice())
}

/// What the file system said of the path that a search or an index is given.
#[derive(Debug, Clone, PartialEq, Eq)]
pub enum PathStatus {
    /// Nothing exists at the path.
    Missing,
    /// The path exists but could not be made canonical.
    Unresolvable,
    /// The canonical form of the path, and whether it is a file.
    Resolved { canonical: String, is_file: bool },
}

/// The root of a search and its file filter: a file's parent (`.` if none) with the file's
/// name as filter, or a directory itself.
pub open spec fn root_and_filter_spec(status: PathStatus) -> Option<(Seq<char>, Option<Seq<char>>)> {
    match status {
        PathStatus::Resolved { canonical, is_file } => if is_file {
            let p = match parent(canonical@) {
                Some(p) => p,
                None => "."@,
            };
            let f = match file_name(canonical@) {
                Some(f) => f,
                None => seq![],
            };
            Some((p, Some(f)))
        } else {
            Some((canonical@, None))
        },
        _ => None,
    }
}

/// The root of a search and its file filter, from what the file system said of `path`.
pub fn resolve_root_and_path_filter(path: &str, status: PathStatus) -> (res: Result<(String, Option<PathFilter>), SemgrepError>)
    ensures
        match status {
            PathStatus::Missing => res matches Err(SemgrepError::PathNotFound(p)) && p@ == path@,
            PathStatus::Unresolvable => res matches Err(SemgrepError::Canonicalize(p)) && p@ == path@,
            PathStatus::Resolved { .. } => res matches Ok((root, filter)) && root_and_filter_spec(status) == Some(
                (
                    root@,
                    match filter {
                        Some(PathFilter::Exact(f)) => Some(f@),
                        None => None,
                    },
                ),
            ),
        },
{
    match status {
        PathStatus::Missing => Err(
            SemgrepError::PathNotFound(<String as vstd::string::StringExecFns>::from_str(path)),
        ),
        PathStatus::Unresolvable => Err(
            SemgrepError::Canonicalize(<String as vstd::string::StringExecFns>::from_str(path)),
        ),
        PathStatus::Resolved { canonical, is_file } => {
            if is_file {
                let cv = chars_of(canonical.as_str());
                let p = match parent_of(cv.as_slice()) {
                    Some(p) => string_of(p.as_slice()),
                    None => <String as vstd::string::StringExecFns>::from_str("."),
                };
                let f = match file_name_of(cv.as_slice()) {
                    Some(f) => string_of(f.as_slice()),
                    None => string_of(Vec::<char>::new().as_slice()),
                };
                Ok((p, Some(PathFilter::Exact(f))))
            } else {
                Ok((canonical, None))
            }
        },
    }
}

/// `PathBuf::join` of a relative name: `name` after a `/`, unless `dir` is empty or already
/// ends with one.
pub open spec fn join_path(dir: Seq<char>, name: Seq<char>) -> Seq<char> {
    if dir.len() == 0 || dir.last() == '/' {
        dir + name
    } else {
        dir + seq!['/'] + name
    }
}

/// The directory of the state files: `semgrep/states` under the data directory, else
/// `.local/share/semgrep/states` under the home directory; `None` when neither is known.
pub open spec fn states_dir_spec(data_dir: Option<Seq<char>>, home_dir: Option<Seq<char>>) -> Option<Seq<char>> {
    match data_dir {
        Some(d) => Some(join_path(join_path(d, "semgrep"@), "states"@)),
        None => match home_dir {
            Some(h) => Some(
                join_path(join_path(join_path(join_path(h, ".local"@), "share"@), "semgrep"@), "states"@),
            ),
            None => None,
        },
    }
}

/// `dir` joined with the relative name `name`.
fn join_path_exec(dir: &[char], name: &str) -> (res: Vec<char>)
    ensures
        res@ == join_path(dir@, name@),
{
    let mut out: Vec<char> = Vec::new();
    push_all(&mut out, dir);
    if !(dir.len() == 0 || dir[dir.len() - 1] == '/') {
        out.push('/');
    }
    push_str(&mut out, name);
    out
}

/// The user's data directory (`dirs::data_dir`), as text (lossy where it is not UTF-8). It
/// depends on the environment, so nothing is claimed of it.
#[verifier::external_body]
fn user_data_dir() -> Option<String> {
    dirs::data_dir().map(|d| d.to_string_lossy().into_owned())
}

/// The user's home directory (`dirs::home_dir`), as text (lossy where it is not UTF-8). It
/// depends on the environment, so nothing is claimed of it.
#[verifier::external_body]
fn user_home_dir() -> Option<String> {
    dirs::home_dir().map(|d| d.to_string_lossy().into_owned())
}

/// The directory of the state files, from the data and home directories given.
pub fn states_dir_from(data_dir: Option<String>, home_dir: Option<String>) -> (res: Result<String, SemgrepError>)
    ensures
        match states_dir_spec(crate::parser::opt_view(data_dir), crate::parser::opt_view(home_dir)) {
            Some(p) => res matches Ok(s) && s@ == p,
            None => res == Err::<String, SemgrepError>(SemgrepError::NoHomeDir),
        },
{
    match data_dir {
        Some(d) => {
            let dv = chars_of(d.as_str());
            let a = join_path_exec(dv.as_slice(), "semgrep");
            let b = join_path_exec(a.as_slice(), "states");
            Ok(string_of(b.as_slice()))
        },
        None => match home_dir {
            Some(h) => {
                let hv = chars_of(h.as_str());
                let a = join_path_exec(hv.as_slice(), ".local");
                let b = join_path_exec(a.as_slice(), "share");
                let c = join_path_exec(b.as_slice(), "semgrep");
                let d = join_path_exec(c.as_slice(), "states");
                Ok(string_of(d.as_slice()))
            },
            None => Err(SemgrepError::NoHomeDir),
        },
    }
}

/// The directory of the state files, found from the user's directories.
pub fn local_states_dir() -> (res: Result<String, SemgrepError>)
    ensures
        exists|d: Option<Seq<char>>, h: Option<Seq<char>>|
            match #[trigger] states_dir_spec(d, h) {
                Some(p) => res matches Ok(s) && s@ == p,
                None => res == Err::<String, SemgrepError>(SemgrepError::NoHomeDir),
            },
{
    let d = user_data_dir();
    let h = user_home_dir();
    let res = states_dir_from(d, h);
    proof {
        let dv = crate::parser::opt_view(d);
        let hv = crate::parser::opt_view(h);
        assert(match states_dir_spec(dv, hv) {
            Some(p) => res matches Ok(s) && s@ == p,
            None => res == Err::<String, SemgrepError>(SemgrepError::NoHomeDir),
        });
    }
    res
}

/// In one directory of state files, a project's state file is fixed by its canonical root,
/// and is named by 1 to 16 lower-case hexadecimal digits and `.json`.
pub proof fn law_state_file_fixed_by_root(dir: Seq<char>, root_a: Seq<char>, root_b: Seq<char>)
    ensures
        root_a == root_b ==> join_path(dir, state_file_name(root_a)) == join_path(dir, state_file_name(root_b)),
        state_file_name(root_a) == hex(path_hash(root_a) as nat) + ".json"@,
        1 <= hex(path_hash(root_a) as nat).len() <= 16,
        forall|i: int|
            0 <= i < hex(path_hash(root_a) as nat).len() ==> crate::text::is_hex_digit(
                #[trigger] hex(path_hash(root_a) as nat)[i],
            ),
{
    crate::text::lemma_hex_u64(path_hash(root_a));
}

/// The name of the state file of a project: the hexadecimal hash of its canonical root, and
/// `.json`.
pub open spec fn state_file_name(canonical_root: Seq<char>) -> Seq<char> {
    hex(path_hash(canonical_root) as nat) + ".json"@
}

/// The path of the state file of the project whose canonical root is `canonical_root`, in
/// the directory of state files.
pub fn get_state_file_path(canonical_root: &str) -> (res: Result<String, SemgrepError>)
    ensures
        exists|d: Option<Seq<char>>, h: Option<Seq<char>>|
            match #[trigger] states_dir_spec(d, h) {
                Some(p) => res matches Ok(s) && s@ == join_path(p, state_file_name(canonical_root@)),
                None => res == Err::<String, SemgrepError>(SemgrepError::NoHomeDir),
            },
{
    let dir = local_states_dir();
    match dir {
        Ok(d) => Ok(state_file_path_in(d.as_str(), canonical_root)),
        Err(e) => Err(e),
    }
}

/// The path of the state file of the project whose canonical root is `canonical_root`, in
/// the directory of state files `dir`.
pub fn state_file_path_in(dir: &str, canonical_root: &str) -> (res: String)
    ensures
        res@ == join_path(dir@, state_file_name(canonical_root@)),
{
    let name = state_file_name_exec(canonical_root);
    let dv = chars_of(dir);
    let p = join_path_exec(dv.as_slice(), name.as_str());
    string_of(p.as_slice())
}

/// The name of the state file of a project.
fn state_file_name_exec(canonical_root: &str) -> (res: String)
    ensures
        res@ == state_file_name(canonical_root@),
{
    let h = hash_path(canonical_root);
    let mut v = hex_of(h);
    push_str(&mut v, ".json");
    string_of(v.as_slice())
}

/// The path of the state file of a project: the one `get_state_file_path` gives, else the
/// same name under `.local/share/semgrep/states` in the home directory.
pub fn state_path(canonical_root: &str) -> (res: Result<String, SemgrepError>)
    ensures
        exists|d: Option<Seq<char>>, h: Option<Seq<char>>|
            match #[trigger] states_dir_spec(d, h) {
                Some(p) => res matches Ok(s) && s@ == join_path(p, state_file_name(canonical_root@)),
                None => res == Err::<String, SemgrepError>(SemgrepError::NoHomeDir),
            },
{
    let first = get_state_file_path(canonical_root);
    if first.is_ok() {
        return first;
    }
    let h = user_home_dir();
    let res = match h {
        Some(home) => {
            let name = state_file_name_exec(canonical_root);
            let hv = chars_of(home.as_str());
            let a = join_path_exec(hv.as_slice(), ".local");
            let b = join_path_exec(a.as_slice(), "share");
            let c = join_path_exec(b.as_slice(), "semgrep");
            let d = join_path_exec(c.as_slice(), "states");
            let p = join_path_exec(d.as_slice(), name.as_str());
            Ok(string_of(p.as_slice()))
        },
        None => Err(SemgrepError::NoHomeDir),
    };
    proof {
        let hv = crate::parser::opt_view(h);
        assert(match states_dir_spec(None, hv) {
            Some(p) => res matches Ok(s) && s@ == join_path(p, state_file_name(canonical_root@)),
            None => res == Err::<String, SemgrepError>(SemgrepError::NoHomeDir),
        });
    }
    res
}

} // verus!
