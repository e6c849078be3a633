use vstd::prelude::*;

use crate::parser::opt_view;
use crate::text::{
    chars_of, decimal, decimal_of, lines, lines_of, push_all, push_str, seqs_of, string_of, trim,
    trim_chars,
};

verus! {

/// What a search result shows besides its score: where the unit is and what it is.
#[derive(Debug, Clone)]
pub struct ResultEntry {
    pub file_path: String,
    pub unit_type: Option<String>,
    pub name: Option<String>,
    pub signature: Option<String>,
    pub code: Option<String>,
    pub start_line: Option<usize>,
    pub end_line: Option<usize>,
}

/// The path shown for a result: the one its metadata records, else `<unknown>`.
pub fn result_file_path(recorded: Option<String>) -> (res: String)
    ensures
        res@ == match recorded {
            Some(p) => p@,
            None => "<unknown>"@,
        },
{
    match recorded {
        Some(p) => p,
        None => <String as vstd::string::StringExecFns>::from_str("<unknown>"),
    }
}

/// Where a result is: its path, with its line or its span of lines.
pub open spec fn location_spec(r: ResultEntry) -> Seq<char> {
    match (r.start_line, r.end_line) {
        (Some(s), Some(e)) if s != e => r.file_path@ + ":"@ + decimal(s as nat) + "-"@ + decimal(e as nat),
        (Some(s), _) => r.file_path@ + ":"@ + decimal(s as nat),
        _ => r.file_path@,
    }
}

/// What a result is: its unit type and name, or one of them, else `unit`.
pub open spec fn label_spec(r: ResultEntry) -> Seq<char> {
    match (r.unit_type, r.name) {
        (Some(t), Some(n)) => t@ + " "@ + n@,
        (Some(t), None) => t@,
        (None, Some(n)) => n@,
        (None, None) => "unit"@,
    }
}

/// The rank of the result at index `i`: `i + 1`, right-aligned in two columns, and a dot.
pub open spec fn rank_spec(i: nat) -> Seq<char> {
    let d = decimal(i + 1);
    if d.len() < 2 {
        seq![' '] + d + "."@
    } else {
        d + "."@
    }
}

/// The signature line of a result, trimmed, when it is not blank.
pub open spec fn signature_spec(r: ResultEntry) -> Option<Seq<char>> {
    match r.signature {
        Some(s) => if trim(s@).len() > 0 {
            Some(trim(s@))
        } else {
            None
        },
        None => None,
    }
}

/// The code lines shown of a result: its first 40, when content is shown.
pub open spec fn code_lines_spec(r: ResultEntry, show_content: bool) -> Seq<Seq<char>> {
    if !show_content {
        seq![]
    } else {
        match r.code {
            Some(c) => if lines(c@).len() <= 40 {
                lines(c@)
            } else {
                lines(c@).take(40)
            },
            None => seq![],
        }
    }
}

/// Where a result is.
pub fn location(r: &ResultEntry) -> (res: String)
    ensures
        res@ == location_spec(*r),
{
    let mut v: Vec<char> = Vec::new();
    push_str(&mut v, r.file_path.as_str());
    match (r.start_line, r.end_line) {
        (Some(s), Some(e)) => {
            push_str(&mut v, ":");
            let a = decimal_of(s as u64);
            push_all(&mut v, a.as_slice());
            if s != e {
                push_str(&mut v, "-");
                let b = decimal_of(e as u64);
                push_all(&mut v, b.as_slice());
            }
        },
        (Some(s), None) => {
            push_str(&mut v, ":");
            let a = decimal_of(s as u64);
            push_all(&mut v, a.as_slice());
        },
        _ => {},
    }
    string_of(v.as_slice())
}

/// What a result is.
pub fn label(r: &ResultEntry) -> (res: String)
    ensures
        res@ == label_spec(*r),
{
    let mut v: Vec<char> = Vec::new();
    match (&r.unit_type, &r.name) {
        (Some(t), Some(n)) => {
            push_str(&mut v, t.as_str());
            push_str(&mut v, " ");
            push_str(&mut v, n.as_str());
        },
        (Some(t), None) => {
            push_str(&mut v, t.as_str());
        },
        (None, Some(n)) => {
            push_str(&mut v, n.as_str());
        },
        (None, None) => {
            push_str(&mut v, "unit");
        },
    }
    string_of(v.as_slice())
}

/// The rank of the result at index `i`.
pub fn rank_label(i: usize) -> (res: String)
    requires
        i < usize::MAX,
    ensures
        res@ == rank_spec(i as nat),
{
    let d = decimal_of((i + 1) as u64);
    let mut v: Vec<char> = Vec::new();
    if d.len() < 2 {
        v.push(' ');
    }
    push_all(&mut v, d.as_slice());
    push_str(&mut v, ".");
    string_of(v.as_slice())
}

/// One result as it is printed, but for its score.
#[derive(Debug, Clone)]
pub struct HumanEntry {
    pub rank: String,
    pub location: String,
    pub label: String,
    pub signature: Option<String>,
    pub code_lines: Vec<String>,
}

/// What the human-readable output shows.
#[derive(Debug, Clone)]
pub enum HumanOutput {
    /// There are no results.
    NoResults,
    /// The files of the results, each once, in the order of their first result.
    Files(Vec<String>),
    /// The results.
    Entries(Vec<HumanEntry>),
}

/// The entry printed for the result at index `i`.
pub open spec fn entry_matches(e: HumanEntry, r: ResultEntry, i: nat, show_content: bool) -> bool {
    &&& e.rank@ == rank_spec(i)
    &&& e.location@ == location_spec(r)
    &&& e.label@ == label_spec(r)
    &&& opt_view(e.signature) == signature_spec(r)
    &&& e.code_lines@.map_values(|s: String| s@) == code_lines_spec(r, show_content)
}

/// The paths of the results with repeats dropped, each where it first occurs.
pub open spec fn unique_paths(paths: Seq<Seq<char>>) -> Seq<Seq<char>>
    decreases paths.len(),
{
    if paths.len() == 0 {
        seq![]
    } else {
        let rest = unique_paths(paths.drop_last());
        if rest.contains(paths.last()) {
            rest
        } else {
            rest.push(paths.last())
        }
    }
}

/// The paths of results.
pub open spec fn result_paths(results: Seq<ResultEntry>) -> Seq<Seq<char>> {
    results.map_values(|r: ResultEntry| r.file_path@)
}

/// The printed entry of one result.
fn human_entry(r: &ResultEntry, i: usize, show_content: bool) -> (res: HumanEntry)
    requires
        i < usize::MAX,
    ensures
        entry_matches(res, *r, i as nat, show_content),
{
    let signature = match &r.signature {
        Some(s) => {
            let v = chars_of(s.as_str());
            let t = trim_chars(v.as_slice());
            if t.len() > 0 {
                Some(string_of(t.as_slice()))
            } else {
                None
            }
        },
        None => None,
    };
    let mut code_lines: Vec<String> = Vec::new();
    if show_content {
        match &r.code {
            Some(c) => {
                let v = chars_of(c.as_str());
                let ls = lines_of(v.as_slice());
                let n = if ls.len() <= 40 {
                    ls.len()
                } else {
                    40
                };
                let ghost all = seqs_of(ls@);
                for k in 0..n
                    invariant
                        n <= ls@.len(),
                        all == seqs_of(ls@),
                        code_lines@.map_values(|s: String| s@) == all.take(k as int),
                {
                    let ghost before = code_lines@.map_values(|s: String| s@);
                    let line = string_of(ls[k].as_slice());
                    assert(all[k as int] == ls@[k as int]@);
                    code_lines.push(line);
                    assert(code_lines@.map_values(|s: String| s@) =~= before.push(all[k as int]));
                    assert(all.take(k + 1) =~= all.take(k as int).push(all[k as int]));
                }
                assert(all.take(n as int) =~= if ls@.len() <= 40 { all } else { all.take(40) });
            },
            None => {
                assert(code_lines@.map_values(|s: String| s@) =~= seq![]);
            },
        }
    } else {
        assert(code_lines@.map_values(|s: String| s@) =~= seq![]);
    }
    HumanEntry {
        rank: rank_label(i),
        location: location(r),
        label: label(r),
        signature,
        code_lines,
    }
}

/// The human-readable output of the results: a notice when there are none; with
/// `files_only`, each file once; else each result's rank, location, label and signature,
/// with its first 40 code lines when `show_content`.
pub fn render_human(results: &Vec<ResultEntry>, files_only: bool, show_content: bool) -> (res: HumanOutput)
    ensures
        results@.len() == 0 ==> res is NoResults,
        results@.len() > 0 && files_only ==> (res matches HumanOutput::Files(f) && f@.map_values(
            |s: String| s@,
        ) == unique_paths(result_paths(results@))),
        results@.len() > 0 && !files_only ==> (res matches HumanOutput::Entries(es) && es@.len()
            == results@.len() && forall|i: int|
            0 <= i < es@.len() ==> entry_matches(#[trigger] es@[i], results@[i], i as nat, show_content)),
{
    if results.len() == 0 {
        return HumanOutput::NoResults;
    }
    if files_only {
        let ghost all = result_paths(results@);
        let mut seen: Vec<String> = Vec::new();
        for i in 0..results.len()
            invariant
                all == result_paths(results@),
                seen@.map_values(|s: String| s@) == unique_paths(all.take(i as int)),
        {
            let ghost sv = seen@.map_values(|s: String| s@);
            let p = chars_of(results[i].file_path.as_str());
            let mut found = false;
            let mut j: usize = 0;
            while j < seen.len()
                invariant
                    j <= seen@.len(),
                    sv == seen@.map_values(|s: String| s@),
                    p@ == results@[i as int].file_path@,
                    found == exists|q: int| 0 <= q < j && sv[q] == p@,
                decreases seen.len() - j,
            {
                let q = chars_of(seen[j].as_str());
                assert(sv[j as int] == seen@[j as int]@);
                if crate::text::chars_eq(q.as_slice(), p.as_slice()) {
                    found = true;
                } else {
                    assert((exists|q: int| 0 <= q < j + 1 && sv[q] == p@) ==> (exists|q: int| 0 <= q < j && sv[q] == p@));
                }
                j = j + 1;
            }
            assert(all.take(i + 1).drop_last() =~= all.take(i as int));
            assert(all.take(i + 1).last() == p@);
            assert(found == sv.contains(p@));
            if !found {
                seen.push(results[i].file_path.clone());
                assert(seen@.map_values(|s: String| s@) =~= sv.push(p@));
            }
        }
        assert(all.take(all.len() as int) =~= all);
        return HumanOutput::Files(seen);
    }
    let mut entries: Vec<HumanEntry> = Vec::new();
    for i in 0..results.len()
        invariant
            entries@.len() == i,
            forall|k: int| 0 <= k < i ==> entry_matches(#[trigger] entries@[k], results@[k], k as nat, show_content),
    {
        let e = human_entry(&results[i], i, show_content);
        entries.push(e);
    }
    HumanOutput::Entries(entries)
}

} // verus!
