use vstd::prelude::*;

use crate::order::{sort_paths, sorted_paths};
use crate::paths::{detect_language, extension_of, language_of_path, path_extension};
use crate::text::{chars_eq, chars_of, lower, push_all, string_of, to_ascii_lowercase};

verus! {

/// An extension filter with its leading dot: `rs` and `.rs` both mean `.rs`.
pub open spec fn normalized_extension(e: Seq<char>) -> Seq<char> {
    if e.len() > 0 && e[0] == '.' {
        e
    } else {
        seq!['.'] + e
    }
}

/// An optional extension filter, normalized.
pub open spec fn normalized_opt(e: Option<Seq<char>>) -> Option<Seq<char>> {
    match e {
        Some(x) => Some(normalized_extension(x)),
        None => None,
    }
}

/// The extension of a path, lower-cased, after a dot; empty when it has none.
pub open spec fn dotted_extension(path: Seq<char>) -> Seq<char> {
    match path_extension(path) {
        Some(e) => seq!['.'] + lower(e),
        None => seq![],
    }
}

/// Whether a file found by the walk is searched: it is in a supported language, in the
/// language asked for if any, and has the extension asked for if any.
pub open spec fn is_candidate(path: Seq<char>, language: Option<Seq<char>>, extension: Option<Seq<char>>) -> bool {
    match language_of_path(path) {
        None => false,
        Some(l) => {
            &&& match language {
                Some(w) => l.name() == w,
                None => true,
            }
            &&& match extension {
                Some(e) => dotted_extension(path) == normalized_extension(e),
                None => true,
            }
        },
    }
}

/// The views of a sequence of strings.
pub open spec fn strings_view(v: Seq<String>) -> Seq<Seq<char>> {
    v.map_values(|s: String| s@)
}

/// The paths of `paths` that `is_candidate` keeps, in their order.
pub open spec fn candidates(paths: Seq<Seq<char>>, language: Option<Seq<char>>, extension: Option<Seq<char>>) -> Seq<Seq<char>> {
    paths.filter(|p: Seq<char>| is_candidate(p, language, extension))
}

/// `ext` with a leading dot.
pub fn normalize_extension(ext: &str) -> (res: String)
    ensures
        res@ == normalized_extension(ext@),
{
    let e = chars_of(ext);
    if e.len() > 0 && e[0] == '.' {
        string_of(e.as_slice())
    } else {
        let mut out: Vec<char> = Vec::new();
        out.push('.');
        push_all(&mut out, e.as_slice());
        assert(out@ =~= seq!['.'] + ext@);
        string_of(out.as_slice())
    }
}

/// Whether the file at `path` is searched.
fn is_candidate_file(path: &str, language: Option<&str>, extension: &Option<Vec<char>>) -> (res: bool)
    requires
        extension matches Some(e) ==> e@ == normalized_extension(e@),
    ensures
        res == is_candidate(
            path@,
            crate::parser::opt_str_view(language),
            match extension {
                Some(e) => Some(e@),
                None => None,
            },
        ),
{
    let lang = match detect_language(path) {
        Some(l) => l,
        None => return false,
    };
    match language {
        Some(w) => {
            let name = chars_of(lang.as_str());
            let wv = chars_of(w);
            if !chars_eq(name.as_slice(), wv.as_slice()) {
                return false;
            }
        },
        None => {},
    }
    match extension {
        Some(e) => {
            let p = chars_of(path);
            let dotted = match extension_of(p.as_slice()) {
                Some(x) => {
                    let lx = to_ascii_lowercase(x.as_slice());
                    let mut d: Vec<char> = Vec::new();
                    d.push('.');
                    push_all(&mut d, lx.as_slice());
                    assert(d@ =~= seq!['.'] + lower(x@));
                    d
                },
                None => Vec::new(),
            };
            assert(dotted@ == dotted_extension(path@));
            assert(normalized_extension(e@) == e@);
            chars_eq(dotted.as_slice(), e.as_slice())
        },
        None => true,
    }
}

/// The files that are searched, out of the files that the walk found, in `PathBuf`'s order:
/// those in a supported language, in `language` if given, with extension `extension` (dot
/// or not) if given.
pub fn select_candidate_files(paths: Vec<String>, language: Option<&str>, extension: Option<&str>) -> (res: Vec<String>)
    ensures
        sorted_paths(strings_view(res@)),
        strings_view(res@).to_multiset() == candidates(
            strings_view(paths@),
            crate::parser::opt_str_view(language),
            normalized_opt(crate::parser::opt_str_view(extension)),
        ).to_multiset(),
{
    let ext: Option<Vec<char>> = match extension {
        Some(e) => {
            let n = normalize_extension(e);
            Some(chars_of(n.as_str()))
        },
        None => None,
    };
    let ghost lang_v = crate::parser::opt_str_view(language);
    let ghost ext_v = normalized_opt(crate::parser::opt_str_view(extension));
    assert(ext_v == match ext { Some(e) => Some(e@), None => None::<Seq<char>> });
    assert(ext matches Some(e) ==> e@ == normalized_extension(e@)) by {
        if let Some(e) = ext {
            let x = extension->0@;
            if x.len() > 0 && x[0] == '.' {
            } else {
                assert(e@[0] == '.');
            }
        }
    }
    let ghost pv = strings_view(paths@);
    let ghost pred = |p: Seq<char>| is_candidate(p, lang_v, ext_v);
    let mut kept: Vec<String> = Vec::new();
    for i in 0..paths.len()
        invariant
            pv == strings_view(paths@),
            ext_v == match ext { Some(e) => Some(e@), None => None::<Seq<char>> },
            ext matches Some(e) ==> e@ == normalized_extension(e@),
            pred == (|p: Seq<char>| is_candidate(p, lang_v, ext_v)),
            lang_v == crate::parser::opt_str_view(language),
            strings_view(kept@) == pv.take(i as int).filter(pred),
    {
        proof {
            reveal(Seq::filter);
            assert(pv.take(i + 1).drop_last() =~= pv.take(i as int));
            assert(pv.take(i + 1).last() == paths@[i as int]@);
        }
        if is_candidate_file(paths[i].as_str(), language, &ext) {
            let ghost before = strings_view(kept@);
            kept.push(paths[i].clone());
            assert(strings_view(kept@) =~= before.push(paths@[i as int]@));
        }
    }
    assert(pv.take(pv.len() as int) =~= pv);
    sort_paths(kept)
}

} // verus!
