use vstd::prelude::*;

use crate::api::{filter_parts, index_name_spec, sanitized_index_part, index_name_char, trim_dashes_end, trim_dashes_start};
use crate::api::join_path;
use crate::client::{is_tool_index, trim_end_slashes};
use crate::paths::{
    component_spans, components, dot, forward_slashes, has_root, kept_pieces, kept_spans,
    lemma_kept_spans_match, lemma_split_total, piece_offset, relative_path_spec, root_component,
    split, split_upto,
};
use crate::text::join;
use crate::display::unique_paths;
use crate::parser::{collect_children, collect_node, unit_spec, units_from_tree_spec, Language, SyntaxNode};
use crate::scan::normalized_extension;
use crate::text::{lower, lower_char};

verus! {

/// Every unit found in a file records that file's path and language, and a parsed file
/// gives at least one unit (the whole file, where no declaration is found).
pub proof fn law_units_record_file_and_language(tree: SyntaxNode, source: Seq<char>, rel_path: Seq<char>, lang: Language)
    ensures
        forall|i: int|
            0 <= i < units_from_tree_spec(tree, source, rel_path, lang).len() ==> {
                let u = #[trigger] units_from_tree_spec(tree, source, rel_path, lang)[i];
                u.file_path == rel_path && u.language == lang.name()
            },
        units_from_tree_spec(tree, source, rel_path, lang).len() >= 1,
{
    lemma_collect_node_fields(tree, rel_path, lang, None, None, None);
}

/// All units of a subtree carry the path and the language.
pub proof fn lemma_collect_node_fields(
    n: SyntaxNode,
    rel_path: Seq<char>,
    lang: Language,
    parent_class: Option<Seq<char>>,
    parent_kind: Option<Seq<char>>,
    grand_kind: Option<Seq<char>>,
)
    ensures
        forall|i: int|
            0 <= i < collect_node(n, rel_path, lang, parent_class, parent_kind, grand_kind).len() ==> {
                let u = #[trigger] collect_node(n, rel_path, lang, parent_class, parent_kind, grand_kind)[i];
                u.file_path == rel_path && u.language == lang.name()
            },
    decreases n, 1int, 0int,
{
    let class_unit = match crate::parser::class_kind_spec(n.kind@, lang) {
        Some(ck) => crate::parser::class_unit_spec(n, rel_path, lang, ck),
        None => None,
    };
    let all = collect_node(n, rel_path, lang, parent_class, parent_kind, grand_kind);
    match class_unit {
        Some(u) => {
            lemma_collect_children_fields(n, 0, rel_path, lang, Some(u.name), Some(n.kind@), parent_kind);
            let b = collect_children(n, 0, rel_path, lang, Some(u.name), Some(n.kind@), parent_kind);
            assert(all == seq![u] + b);
            assert forall|k: int| 0 <= k < all.len() implies #[trigger] all[k].file_path == rel_path
                && all[k].language == lang.name() by {
                if k >= 1 {
                    assert(all[k] == b[k - 1]);
                }
            }
        },
        None => {
            lemma_collect_children_fields(n, 0, rel_path, lang, parent_class, Some(n.kind@), parent_kind);
            let own = match crate::parser::function_kind_spec(n.kind@, lang) {
                Some(fk) => crate::parser::function_unit_spec(
                    n,
                    rel_path,
                    lang,
                    fk,
                    parent_class,
                    parent_kind,
                    grand_kind,
                ),
                None => crate::parser::arrow_unit_spec(n, rel_path, lang),
            };
            let own_units = match own {
                Some(u) => seq![u],
                None => seq![],
            };
            let b = collect_children(n, 0, rel_path, lang, parent_class, Some(n.kind@), parent_kind);
            assert(all == own_units + b);
            assert forall|k: int| 0 <= k < all.len() implies #[trigger] all[k].file_path == rel_path
                && all[k].language == lang.name() by {
                if k >= own_units.len() {
                    assert(all[k] == b[k - own_units.len()]);
                } else {
                    assert(all[k] == own_units[k]);
                }
            }
        },
    }
}

/// All units of the children of a node from index `i` on carry the path and the language.
pub proof fn lemma_collect_children_fields(
    n: SyntaxNode,
    i: int,
    rel_path: Seq<char>,
    lang: Language,
    parent_class: Option<Seq<char>>,
    parent_kind: Option<Seq<char>>,
    grand_kind: Option<Seq<char>>,
)
    ensures
        forall|k: int|
            0 <= k < collect_children(n, i, rel_path, lang, parent_class, parent_kind, grand_kind).len() ==> {
                let u = #[trigger] collect_children(n, i, rel_path, lang, parent_class, parent_kind, grand_kind)[k];
                u.file_path == rel_path && u.language == lang.name()
            },
    decreases n, 0int, n.children@.len() - i,
{
    if 0 <= i < n.children@.len() {
        lemma_collect_node_fields(n.children@[i], rel_path, lang, parent_class, parent_kind, grand_kind);
        lemma_collect_children_fields(n, i + 1, rel_path, lang, parent_class, parent_kind, grand_kind);
        let a = collect_node(n.children@[i], rel_path, lang, parent_class, parent_kind, grand_kind);
        let b = collect_children(n, i + 1, rel_path, lang, parent_class, parent_kind, grand_kind);
        assert forall|k: int| 0 <= k < (a + b).len() implies #[trigger] (a + b)[k].file_path == rel_path
            && (a + b)[k].language == lang.name() by {
            if k < a.len() {
                assert((a + b)[k] == a[k]);
            } else {
                assert((a + b)[k] == b[k - a.len()]);
            }
        }
    }
}

/// A search filter has as many parameters as placeholders: one per clause.
pub proof fn law_filter_parameters_match_clauses(
    path_filter: Option<Seq<char>>,
    language: Option<Seq<char>>,
    extension: Option<Seq<char>>,
)
    ensures
        filter_parts(path_filter, language, extension).0.len() == filter_parts(
            path_filter,
            language,
            extension,
        ).1.len(),
{
}

/// An extension filter means the same with or without its leading dot, and normalizing
/// it twice changes nothing.
pub proof fn law_extension_dot_is_optional(e: Seq<char>)
    ensures
        normalized_extension(normalized_extension(e)) == normalized_extension(e),
        e.len() == 0 || e[0] != '.' ==> normalized_extension(seq!['.'] + e) == normalized_extension(e),
{
    assert((seq!['.'] + e)[0] == '.');
}

/// An index name that is not given on the command line or in the environment begins with
/// `semgrep-`, so clearing all indices of the tool removes it.
pub proof fn law_generated_index_names_are_cleared(root: Seq<char>, env_index: Option<Seq<char>>)
    requires
        env_index matches Some(v) ==> crate::text::trim(v).len() == 0,
    ensures
        is_tool_index(index_name_spec(root, None, env_index)),
{
    let name = index_name_spec(root, None, env_index);
    let project = match crate::paths::file_name(root) {
        Some(n) => n,
        None => "project"@,
    };
    let rest = sanitized_index_part(project) + "-"@ + crate::text::hex(crate::api::text_hash(root) as nat);
    assert(name == "semgrep-"@ + rest);
    assert(name.take("semgrep-"@.len() as int) =~= "semgrep-"@);
}

/// `s` without leading dashes is a suffix of `s`.
proof fn lemma_trim_dashes_start_suffix(s: Seq<char>)
    ensures
        exists|k: int| 0 <= k <= s.len() && trim_dashes_start(s) == s.subrange(k, s.len() as int),
    decreases s.len(),
{
    if s.len() > 0 && s[0] == '-' {
        lemma_trim_dashes_start_suffix(s.drop_first());
        let k = choose|k: int| 0 <= k <= s.drop_first().len() && trim_dashes_start(s.drop_first())
            == s.drop_first().subrange(k, s.drop_first().len() as int);
        assert(s.drop_first().subrange(k, s.drop_first().len() as int) =~= s.subrange(k + 1, s.len() as int));
    } else {
        assert(s.subrange(0, s.len() as int) =~= s);
    }
}

/// `s` without trailing dashes is a prefix of `s`.
proof fn lemma_trim_dashes_end_prefix(s: Seq<char>)
    ensures
        exists|k: int| 0 <= k <= s.len() && trim_dashes_end(s) == s.subrange(0, k),
    decreases s.len(),
{
    if s.len() > 0 && s.last() == '-' {
        lemma_trim_dashes_end_prefix(s.drop_last());
        let k = choose|k: int| 0 <= k <= s.drop_last().len() && trim_dashes_end(s.drop_last())
            == s.drop_last().subrange(0, k);
        assert(s.drop_last().subrange(0, k) =~= s.subrange(0, k));
    } else {
        assert(s.subrange(0, s.len() as int) =~= s);
    }
}

/// A character that index names may hold: a small ASCII letter, a digit, `-` or `_`.
pub open spec fn is_index_name_char(c: char) -> bool {
    ||| 0x61 <= (c as u32) <= 0x7a
    ||| 0x30 <= (c as u32) <= 0x39
    ||| c == '-'
    ||| c == '_'
}

/// The part of an index name made from a project name holds only small ASCII letters,
/// digits, `-` and `_`, and neither begins nor ends with `-`.
pub proof fn law_sanitized_part_is_safe(s: Seq<char>)
    ensures
        forall|i: int| 0 <= i < sanitized_index_part(s).len() ==> is_index_name_char(#[trigger] sanitized_index_part(s)[i]),
        sanitized_index_part(s).len() > 0,
        sanitized_index_part(s)[0] != '-',
        sanitized_index_part(s).last() != '-',
{
    let mapped = s.map_values(|c: char| index_name_char(c));
    let a = trim_dashes_start(mapped);
    let b = trim_dashes_end(a);
    lemma_trim_dashes_start_suffix(mapped);
    lemma_trim_dashes_end_prefix(a);
    lemma_trim_dashes_start_head(mapped);
    lemma_trim_dashes_end_last(a);
    if b.len() == 0 {
        reveal_strlit("project");
    } else {
        let k1 = choose|k: int| 0 <= k <= mapped.len() && a == mapped.subrange(k, mapped.len() as int);
        let k2 = choose|k: int| 0 <= k <= a.len() && b == a.subrange(0, k);
        assert forall|i: int| 0 <= i < b.len() implies is_index_name_char(#[trigger] lower(b)[i]) by {
            assert(b[i] == mapped[k1 + i]);
            assert(mapped[k1 + i] == index_name_char(s[k1 + i]));
        }
        if b.len() > 0 && a.len() > 0 && b[0] == '-' {
            assert(b[0] == a[0]);
        }
        assert(lower(b)[0] == lower_char(b[0]));
        assert(lower(b).last() == lower_char(b.last()));
    }
}

/// Making a project name fit for an index name twice changes nothing more than once.
pub proof fn law_sanitize_is_idempotent(s: Seq<char>)
    ensures
        sanitized_index_part(sanitized_index_part(s)) == sanitized_index_part(s),
{
    let r = sanitized_index_part(s);
    law_sanitized_part_is_safe(s);
    let mapped = r.map_values(|c: char| index_name_char(c));
    assert(mapped =~= r) by {
        assert forall|i: int| 0 <= i < r.len() implies mapped[i] == r[i] by {
            assert(is_index_name_char(r[i]));
        }
    }
    assert(trim_dashes_start(r) == r);
    assert(trim_dashes_end(r) == r);
    assert(lower(r) =~= r) by {
        assert forall|i: int| 0 <= i < r.len() implies lower(r)[i] == r[i] by {
            assert(is_index_name_char(r[i]));
        }
    }
}

/// An index name that is not given is `semgrep-`, the fit project name (from 1 on, only
/// small ASCII letters, digits, `-` and `_`, not beginning or ending with `-`), `-`, and the
/// hash of the root in 1 to 16 lower-case hexadecimal digits; equal roots give equal names.
pub proof fn law_generated_index_name_form(root: Seq<char>, other_root: Seq<char>, env_index: Option<Seq<char>>)
    requires
        env_index matches Some(v) ==> crate::text::trim(v).len() == 0,
    ensures
        ({
            let project = match crate::paths::file_name(root) {
                Some(n) => n,
                None => "project"@,
            };
            let part = sanitized_index_part(project);
            let hx = crate::text::hex(crate::api::text_hash(root) as nat);
            &&& index_name_spec(root, None, env_index) == "semgrep-"@ + part + "-"@ + hx
            &&& part.len() > 0 && part[0] != '-' && part.last() != '-'
            &&& forall|i: int| 0 <= i < part.len() ==> is_index_name_char(#[trigger] part[i])
            &&& 1 <= hx.len() <= 16
            &&& forall|i: int| 0 <= i < hx.len() ==> crate::text::is_hex_digit(#[trigger] hx[i])
        }),
        root == other_root ==> index_name_spec(root, None, env_index) == index_name_spec(other_root, None, env_index),
{
    let project = match crate::paths::file_name(root) {
        Some(n) => n,
        None => "project"@,
    };
    law_sanitized_part_is_safe(project);
    crate::text::lemma_hex_u64(crate::api::text_hash(root));
}

/// A unit's id depends on its file path, name and lines alone, and is 1 to 16 lower-case
/// hexadecimal digits.
pub proof fn law_unit_id_depends_on_identity(
    file_path: Seq<char>,
    name: Seq<char>,
    start_line: usize,
    end_line: usize,
    l1: Language,
    l2: Language,
    t1: Seq<char>,
    t2: Seq<char>,
    s1: Seq<char>,
    s2: Seq<char>,
    c1: Seq<char>,
    c2: Seq<char>,
)
    ensures
        unit_spec(file_path, l1, t1, name, s1, c1, start_line, end_line).id == unit_spec(
            file_path,
            l2,
            t2,
            name,
            s2,
            c2,
            start_line,
            end_line,
        ).id,
        1 <= unit_spec(file_path, l1, t1, name, s1, c1, start_line, end_line).id.len() <= 16,
        forall|i: int|
            0 <= i < unit_spec(file_path, l1, t1, name, s1, c1, start_line, end_line).id.len()
                ==> crate::text::is_hex_digit(
                #[trigger] unit_spec(file_path, l1, t1, name, s1, c1, start_line, end_line).id[i],
            ),
{
    crate::text::lemma_hex_u64(crate::parser::unit_hash(file_path, name, start_line, end_line));
}

/// After dropping leading dashes, what is left does not begin with one.
proof fn lemma_trim_dashes_start_head(s: Seq<char>)
    ensures
        trim_dashes_start(s).len() > 0 ==> trim_dashes_start(s)[0] != '-',
        trim_dashes_start(trim_dashes_start(s)) == trim_dashes_start(s),
    decreases s.len(),
{
    if s.len() > 0 && s[0] == '-' {
        lemma_trim_dashes_start_head(s.drop_first());
    }
}

/// After dropping trailing dashes, what is left does not end with one, and nothing that
/// did not begin with a dash comes to begin with one.
proof fn lemma_trim_dashes_end_last(s: Seq<char>)
    ensures
        trim_dashes_end(s).len() > 0 ==> trim_dashes_end(s).last() != '-',
        trim_dashes_end(s).len() > 0 ==> trim_dashes_end(s)[0] == s[0],
    decreases s.len(),
{
    if s.len() > 0 && s.last() == '-' {
        lemma_trim_dashes_end_last(s.drop_last());
    }
}

/// A base URL kept by the client has no trailing `/`, and trimming it again changes nothing.
pub proof fn law_base_url_has_no_trailing_slash(url: Seq<char>)
    ensures
        trim_end_slashes(url).len() > 0 ==> trim_end_slashes(url).last() != '/',
        trim_end_slashes(trim_end_slashes(url)) == trim_end_slashes(url),
    decreases url.len(),
{
    if url.len() > 0 && url.last() == '/' {
        law_base_url_has_no_trailing_slash(url.drop_last());
    }
}

/// The files-only listing names each file of the results once, and every file of them.
pub proof fn law_files_only_lists_each_file_once(paths: Seq<Seq<char>>)
    ensures
        unique_paths(paths).no_duplicates(),
        forall|p: Seq<char>| unique_paths(paths).contains(p) <==> paths.contains(p),
    decreases paths.len(),
{
    if paths.len() > 0 {
        law_files_only_lists_each_file_once(paths.drop_last());
        let rest = unique_paths(paths.drop_last());
        assert forall|p: Seq<char>| unique_paths(paths).contains(p) <==> paths.contains(p) by {
            if paths.contains(p) {
                let i = choose|i: int| 0 <= i < paths.len() && paths[i] == p;
                if i < paths.len() - 1 {
                    assert(paths.drop_last()[i] == p);
                    assert(paths.drop_last().contains(p));
                    assert(rest.contains(p));
                    if !rest.contains(paths.last()) {
                        let j = choose|j: int| 0 <= j < rest.len() && rest[j] == p;
                        assert(rest.push(paths.last())[j] == p);
                    }
                } else {
                    if !rest.contains(paths.last()) {
                        assert(rest.push(paths.last())[rest.len() as int] == p);
                    }
                }
            }
            if unique_paths(paths).contains(p) {
                if rest.contains(p) {
                    assert(paths.drop_last().contains(p));
                    let j = choose|j: int| 0 <= j < paths.drop_last().len() && paths.drop_last()[j] == p;
                    assert(paths[j] == p);
                } else {
                    assert(p == paths.last());
                    assert(paths[paths.len() - 1] == p);
                }
            }
        }
    }
}

/// Splitting a text that begins with `a` agrees with splitting `a`, as far as `a` goes.
proof fn lemma_split_upto_prefix(a: Seq<char>, t: Seq<char>, sep: char, n: nat)
    requires
        n <= a.len(),
    ensures
        split_upto(a + t, sep, n) == split_upto(a, sep, n),
    decreases n,
{
    if n > 0 {
        lemma_split_upto_prefix(a, t, sep, (n - 1) as nat);
        assert((a + t)[n - 1] == a[n - 1]);
    }
}

/// Splitting `a`, a separator and `b`: the pieces of `a`, then those of `b` so far.
proof fn lemma_split_upto_after_sep(a: Seq<char>, b: Seq<char>, sep: char, k: nat)
    requires
        k <= b.len(),
    ensures
        split_upto(a + seq![sep] + b, sep, a.len() + 1 + k) == (
            split(a, sep) + split_upto(b, sep, k).0,
            split_upto(b, sep, k).1,
        ),
    decreases k,
{
    let s = a + seq![sep] + b;
    if k == 0 {
        lemma_split_upto_prefix(a, seq![sep] + b, sep, a.len());
        assert(a + (seq![sep] + b) =~= s);
        assert(s[a.len() as int] == sep);
        assert(split(a, sep) + seq![] =~= split(a, sep));
    } else {
        lemma_split_upto_after_sep(a, b, sep, (k - 1) as nat);
        assert(s[a.len() + 1 + k - 1] == b[k - 1]);
        let (d, c) = split_upto(b, sep, (k - 1) as nat);
        if b[k - 1] == sep {
            assert((split(a, sep) + d).push(c) =~= split(a, sep) + d.push(c));
        }
    }
}

/// Splitting at a separator splits each side.
proof fn lemma_split_concat(a: Seq<char>, b: Seq<char>, sep: char)
    ensures
        split(a + seq![sep] + b, sep) == split(a, sep) + split(b, sep),
{
    let s = a + seq![sep] + b;
    lemma_split_upto_after_sep(a, b, sep, b.len());
    assert(s.len() == a.len() + 1 + b.len());
    let (d, c) = split_upto(b, sep, b.len());
    assert((split(a, sep) + d).push(c) =~= split(a, sep) + d.push(c));
}

/// Joining the pieces of a split with the separator gives the text back.
proof fn lemma_join_split_upto(s: Seq<char>, sep: char, n: nat)
    requires
        n <= s.len(),
    ensures
        join(split_upto(s, sep, n).0.push(split_upto(s, sep, n).1), seq![sep]) == s.take(n as int),
    decreases n,
{
    if n == 0 {
        assert(s.take(0) =~= seq![]);
    } else {
        lemma_join_split_upto(s, sep, (n - 1) as nat);
        let (d, c) = split_upto(s, sep, (n - 1) as nat);
        assert(s.take(n as int) =~= s.take(n - 1).push(s[n - 1]));
        if s[n - 1] == sep {
            let e: Seq<char> = seq![];
            assert(d.push(c).push(e).drop_last() =~= d.push(c));
            assert(join(d.push(c), seq![sep]) + seq![sep] + e =~= s.take(n as int));
        } else {
            let c2 = c.push(s[n - 1]);
            if d.len() == 0 {
                assert(d.push(c) =~= seq![c]);
                assert(d.push(c2) =~= seq![c2]);
            } else {
                assert(d.push(c2).drop_last() =~= d);
                assert(d.push(c).drop_last() =~= d);
                assert(join(d.push(c2), seq![sep]) =~= join(d, seq![sep]) + seq![sep] + c2);
                assert(join(d.push(c), seq![sep]) =~= join(d, seq![sep]) + seq![sep] + c);
            }
        }
    }
}

/// Joining the pieces of a split with the separator gives the text back.
proof fn lemma_join_split(s: Seq<char>, sep: char)
    ensures
        join(split(s, sep), seq![sep]) == s,
{
    lemma_join_split_upto(s, sep, s.len());
    assert(s.take(s.len() as int) =~= s);
}

/// The kept pieces of a rooted path from index `j` of the second part of a concatenation.
proof fn lemma_kept_pieces_second(p: Seq<Seq<char>>, q: Seq<Seq<char>>, j: int)
    requires
        0 <= j <= q.len(),
    ensures
        kept_pieces(p + q, p.len() + j, true) == kept_pieces(q, j, true),
    decreases q.len() - j,
{
    if j < q.len() {
        lemma_kept_pieces_second(p, q, j + 1);
        assert((p + q)[p.len() + j] == q[j]);
    }
}

/// The kept pieces of a concatenation of rooted pieces are those of each part.
proof fn lemma_kept_pieces_concat(p: Seq<Seq<char>>, q: Seq<Seq<char>>, i: int)
    requires
        0 <= i <= p.len(),
    ensures
        kept_pieces(p + q, i, true) == kept_pieces(p, i, true) + kept_pieces(q, 0, true),
    decreases p.len() - i,
{
    if i == p.len() {
        lemma_kept_pieces_second(p, q, 0);
        assert(seq![] + kept_pieces(q, 0, true) =~= kept_pieces(q, 0, true));
    } else {
        lemma_kept_pieces_concat(p, q, i + 1);
        assert((p + q)[i] == p[i]);
        let x = p[i];
        if x.len() > 0 && x != dot() {
            assert(seq![x] + (kept_pieces(p, i + 1, true) + kept_pieces(q, 0, true)) =~= (seq![x]
                + kept_pieces(p, i + 1, true)) + kept_pieces(q, 0, true));
        }
    }
}

/// A piece that a relative path keeps as a component of its own: not empty, and not `.`.
pub open spec fn is_normal_piece(p: Seq<char>) -> bool {
    p.len() > 0 && p != dot()
}

/// Pieces that are all normal are all kept.
proof fn lemma_kept_pieces_normal(q: Seq<Seq<char>>, j: int)
    requires
        0 <= j <= q.len(),
        forall|k: int| 0 <= k < q.len() ==> is_normal_piece(#[trigger] q[k]),
    ensures
        kept_pieces(q, j, true) == q.skip(j),
    decreases q.len() - j,
{
    if j < q.len() {
        lemma_kept_pieces_normal(q, j + 1);
        assert(is_normal_piece(q[j]));
        assert(seq![q[j]] + q.skip(j + 1) =~= q.skip(j));
    } else {
        assert(q.skip(j) =~= seq![]);
    }
}

/// The components of a rooted path joined with a relative one: those of the root, then the
/// pieces of the relative path.
proof fn lemma_components_of_joined(root: Seq<char>, rel: Seq<char>)
    requires
        has_root(root),
        forall|k: int| 0 <= k < split(rel, '/').len() ==> is_normal_piece(#[trigger] split(rel, '/')[k]),
    ensures
        components(join_path(root, rel)) == components(root) + split(rel, '/'),
{
    let q = split(rel, '/');
    lemma_kept_pieces_normal(q, 0);
    assert(q.skip(0) =~= q);
    let full = join_path(root, rel);
    if root.last() == '/' {
        let r = root.drop_last();
        let e: Seq<char> = seq![];
        assert(r + seq!['/'] + e =~= root);
        assert(r + seq!['/'] + rel =~= full);
        lemma_split_concat(r, e, '/');
        lemma_split_concat(r, rel, '/');
        assert(split(e, '/') =~= seq![e]) by {
            assert(split_upto(e, '/', 0) == (Seq::<Seq<char>>::empty(), e));
        }
        lemma_kept_pieces_concat(split(r, '/'), split(e, '/'), 0);
        lemma_kept_pieces_concat(split(r, '/'), q, 0);
        assert(kept_pieces(split(e, '/'), 0, true) =~= seq![]) by {
            assert(kept_pieces(split(e, '/'), 1, true) == Seq::<Seq<char>>::empty());
        }
        assert(kept_pieces(split(r, '/'), 0, true) + seq![] =~= kept_pieces(split(r, '/'), 0, true));
        assert(full[0] == root[0]);
        assert(seq![root_component()] + (kept_pieces(split(r, '/'), 0, true) + q) =~= (seq![root_component()]
            + kept_pieces(split(r, '/'), 0, true)) + q);
    } else {
        lemma_split_concat(root, rel, '/');
        lemma_kept_pieces_concat(split(root, '/'), q, 0);
        assert(full[0] == root[0]);
        assert(seq![root_component()] + (kept_pieces(split(root, '/'), 0, true) + q) =~= (seq![root_component()]
            + kept_pieces(split(root, '/'), 0, true)) + q);
    }
}

/// Spans moved on by `d`.
pub open spec fn shift_spans(v: Seq<(int, int)>, d: int) -> Seq<(int, int)> {
    v.map_values(|x: (int, int)| (x.0 + d, x.1 + d))
}

/// The offsets of the pieces of the second part of a concatenation are moved on by the
/// first part.
proof fn lemma_piece_offset_concat(p: Seq<Seq<char>>, q: Seq<Seq<char>>, j: int)
    requires
        0 <= j <= q.len(),
    ensures
        piece_offset(p + q, p.len() + j) == piece_offset(p, p.len() as int) + piece_offset(q, j),
    decreases j,
{
    if j > 0 {
        lemma_piece_offset_concat(p, q, j - 1);
        assert((p + q)[p.len() + j - 1] == q[j - 1]);
    } else {
        lemma_piece_offset_prefix(p, q, p.len() as int);
    }
}

/// The offsets of the pieces of the first part of a concatenation are their own.
proof fn lemma_piece_offset_prefix(p: Seq<Seq<char>>, q: Seq<Seq<char>>, i: int)
    requires
        0 <= i <= p.len(),
    ensures
        piece_offset(p + q, i) == piece_offset(p, i),
    decreases i,
{
    if i > 0 {
        lemma_piece_offset_prefix(p, q, i - 1);
        assert((p + q)[i - 1] == p[i - 1]);
    }
}

/// The kept spans of the second part of a concatenation of rooted pieces, moved on by the
/// first part.
proof fn lemma_kept_spans_second(p: Seq<Seq<char>>, q: Seq<Seq<char>>, j: int)
    requires
        0 <= j <= q.len(),
    ensures
        kept_spans(p + q, p.len() + j, true) == shift_spans(kept_spans(q, j, true), piece_offset(p, p.len() as int)),
    decreases q.len() - j,
{
    let d = piece_offset(p, p.len() as int);
    if j < q.len() {
        lemma_kept_spans_second(p, q, j + 1);
        lemma_piece_offset_concat(p, q, j);
        assert((p + q)[p.len() + j] == q[j]);
        let x = q[j];
        if x.len() > 0 && x != dot() {
            assert(seq![(piece_offset(p + q, p.len() + j), piece_offset(p + q, p.len() + j) + x.len())]
                + shift_spans(kept_spans(q, j + 1, true), d) =~= shift_spans(kept_spans(q, j, true), d));
        }
    } else {
        assert(shift_spans(kept_spans(q, j, true), d) =~= seq![]);
    }
}

/// The kept spans of a concatenation of rooted pieces: those of the first part, then those
/// from the second part on.
proof fn lemma_kept_spans_first(p: Seq<Seq<char>>, q: Seq<Seq<char>>, i: int)
    requires
        0 <= i <= p.len(),
    ensures
        kept_spans(p + q, i, true) == kept_spans(p, i, true) + kept_spans(p + q, p.len() as int, true),
    decreases p.len() - i,
{
    if i < p.len() {
        lemma_kept_spans_first(p, q, i + 1);
        lemma_piece_offset_prefix(p, q, i);
        assert((p + q)[i] == p[i]);
        let x = p[i];
        if x.len() > 0 && x != dot() {
            let h = seq![(piece_offset(p, i), piece_offset(p, i) + x.len())];
            assert(h + (kept_spans(p, i + 1, true) + kept_spans(p + q, p.len() as int, true)) =~= (h
                + kept_spans(p, i + 1, true)) + kept_spans(p + q, p.len() as int, true));
        }
    } else {
        assert(kept_spans(p, i, true) + kept_spans(p + q, p.len() as int, true) =~= kept_spans(
            p + q,
            p.len() as int,
            true,
        ));
    }
}

/// The spans of pieces that are all normal: one per piece, at the piece.
proof fn lemma_kept_spans_normal(q: Seq<Seq<char>>, j: int)
    requires
        0 <= j <= q.len(),
        forall|k: int| 0 <= k < q.len() ==> is_normal_piece(#[trigger] q[k]),
    ensures
        kept_spans(q, j, true).len() == q.len() - j,
        forall|k: int|
            0 <= k < q.len() - j ==> #[trigger] kept_spans(q, j, true)[k] == (
                piece_offset(q, j + k),
                piece_offset(q, j + k) + q[j + k].len(),
            ),
    decreases q.len() - j,
{
    if j < q.len() {
        lemma_kept_spans_normal(q, j + 1);
        assert(is_normal_piece(q[j]));
        let ks = kept_spans(q, j, true);
        assert forall|k: int| 0 <= k < q.len() - j implies #[trigger] ks[k] == (
            piece_offset(q, j + k),
            piece_offset(q, j + k) + q[j + k].len(),
        ) by {
            if k > 0 {
                assert(ks[k] == kept_spans(q, j + 1, true)[k - 1]);
                assert(j + 1 + (k - 1) == j + k);
            }
        }
    }
}

/// A file reached from a root by a relative path of normal components, without `\\`, has
/// that relative path under the root: joining a relative path to a root and taking the
/// result relative to the root gives the relative path back.
pub proof fn law_relative_path_undoes_join(root: Seq<char>, rel: Seq<char>)
    requires
        has_root(root),
        forall|k: int| 0 <= k < split(rel, '/').len() ==> is_normal_piece(#[trigger] split(rel, '/')[k]),
        !rel.contains('\\'),
    ensures
        relative_path_spec(root, join_path(root, rel)) == Some(rel),
{
    lemma_components_of_joined(root, rel);
    let full = join_path(root, rel);
    let rc = components(root);
    let pc = components(full);
    let q = split(rel, '/');
    assert(pc.take(rc.len() as int) =~= rc);
    // The text before `rel`, without the separator.
    let a = if root.last() == '/' {
        root.drop_last()
    } else {
        root
    };
    assert(a + seq!['/'] + rel =~= full);
    let p = split(a, '/');
    lemma_split_concat(a, rel, '/');
    assert(split(full, '/') == p + q);
    assert(has_root(full)) by {
        assert(full[0] == root[0]);
    }
    lemma_split_total(a);
    lemma_split_total(rel);
    assert(piece_offset(p, p.len() as int) == a.len() + 1);
    let d: int = (a.len() + 1) as int;
    // The components of the root: the root and the kept pieces of `a`.
    assert(rc.len() == 1 + kept_pieces(p, 0, true).len()) by {
        if root.last() == '/' {
            let e: Seq<char> = seq![];
            assert(a + seq!['/'] + e =~= root);
            lemma_split_concat(a, e, '/');
            assert(split(e, '/') =~= seq![e]) by {
                assert(split_upto(e, '/', 0) == (Seq::<Seq<char>>::empty(), e));
            }
            lemma_kept_pieces_concat(p, split(e, '/'), 0);
            assert(kept_pieces(split(e, '/'), 0, true) =~= seq![]) by {
                assert(kept_pieces(split(e, '/'), 1, true) == Seq::<Seq<char>>::empty());
            }
        }
    }
    lemma_kept_spans_match(p, 0, true);
    lemma_kept_spans_first(p, q, 0);
    lemma_kept_spans_second(p, q, 0);
    lemma_kept_spans_normal(q, 0);
    let kp = kept_spans(p, 0, true);
    let kq = kept_spans(q, 0, true);
    let sp = component_spans(full);
    assert(sp == seq![(0int, 1int)] + (kp + shift_spans(kq, d)));
    assert(q.len() >= 1);
    assert(pc.len() == sp.len()) by {
        crate::paths::lemma_component_spans_ordered(full);
    }
    assert(rc.len() < pc.len());
    assert(sp[rc.len() as int] == shift_spans(kq, d)[0]);
    assert(sp[pc.len() - 1] == shift_spans(kq, d)[q.len() - 1]);
    assert(kq[0] == (piece_offset(q, 0), piece_offset(q, 0) + q[0].len()));
    assert(kq[q.len() - 1] == (piece_offset(q, q.len() - 1), piece_offset(q, q.len() - 1) + q[q.len() - 1].len()));
    assert(full.subrange(d, d + rel.len()) =~= rel);
    assert(forward_slashes(rel) =~= rel) by {
        assert forall|k: int| 0 <= k < rel.len() implies rel[k] != '\\' by {
            if rel[k] == '\\' {
                assert(rel.contains('\\'));
            }
        }
    }
}

/// The node kinds that open class-like units, by language, with the unit type each gives.
pub open spec fn class_kind_table() -> Seq<(Language, Seq<char>, Seq<char>)> {
    seq![
        (Language::Python, "class_definition"@, "class"@),
        (Language::JavaScript, "class_declaration"@, "class"@),
        (Language::TypeScript, "class_declaration"@, "class"@),
        (Language::TypeScript, "interface_declaration"@, "interface"@),
        (Language::TypeScript, "type_alias_declaration"@, "type"@),
        (Language::Rust, "struct_item"@, "struct"@),
        (Language::Rust, "enum_item"@, "enum"@),
        (Language::Rust, "trait_item"@, "trait"@),
        (Language::Rust, "impl_item"@, "impl"@),
        (Language::Go, "type_declaration"@, "type"@),
    ]
}

/// The node kinds that open function-like units, by language, with the unit type each gives.
pub open spec fn function_kind_table() -> Seq<(Language, Seq<char>, Seq<char>)> {
    seq![
        (Language::Python, "function_definition"@, "function"@),
        (Language::JavaScript, "function_declaration"@, "function"@),
        (Language::JavaScript, "method_definition"@, "method"@),
        (Language::TypeScript, "function_declaration"@, "function"@),
        (Language::TypeScript, "method_definition"@, "method"@),
        (Language::Rust, "function_item"@, "function"@),
        (Language::Go, "function_declaration"@, "function"@),
        (Language::Go, "method_declaration"@, "method"@),
    ]
}

/// A node opens a class-like unit of type `t` exactly when its kind is listed for its
/// language with that type: Python classes; JavaScript classes; TypeScript classes,
/// interfaces and type aliases; Rust structs, enums, traits and impls; Go type
/// declarations. Any other kind opens none.
pub proof fn law_class_kinds(kind: Seq<char>, lang: Language, t: Seq<char>)
    ensures
        crate::parser::class_kind_spec(kind, lang) == Some(t) <==> class_kind_table().contains((lang, kind, t)),
        crate::parser::class_kind_spec(kind, lang) is None <==> forall|u: Seq<char>|
            !class_kind_table().contains((lang, kind, u)),
{
    reveal_strlit("class_definition");
    reveal_strlit("class_declaration");
    reveal_strlit("interface_declaration");
    reveal_strlit("type_alias_declaration");
    reveal_strlit("struct_item");
    reveal_strlit("enum_item");
    reveal_strlit("trait_item");
    reveal_strlit("impl_item");
    reveal_strlit("type_declaration");
    reveal_strlit("function_definition");
    reveal_strlit("function_declaration");
    reveal_strlit("method_definition");
    reveal_strlit("function_item");
    reveal_strlit("method_declaration");
    reveal_strlit("class");
    reveal_strlit("interface");
    reveal_strlit("type");
    reveal_strlit("struct");
    reveal_strlit("enum");
    reveal_strlit("trait");
    reveal_strlit("impl");
    reveal_strlit("function");
    reveal_strlit("method");
    let tb = class_kind_table();
    match crate::parser::class_kind_spec(kind, lang) {
        Some(u) => {
            let i = choose|i: int| 0 <= i < tb.len() && tb[i] == (lang, kind, u);
            assert(tb[i] == (lang, kind, u)) by {
                if lang == Language::Python {
                    assert(tb[0] == (lang, kind, u));
                } else if lang == Language::JavaScript {
                    assert(tb[1] == (lang, kind, u));
                } else if lang == Language::TypeScript {
                    if kind == "class_declaration"@ {
                        assert(tb[2] == (lang, kind, u));
                    } else if kind == "interface_declaration"@ {
                        assert(tb[3] == (lang, kind, u));
                    } else {
                        assert(tb[4] == (lang, kind, u));
                    }
                } else if lang == Language::Rust {
                    if kind == "struct_item"@ {
                        assert(tb[5] == (lang, kind, u));
                    } else if kind == "enum_item"@ {
                        assert(tb[6] == (lang, kind, u));
                    } else if kind == "trait_item"@ {
                        assert(tb[7] == (lang, kind, u));
                    } else {
                        assert(tb[8] == (lang, kind, u));
                    }
                } else {
                    assert(tb[9] == (lang, kind, u));
                }
            }
            assert(tb.contains((lang, kind, u)));
            assert forall|w: Seq<char>| tb.contains((lang, kind, w)) implies w == u by {
                let j = choose|j: int| 0 <= j < tb.len() && tb[j] == (lang, kind, w);
                lemma_class_table_entries(j);
            }
        },
        None => {
            assert forall|w: Seq<char>| !tb.contains((lang, kind, w)) by {
                if tb.contains((lang, kind, w)) {
                    let j = choose|j: int| 0 <= j < tb.len() && tb[j] == (lang, kind, w);
                    lemma_class_table_entries(j);
                }
            }
        },
    }
}

/// Each entry of the class table gives its unit type.
proof fn lemma_class_table_entries(j: int)
    requires
        0 <= j < class_kind_table().len(),
    ensures
        crate::parser::class_kind_spec(class_kind_table()[j].1, class_kind_table()[j].0) == Some(
            class_kind_table()[j].2,
        ),
{
    reveal_strlit("class_definition");
    reveal_strlit("class_declaration");
    reveal_strlit("interface_declaration");
    reveal_strlit("type_alias_declaration");
    reveal_strlit("struct_item");
    reveal_strlit("enum_item");
    reveal_strlit("trait_item");
    reveal_strlit("impl_item");
    reveal_strlit("type_declaration");
    reveal_strlit("function_definition");
    reveal_strlit("function_declaration");
    reveal_strlit("method_definition");
    reveal_strlit("function_item");
    reveal_strlit("method_declaration");
    reveal_strlit("class");
    reveal_strlit("interface");
    reveal_strlit("type");
    reveal_strlit("struct");
    reveal_strlit("enum");
    reveal_strlit("trait");
    reveal_strlit("impl");
    reveal_strlit("function");
    reveal_strlit("method");
    let tb = class_kind_table();
    let k = tb[j].1;
    let l = tb[j].0;
    if j == 0 {
        assert(tb[0] == (Language::Python, "class_definition"@, "class"@));
    } else if j == 1 {
        assert(tb[1] == (Language::JavaScript, "class_declaration"@, "class"@));
    } else if j == 2 {
        assert(tb[2] == (Language::TypeScript, "class_declaration"@, "class"@));
    } else if j == 3 {
        assert(tb[3] == (Language::TypeScript, "interface_declaration"@, "interface"@));
        assert("interface_declaration"@.len() == 21 && "class_declaration"@.len() == 17);
        assert(k != "class_declaration"@);
    } else if j == 4 {
        assert(tb[4] == (Language::TypeScript, "type_alias_declaration"@, "type"@));
        assert("type_alias_declaration"@.len() == 22 && "class_declaration"@.len() == 17);
        assert(k != "class_declaration"@);
        assert("type_alias_declaration"@.len() == 22 && "interface_declaration"@.len() == 21);
        assert(k != "interface_declaration"@);
    } else if j == 5 {
        assert(tb[5] == (Language::Rust, "struct_item"@, "struct"@));
    } else if j == 6 {
        assert(tb[6] == (Language::Rust, "enum_item"@, "enum"@));
        assert("enum_item"@.len() == 9 && "struct_item"@.len() == 11);
        assert(k != "struct_item"@);
    } else if j == 7 {
        assert(tb[7] == (Language::Rust, "trait_item"@, "trait"@));
        assert("trait_item"@.len() == 10 && "struct_item"@.len() == 11);
        assert(k != "struct_item"@);
        assert("trait_item"@.len() == 10 && "enum_item"@.len() == 9);
        assert(k != "enum_item"@);
    } else if j == 8 {
        assert(tb[8] == (Language::Rust, "impl_item"@, "impl"@));
        assert("impl_item"@.len() == 9 && "struct_item"@.len() == 11);
        assert(k != "struct_item"@);
        assert("impl_item"@[0] == 'i' && "enum_item"@[0] == 'e');
        assert(k != "enum_item"@);
        assert("impl_item"@.len() == 9 && "trait_item"@.len() == 10);
        assert(k != "trait_item"@);
    } else {
        assert(tb[9] == (Language::Go, "type_declaration"@, "type"@));
    }
}

/// Each entry of the function table gives its unit type.
proof fn lemma_function_table_entries(j: int)
    requires
        0 <= j < function_kind_table().len(),
    ensures
        crate::parser::function_kind_spec(function_kind_table()[j].1, function_kind_table()[j].0) == Some(
            function_kind_table()[j].2,
        ),
{
    reveal_strlit("class_definition");
    reveal_strlit("class_declaration");
    reveal_strlit("interface_declaration");
    reveal_strlit("type_alias_declaration");
    reveal_strlit("struct_item");
    reveal_strlit("enum_item");
    reveal_strlit("trait_item");
    reveal_strlit("impl_item");
    reveal_strlit("type_declaration");
    reveal_strlit("function_definition");
    reveal_strlit("function_declaration");
    reveal_strlit("method_definition");
    reveal_strlit("function_item");
    reveal_strlit("method_declaration");
    reveal_strlit("class");
    reveal_strlit("interface");
    reveal_strlit("type");
    reveal_strlit("struct");
    reveal_strlit("enum");
    reveal_strlit("trait");
    reveal_strlit("impl");
    reveal_strlit("function");
    reveal_strlit("method");
    let tb = function_kind_table();
    let k = tb[j].1;
    if j == 0 {
        assert(tb[0] == (Language::Python, "function_definition"@, "function"@));
    } else if j == 1 {
        assert(tb[1] == (Language::JavaScript, "function_declaration"@, "function"@));
    } else if j == 2 {
        assert(tb[2] == (Language::JavaScript, "method_definition"@, "method"@));
        assert("method_definition"@.len() == 17 && "function_declaration"@.len() == 20);
        assert(k != "function_declaration"@);
    } else if j == 3 {
        assert(tb[3] == (Language::TypeScript, "function_declaration"@, "function"@));
    } else if j == 4 {
        assert(tb[4] == (Language::TypeScript, "method_definition"@, "method"@));
        assert("method_definition"@.len() == 17 && "function_declaration"@.len() == 20);
        assert(k != "function_declaration"@);
    } else if j == 5 {
        assert(tb[5] == (Language::Rust, "function_item"@, "function"@));
    } else if j == 6 {
        assert(tb[6] == (Language::Go, "function_declaration"@, "function"@));
    } else {
        assert(tb[7] == (Language::Go, "method_declaration"@, "method"@));
        assert("method_declaration"@.len() == 18 && "function_declaration"@.len() == 20);
        assert(k != "function_declaration"@);
    }
}

/// A node opens a function-like unit of type `t` exactly when its kind is listed for its
/// language with that type: Python functions; JavaScript and TypeScript function
/// declarations and methods; Rust functions; Go functions and methods.
pub proof fn law_function_kinds(kind: Seq<char>, lang: Language, t: Seq<char>)
    ensures
        crate::parser::function_kind_spec(kind, lang) == Some(t) <==> function_kind_table().contains(
            (lang, kind, t),
        ),
        crate::parser::function_kind_spec(kind, lang) is None <==> forall|u: Seq<char>|
            !function_kind_table().contains((lang, kind, u)),
{
    reveal_strlit("class_definition");
    reveal_strlit("class_declaration");
    reveal_strlit("interface_declaration");
    reveal_strlit("type_alias_declaration");
    reveal_strlit("struct_item");
    reveal_strlit("enum_item");
    reveal_strlit("trait_item");
    reveal_strlit("impl_item");
    reveal_strlit("type_declaration");
    reveal_strlit("function_definition");
    reveal_strlit("function_declaration");
    reveal_strlit("method_definition");
    reveal_strlit("function_item");
    reveal_strlit("method_declaration");
    reveal_strlit("class");
    reveal_strlit("interface");
    reveal_strlit("type");
    reveal_strlit("struct");
    reveal_strlit("enum");
    reveal_strlit("trait");
    reveal_strlit("impl");
    reveal_strlit("function");
    reveal_strlit("method");
    let tb = function_kind_table();
    match crate::parser::function_kind_spec(kind, lang) {
        Some(u) => {
            assert(tb.contains((lang, kind, u))) by {
                if lang == Language::Python {
                    assert(tb[0] == (lang, kind, u));
                } else if lang == Language::JavaScript {
                    if kind == "function_declaration"@ {
                        assert(tb[1] == (lang, kind, u));
                    } else {
                        assert(tb[2] == (lang, kind, u));
                    }
                } else if lang == Language::TypeScript {
                    if kind == "function_declaration"@ {
                        assert(tb[3] == (lang, kind, u));
                    } else {
                        assert(tb[4] == (lang, kind, u));
                    }
                } else if lang == Language::Rust {
                    assert(tb[5] == (lang, kind, u));
                } else {
                    if kind == "function_declaration"@ {
                        assert(tb[6] == (lang, kind, u));
                    } else {
                        assert(tb[7] == (lang, kind, u));
                    }
                }
            }
            assert forall|w: Seq<char>| tb.contains((lang, kind, w)) implies w == u by {
                let j = choose|j: int| 0 <= j < tb.len() && tb[j] == (lang, kind, w);
                lemma_function_table_entries(j);
            }
        },
        None => {
            assert forall|w: Seq<char>| !tb.contains((lang, kind, w)) by {
                if tb.contains((lang, kind, w)) {
                    let j = choose|j: int| 0 <= j < tb.len() && tb[j] == (lang, kind, w);
                    lemma_function_table_entries(j);
                }
            }
        },
    }
}

/// A node whose kind opens a class-like unit of type `t` in the file's language, and whose
/// text is known, gives first a unit of type `t` for the file, spanning the node's lines.
pub proof fn law_class_node_opens_unit(
    n: SyntaxNode,
    rel_path: Seq<char>,
    lang: Language,
    t: Seq<char>,
    parent_class: Option<Seq<char>>,
    parent_kind: Option<Seq<char>>,
    grand_kind: Option<Seq<char>>,
)
    requires
        class_kind_table().contains((lang, n.kind@, t)),
        crate::parser::node_text_spec(n) is Some,
    ensures
        ({
            let us = collect_node(n, rel_path, lang, parent_class, parent_kind, grand_kind);
            &&& us.len() >= 1
            &&& us[0].unit_type == t
            &&& us[0].file_path == rel_path
            &&& us[0].start_line == crate::parser::start_line_of(n)
            &&& us[0].end_line == crate::parser::end_line_of(n)
        }),
{
    law_class_kinds(n.kind@, lang, t);
}

/// A node whose kind opens a function-like unit of type `t` in the file's language, and
/// whose text is known, gives first a unit spanning the node's lines: a `method` inside a
/// class-like unit or a Rust `impl`, else of type `t`.
pub proof fn law_function_node_opens_unit(
    n: SyntaxNode,
    rel_path: Seq<char>,
    lang: Language,
    t: Seq<char>,
    parent_class: Option<Seq<char>>,
    parent_kind: Option<Seq<char>>,
    grand_kind: Option<Seq<char>>,
)
    requires
        function_kind_table().contains((lang, n.kind@, t)),
        crate::parser::node_text_spec(n) is Some,
    ensures
        ({
            let us = collect_node(n, rel_path, lang, parent_class, parent_kind, grand_kind);
            let in_impl = lang == Language::Rust && parent_kind == Some("declaration_list"@) && grand_kind
                == Some("impl_item"@);
            &&& us.len() >= 1
            &&& us[0].unit_type == if parent_class is Some || in_impl {
                "method"@
            } else {
                t
            }
            &&& us[0].file_path == rel_path
            &&& us[0].start_line == crate::parser::start_line_of(n)
            &&& us[0].end_line == crate::parser::end_line_of(n)
        }),
{
    law_function_kinds(n.kind@, lang, t);
    // No kind opens both a class-like and a function-like unit.
    assert(crate::parser::class_kind_spec(n.kind@, lang) is None) by {
        let tb = function_kind_table();
        let j = choose|j: int| 0 <= j < tb.len() && tb[j] == (lang, n.kind@, t);
        lemma_function_kinds_are_not_class_kinds(j);
    }
}

/// No node kind of the function table opens a class-like unit.
proof fn lemma_function_kinds_are_not_class_kinds(j: int)
    requires
        0 <= j < function_kind_table().len(),
    ensures
        crate::parser::class_kind_spec(function_kind_table()[j].1, function_kind_table()[j].0) is None,
{
    reveal_strlit("class_definition");
    reveal_strlit("class_declaration");
    reveal_strlit("interface_declaration");
    reveal_strlit("type_alias_declaration");
    reveal_strlit("struct_item");
    reveal_strlit("enum_item");
    reveal_strlit("trait_item");
    reveal_strlit("impl_item");
    reveal_strlit("type_declaration");
    reveal_strlit("function_definition");
    reveal_strlit("function_declaration");
    reveal_strlit("method_definition");
    reveal_strlit("function_item");
    reveal_strlit("method_declaration");
    let tb = function_kind_table();
    if j == 0 {
        assert(tb[0] == (Language::Python, "function_definition"@, "function"@));
        assert("function_definition"@[0] == 'f' && "class_definition"@[0] == 'c');
    } else if j == 1 || j == 3 {
        assert(tb[1].1 == "function_declaration"@ && tb[3].1 == "function_declaration"@);
        assert(tb[1].0 == Language::JavaScript && tb[3].0 == Language::TypeScript);
        assert("function_declaration"@[0] == 'f' && "class_declaration"@[0] == 'c'
            && "interface_declaration"@[0] == 'i' && "type_alias_declaration"@[0] == 't');
    } else if j == 2 || j == 4 {
        assert(tb[2].1 == "method_definition"@ && tb[4].1 == "method_definition"@);
        assert(tb[2].0 == Language::JavaScript && tb[4].0 == Language::TypeScript);
        assert("method_definition"@[0] == 'm' && "class_declaration"@[0] == 'c'
            && "interface_declaration"@[0] == 'i' && "type_alias_declaration"@[0] == 't');
    } else if j == 5 {
        assert(tb[5] == (Language::Rust, "function_item"@, "function"@));
        assert("function_item"@[0] == 'f' && "struct_item"@[0] == 's' && "enum_item"@[0] == 'e'
            && "trait_item"@[0] == 't' && "impl_item"@[0] == 'i');
    } else if j == 6 {
        assert(tb[6] == (Language::Go, "function_declaration"@, "function"@));
        assert("function_declaration"@[0] == 'f' && "type_declaration"@[0] == 't');
    } else {
        assert(tb[7] == (Language::Go, "method_declaration"@, "method"@));
        assert("method_declaration"@[0] == 'm' && "type_declaration"@[0] == 't');
    }
}

/// The file extensions of the supported languages, in lower case.
pub open spec fn extension_table() -> Seq<(Seq<char>, Language)> {
    seq![
        ("py"@, Language::Python),
        ("js"@, Language::JavaScript),
        ("jsx"@, Language::JavaScript),
        ("mjs"@, Language::JavaScript),
        ("cjs"@, Language::JavaScript),
        ("ts"@, Language::TypeScript),
        ("tsx"@, Language::TypeScript),
        ("rs"@, Language::Rust),
        ("go"@, Language::Go),
    ]
}

/// A file is in language `l` exactly when its extension, in lower case, is listed for `l`:
/// `py`; `js`, `jsx`, `mjs`, `cjs`; `ts`, `tsx`; `rs`; `go`. Files with any other extension,
/// or none, are in no language and are not indexed.
pub proof fn law_languages_by_extension(path: Seq<char>, l: Language)
    ensures
        crate::paths::language_of_path(path) == Some(l) <==> (exists|e: Seq<char>|
            crate::paths::path_extension(path) == Some(e) && #[trigger] extension_table().contains((lower(e), l))),
{
    reveal_strlit("py");
    reveal_strlit("js");
    reveal_strlit("jsx");
    reveal_strlit("mjs");
    reveal_strlit("cjs");
    reveal_strlit("ts");
    reveal_strlit("tsx");
    reveal_strlit("rs");
    reveal_strlit("go");
    let tb = extension_table();
    match crate::paths::path_extension(path) {
        Some(e) => {
            let x = lower(e);
            if crate::paths::language_of_path(path) == Some(l) {
                if x == "py"@ {
                    assert(tb[0] == (x, l));
                } else if x == "js"@ {
                    assert(tb[1] == (x, l));
                } else if x == "jsx"@ {
                    assert(tb[2] == (x, l));
                } else if x == "mjs"@ {
                    assert(tb[3] == (x, l));
                } else if x == "cjs"@ {
                    assert(tb[4] == (x, l));
                } else if x == "ts"@ {
                    assert(tb[5] == (x, l));
                } else if x == "tsx"@ {
                    assert(tb[6] == (x, l));
                } else if x == "rs"@ {
                    assert(tb[7] == (x, l));
                } else {
                    assert(tb[8] == (x, l));
                }
                assert(tb.contains((lower(e), l)));
            }
            if tb.contains((x, l)) {
                let j = choose|j: int| 0 <= j < tb.len() && tb[j] == (x, l);
                assert("py"@.len() == 2 && "js"@.len() == 2 && "ts"@.len() == 2 && "rs"@.len() == 2
                    && "go"@.len() == 2);
                assert("jsx"@.len() == 3 && "mjs"@.len() == 3 && "cjs"@.len() == 3 && "tsx"@.len() == 3);
                assert("py"@[0] == 'p' && "js"@[0] == 'j' && "ts"@[0] == 't' && "rs"@[0] == 'r' && "go"@[0] == 'g');
                assert("jsx"@[0] == 'j' && "mjs"@[0] == 'm' && "cjs"@[0] == 'c' && "tsx"@[0] == 't');
                if j == 0 {} else if j == 1 {} else if j == 2 {} else if j == 3 {} else if j == 4 {} else if j == 5 {} else if j == 6 {} else if j == 7 {} else {}
            }
        },
        None => {},
    }
}

/// A search is restricted exactly when a file, a language or an extension is given. Its
/// parameters are, in order, the file's path, the language and `%` with the extension
/// (dot added where missing), each where given, one per clause; its condition begins with
/// the clause of the first restriction given: `file_path = ?` for a file, else
/// `language = ?`, else `file_path LIKE ?`.
pub proof fn law_filter_restricts_as_given(
    path_filter: Option<Seq<char>>,
    language: Option<Seq<char>>,
    extension: Option<Seq<char>>,
)
    ensures
        crate::api::filter_spec(path_filter, language, extension) is None <==> (path_filter is None
            && language is None && extension is None),
        crate::api::filter_spec(path_filter, language, extension) matches Some((c, ps)) ==> {
            &&& ps == (match path_filter {
                Some(p) => seq![p],
                None => Seq::<Seq<char>>::empty(),
            }) + (match language {
                Some(l) => seq![l],
                None => Seq::<Seq<char>>::empty(),
            }) + (match extension {
                Some(e) => seq![seq!['%'] + normalized_extension(e)],
                None => Seq::<Seq<char>>::empty(),
            })
            &&& path_filter is Some ==> c.take("file_path = ?"@.len() as int) == "file_path = ?"@
            &&& path_filter is None && language is Some ==> c.take("language = ?"@.len() as int)
                == "language = ?"@
            &&& path_filter is None && language is None ==> c.take("file_path LIKE ?"@.len() as int)
                == "file_path LIKE ?"@
        },
{
    let (clauses, params) = filter_parts(path_filter, language, extension);
    if clauses.len() > 0 {
        lemma_join_starts_with_first(clauses, " AND "@);
    }
}

/// Joined parts begin with the first part.
proof fn lemma_join_starts_with_first(parts: Seq<Seq<char>>, sep: Seq<char>)
    requires
        parts.len() >= 1,
    ensures
        join(parts, sep).len() >= parts[0].len(),
        join(parts, sep).take(parts[0].len() as int) == parts[0],
    decreases parts.len(),
{
    if parts.len() == 1 {
        assert(join(parts, sep).take(parts[0].len() as int) =~= parts[0]);
    } else {
        lemma_join_starts_with_first(parts.drop_last(), sep);
        assert(parts.drop_last()[0] == parts[0]);
        let j = join(parts.drop_last(), sep);
        assert((j + sep + parts.last()).take(parts[0].len() as int) =~= j.take(parts[0].len() as int));
    }
}

/// How answers are judged: every 2xx answer succeeds, whatever the call; besides, deleting
/// an index that is not there (404) and creating one that is (409) succeed, and asking for
/// an index that is not there (404) finds it absent; every other answer fails. Only that
/// last case finds an index absent.
pub proof fn law_answers_judged_by_status(call: crate::client::ApiCall, status: u16)
    ensures
        200 <= status <= 299 ==> crate::client::outcome_spec(call, status) == crate::client::Outcome::Success,
        call == crate::client::ApiCall::DeleteIndex && status == 404 ==> crate::client::outcome_spec(call, status)
            == crate::client::Outcome::Success,
        call == crate::client::ApiCall::CreateIndex && status == 409 ==> crate::client::outcome_spec(call, status)
            == crate::client::Outcome::Success,
        call == crate::client::ApiCall::GetIndexInfo && status == 404 ==> crate::client::outcome_spec(call, status)
            == crate::client::Outcome::Absent,
        !(200 <= status <= 299) && !(call == crate::client::ApiCall::DeleteIndex && status == 404) && !(call
            == crate::client::ApiCall::CreateIndex && status == 409) && !(call == crate::client::ApiCall::GetIndexInfo
            && status == 404) ==> crate::client::outcome_spec(call, status) == crate::client::Outcome::Failure,
{
}

/// The directory of the state files is known whenever the data directory or the home
/// directory is: `semgrep/states` under the data directory when it is known, else
/// `.local/share/semgrep/states` under the home directory.
pub proof fn law_states_dir_found(data_dir: Option<Seq<char>>, home_dir: Option<Seq<char>>)
    ensures
        crate::api::states_dir_spec(data_dir, home_dir) is Some <==> (data_dir is Some || home_dir is Some),
        forall|d: Seq<char>|
            data_dir == Some(d) && d.len() > 0 && d.last() != '/' ==> crate::api::states_dir_spec(
                data_dir,
                home_dir,
            ) == Some(#[trigger] (d + "/semgrep/states"@)),
        forall|h: Seq<char>|
            data_dir is None && home_dir == Some(h) && h.len() > 0 && h.last() != '/'
                ==> crate::api::states_dir_spec(data_dir, home_dir) == Some(
                #[trigger] (h + "/.local/share/semgrep/states"@),
            ),
{
    reveal_strlit("semgrep");
    reveal_strlit("states");
    reveal_strlit(".local");
    reveal_strlit("share");
    reveal_strlit("/semgrep/states");
    reveal_strlit("/.local/share/semgrep/states");
    match data_dir {
        Some(d) => {
            if d.len() > 0 && d.last() != '/' {
                let a = join_path(d, "semgrep"@);
                assert(a == d + seq!['/'] + "semgrep"@);
                assert(a.last() == 'p');
                assert(join_path(a, "states"@) =~= d + "/semgrep/states"@);
            }
        },
        None => {
            match home_dir {
                Some(h) => {
                    if h.len() > 0 && h.last() != '/' {
                        let a = join_path(h, ".local"@);
                        assert(a == h + seq!['/'] + ".local"@);
                        assert(a.last() == 'l');
                        let b = join_path(a, "share"@);
                        assert(b == a + seq!['/'] + "share"@);
                        assert(b.last() == 'e');
                        let c = join_path(b, "semgrep"@);
                        assert(c == b + seq!['/'] + "semgrep"@);
                        assert(c.last() == 'p');
                        assert(join_path(c, "states"@) =~= h + "/.local/share/semgrep/states"@);
                    }
                },
                None => {},
            }
        },
    }
}

/// The names of directories that are never searched.
pub open spec fn ignored_dir_table() -> Seq<Seq<char>> {
    seq![
        ".git"@,
        ".hg"@,
        ".svn"@,
        "node_modules"@,
        "target"@,
        "dist"@,
        "build"@,
        ".next"@,
        ".idea"@,
        ".vscode"@,
    ]
}

/// A directory is skipped by the walk exactly when its name is one of `.git`, `.hg`,
/// `.svn`, `node_modules`, `target`, `dist`, `build`, `.next`, `.idea`, `.vscode`.
pub proof fn law_ignored_directories(name: Seq<char>)
    ensures
        crate::paths::is_ignored_name(name) <==> ignored_dir_table().contains(name),
{
    let tb = ignored_dir_table();
    if crate::paths::is_ignored_name(name) {
        if name == ".git"@ {
            assert(tb[0] == name);
        } else if name == ".hg"@ {
            assert(tb[1] == name);
        } else if name == ".svn"@ {
            assert(tb[2] == name);
        } else if name == "node_modules"@ {
            assert(tb[3] == name);
        } else if name == "target"@ {
            assert(tb[4] == name);
        } else if name == "dist"@ {
            assert(tb[5] == name);
        } else if name == "build"@ {
            assert(tb[6] == name);
        } else if name == ".next"@ {
            assert(tb[7] == name);
        } else if name == ".idea"@ {
            assert(tb[8] == name);
        } else {
            assert(tb[9] == name);
        }
    }
    if tb.contains(name) {
        let j = choose|j: int| 0 <= j < tb.len() && tb[j] == name;
        if j == 0 {} else if j == 1 {} else if j == 2 {} else if j == 3 {} else if j == 4 {} else if j == 5 {} else if j == 6 {} else if j == 7 {} else if j == 8 {} else {}
    }
}

} // verus!
