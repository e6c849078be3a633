use vstd::prelude::*;

use crate::errors::SemgrepError;
use crate::parser::Language;
use crate::text::{chars_eq_str, chars_of, join, lower, push_all, seqs_of, string_of, to_ascii_lowercase};

verus! {

/// The pieces of `s` ended so far, and the piece under way, after its first `n` characters.
pub open spec fn split_upto(s: Seq<char>, sep: char, n: nat) -> (Seq<Seq<char>>, Seq<char>)
    decreases n,
{
    if n == 0 {
        (seq![], seq![])
    } else {
        let (done, cur) = split_upto(s, sep, (n - 1) as nat);
        if s[n - 1] == sep {
            (done.push(cur), seq![])
        } else {
            (done, cur.push(s[n - 1]))
        }
    }
}

/// `str::split` on one character: the pieces between the separators, empty ones included.
pub open spec fn split(s: Seq<char>, sep: char) -> Seq<Seq<char>> {
    let (done, cur) = split_upto(s, sep, s.len());
    done.push(cur)
}

/// The component `.`.
pub open spec fn dot() -> Seq<char> {
    seq!['.']
}

/// The component `..`.
pub open spec fn dot_dot() -> Seq<char> {
    seq!['.', '.']
}

/// The root component, written `/`.
pub open spec fn root_component() -> Seq<char> {
    seq!['/']
}

/// Whether the path begins at the root.
pub open spec fn has_root(s: Seq<char>) -> bool {
    s.len() > 0 && s[0] == '/'
}

/// The pieces from index `i` on that are components: not empty, and not `.` unless it
/// opens a relative path.
pub open spec fn kept_pieces(pieces: Seq<Seq<char>>, i: int, rooted: bool) -> Seq<Seq<char>>
    decreases pieces.len() - i,
{
    if i < 0 || i >= pieces.len() {
        seq![]
    } else {
        let p = pieces[i];
        let rest = kept_pieces(pieces, i + 1, rooted);
        if p.len() > 0 && (p != dot() || (i == 0 && !rooted)) {
            seq![p] + rest
        } else {
            rest
        }
    }
}

/// `Path::components` for a Unix path: the root (as `/`) when the path begins with one,
/// then the pieces between separators, without empty pieces and without `.` except at the
/// head of a relative path.
pub open spec fn components(s: Seq<char>) -> Seq<Seq<char>> {
    let body = kept_pieces(split(s, '/'), 0, has_root(s));
    if has_root(s) {
        seq![root_component()] + body
    } else {
        body
    }
}

/// `Path::file_name`: the last component, when it is a normal one.
pub open spec fn file_name(s: Seq<char>) -> Option<Seq<char>> {
    let c = components(s);
    if c.len() > 0 && c.last() != root_component() && c.last() != dot() && c.last() != dot_dot() {
        Some(c.last())
    } else {
        None
    }
}

/// The index of the last `.` before index `i`, or -1.
pub open spec fn last_dot_before(s: Seq<char>, i: int) -> int
    decreases i,
{
    if i <= 0 || i > s.len() {
        -1
    } else if s[i - 1] == '.' {
        i - 1
    } else {
        last_dot_before(s, i - 1)
    }
}

/// The extension of a file name: what follows its last `.`, unless there is none or the
/// name's only `.` is its first character.
pub open spec fn name_extension(name: Seq<char>) -> Option<Seq<char>> {
    let k = last_dot_before(name, name.len() as int);
    if k <= 0 {
        None
    } else {
        Some(name.skip(k + 1))
    }
}

/// `Path::extension`.
pub open spec fn path_extension(s: Seq<char>) -> Option<Seq<char>> {
    match file_name(s) {
        Some(n) => name_extension(n),
        None => None,
    }
}

/// The language of files with the (lower-case) extension `e`.
pub open spec fn language_of_extension(e: Seq<char>) -> Option<Language> {
    if e == "py"@ {
        Some(Language::Python)
    } else if e == "js"@ || e == "jsx"@ || e == "mjs"@ || e == "cjs"@ {
        Some(Language::JavaScript)
    } else if e == "ts"@ || e == "tsx"@ {
        Some(Language::TypeScript)
    } else if e == "rs"@ {
        Some(Language::Rust)
    } else if e == "go"@ {
        Some(Language::Go)
    } else {
        None
    }
}

/// The language of a source file, by its extension in any case.
pub open spec fn language_of_path(path: Seq<char>) -> Option<Language> {
    match path_extension(path) {
        Some(e) => language_of_extension(lower(e)),
        None => None,
    }
}

/// Names of directories that are never searched.
pub open spec fn is_ignored_name(name: Seq<char>) -> bool {
    ||| name == ".git"@
    ||| name == ".hg"@
    ||| name == ".svn"@
    ||| name == "node_modules"@
    ||| name == "target"@
    ||| name == "dist"@
    ||| name == "build"@
    ||| name == ".next"@
    ||| name == ".idea"@
    ||| name == ".vscode"@
}

/// `s` split at each `sep`.
pub fn split_chars(s: &[char], sep: char) -> (res: Vec<Vec<char>>)
    ensures
        seqs_of(res@) == split(s@, sep),
{
    let mut done: Vec<Vec<char>> = Vec::new();
    let mut cur: Vec<char> = Vec::new();
    for i in 0..s.len()
        invariant
            (seqs_of(done@), cur@) == split_upto(s@, sep, i as nat),
    {
        let c = s[i];
        if c == sep {
            let ghost before = seqs_of(done@);
            done.push(cur);
            cur = Vec::new();
            assert(seqs_of(done@) =~= before.push(split_upto(s@, sep, i as nat).1));
        } else {
            cur.push(c);
        }
    }
    let ghost before = seqs_of(done@);
    done.push(cur);
    assert(seqs_of(done@) =~= before.push(split_upto(s@, sep, s@.len()).1));
    done
}

/// The offset in the text of piece `i` of a split at `/`: the pieces before it, each with
/// its separator.
pub open spec fn piece_offset(pieces: Seq<Seq<char>>, i: int) -> int
    decreases i,
{
    if i <= 0 {
        0
    } else {
        piece_offset(pieces, i - 1) + pieces[i - 1].len() + 1
    }
}

/// Where the pieces from index `i` on that `kept_pieces` keeps stand in the text: the
/// offsets of their first character and past their last.
pub open spec fn kept_spans(pieces: Seq<Seq<char>>, i: int, rooted: bool) -> Seq<(int, int)>
    decreases pieces.len() - i,
{
    if i < 0 || i >= pieces.len() {
        seq![]
    } else {
        let p = pieces[i];
        let rest = kept_spans(pieces, i + 1, rooted);
        if p.len() > 0 && (p != dot() || (i == 0 && !rooted)) {
            seq![(piece_offset(pieces, i), piece_offset(pieces, i) + p.len())] + rest
        } else {
            rest
        }
    }
}

/// Where each component of `s` stands in the text, in the order of `components`: the root
/// at offset 0, each other component at its piece.
pub open spec fn component_spans(s: Seq<char>) -> Seq<(int, int)> {
    let body = kept_spans(split(s, '/'), 0, has_root(s));
    if has_root(s) {
        seq![(0int, 1int)] + body
    } else {
        body
    }
}

/// The offsets of a text's pieces do not depend on what follows them.
proof fn lemma_piece_offset_push(x: Seq<Seq<char>>, e: Seq<char>, k: int)
    requires
        0 <= k <= x.len(),
    ensures
        piece_offset(x.push(e), k) == piece_offset(x, k),
    decreases k,
{
    if k > 0 {
        lemma_piece_offset_push(x, e, k - 1);
    }
}

/// Splitting the first `n` characters: the piece under way ends at `n`.
proof fn lemma_split_upto_offsets(s: Seq<char>, sep: char, n: nat)
    requires
        n <= s.len(),
    ensures
        piece_offset(split_upto(s, sep, n).0, split_upto(s, sep, n).0.len() as int) + split_upto(s, sep, n).1.len()
            == n,
    decreases n,
{
    if n > 0 {
        lemma_split_upto_offsets(s, sep, (n - 1) as nat);
        let (d, c) = split_upto(s, sep, (n - 1) as nat);
        if s[n - 1] == sep {
            lemma_piece_offset_push(d, c, d.len() as int);
        }
    }
}

/// The last piece of a split ends where the text ends.
pub proof fn lemma_split_total(s: Seq<char>)
    ensures
        split(s, '/').len() >= 1,
        piece_offset(split(s, '/'), split(s, '/').len() - 1) + split(s, '/').last().len() == s.len(),
{
    let (d, c) = split_upto(s, '/', s.len());
    lemma_split_upto_offsets(s, '/', s.len());
    lemma_piece_offset_push(d, c, d.len() as int);
}

/// Later pieces stand further on: a piece ends before any later one starts.
pub proof fn lemma_piece_offset_mono(p: Seq<Seq<char>>, i: int, j: int)
    requires
        0 <= i <= j <= p.len(),
    ensures
        piece_offset(p, i) <= piece_offset(p, j),
        i < j ==> piece_offset(p, i) + p[i].len() < piece_offset(p, j),
    decreases j - i,
{
    if i < j {
        lemma_piece_offset_mono(p, i, j - 1);
        if i < j - 1 {
            lemma_piece_offset_mono(p, i + 1, j);
        }
    }
}

/// As many spans as kept pieces, each with its piece's length.
pub proof fn lemma_kept_spans_match(pieces: Seq<Seq<char>>, i: int, rooted: bool)
    requires
        0 <= i,
    ensures
        kept_spans(pieces, i, rooted).len() == kept_pieces(pieces, i, rooted).len(),
        forall|k: int|
            0 <= k < kept_spans(pieces, i, rooted).len() ==> (#[trigger] kept_spans(pieces, i, rooted)[k]).1
                - kept_spans(pieces, i, rooted)[k].0 == kept_pieces(pieces, i, rooted)[k].len(),
    decreases pieces.len() - i,
{
    if i < pieces.len() {
        lemma_kept_spans_match(pieces, i + 1, rooted);
        let ks = kept_spans(pieces, i, rooted);
        let kp = kept_pieces(pieces, i, rooted);
        let p = pieces[i];
        if p.len() > 0 && (p != dot() || (i == 0 && !rooted)) {
            assert forall|k: int| 0 <= k < ks.len() implies (#[trigger] ks[k]).1 - ks[k].0 == kp[k].len() by {
                if k > 0 {
                    assert(ks[k] == kept_spans(pieces, i + 1, rooted)[k - 1]);
                    assert(kp[k] == kept_pieces(pieces, i + 1, rooted)[k - 1]);
                }
            }
        }
    }
}

/// The spans of the kept pieces from index `i` on lie between the offset of piece `i` and
/// the end of the last piece, in order, none overlapping the next.
pub proof fn lemma_kept_spans_ordered(pieces: Seq<Seq<char>>, i: int, rooted: bool)
    requires
        0 <= i,
        pieces.len() >= 1,
    ensures
        forall|a: int|
            0 <= a < kept_spans(pieces, i, rooted).len() ==> piece_offset(pieces, i) <= (
            #[trigger] kept_spans(pieces, i, rooted)[a]).0 <= kept_spans(pieces, i, rooted)[a].1
                <= piece_offset(pieces, pieces.len() - 1) + pieces.last().len(),
        forall|a: int, b: int|
            0 <= a < b < kept_spans(pieces, i, rooted).len() ==> (#[trigger] kept_spans(pieces, i, rooted)[a]).1
                <= (#[trigger] kept_spans(pieces, i, rooted)[b]).0,
    decreases pieces.len() - i,
{
    if i < pieces.len() {
        lemma_kept_spans_ordered(pieces, i + 1, rooted);
        lemma_piece_offset_mono(pieces, i, pieces.len() - 1);
        lemma_piece_offset_mono(pieces, i, i + 1);
        let rest = kept_spans(pieces, i + 1, rooted);
        let ks = kept_spans(pieces, i, rooted);
        let p = pieces[i];
        if i + 1 < pieces.len() {
            lemma_piece_offset_mono(pieces, i + 1, pieces.len() - 1);
        }
        if p.len() > 0 && (p != dot() || (i == 0 && !rooted)) {
            assert forall|a: int| 0 <= a < ks.len() implies piece_offset(pieces, i) <= (#[trigger] ks[a]).0
                <= ks[a].1 <= piece_offset(pieces, pieces.len() - 1) + pieces.last().len() by {
                if a > 0 {
                    assert(ks[a] == rest[a - 1]);
                } else if i < pieces.len() - 1 {
                    lemma_piece_offset_mono(pieces, i, pieces.len() - 1);
                }
            }
            assert forall|a: int, b: int| 0 <= a < b < ks.len() implies (#[trigger] ks[a]).1 <= (#[trigger] ks[b]).0 by {
                assert(ks[b] == rest[b - 1]);
                if a > 0 {
                    assert(ks[a] == rest[a - 1]);
                }
            }
        }
    }
}

/// The spans of the components of `s` lie in `s`, in order.
pub proof fn lemma_component_spans_ordered(s: Seq<char>)
    ensures
        component_spans(s).len() == components(s).len(),
        forall|a: int, b: int|
            0 <= a <= b < component_spans(s).len() ==> 0 <= (#[trigger] component_spans(s)[a]).0 <= (
            #[trigger] component_spans(s)[b]).1 <= s.len(),
{
    let ps = split(s, '/');
    let r = has_root(s);
    lemma_split_total(s);
    lemma_kept_spans_match(ps, 0, r);
    lemma_kept_spans_ordered(ps, 0, r);
    let ks = kept_spans(ps, 0, r);
    let cs = component_spans(s);
    assert forall|a: int, b: int| 0 <= a <= b < cs.len() implies 0 <= (#[trigger] cs[a]).0 <= (#[trigger] cs[b]).1
        <= s.len() by {
        if r {
            if b > 0 {
                assert(cs[b] == ks[b - 1]);
            }
            if a > 0 {
                assert(cs[a] == ks[a - 1]);
            }
        } else {
            assert(cs[a] == ks[a] && cs[b] == ks[b]);
        }
    }
}

/// The spans of a sequence of pairs of `usize`, as integers.
pub open spec fn spans_view(v: Seq<(usize, usize)>) -> Seq<(int, int)> {
    v.map_values(|p: (usize, usize)| (p.0 as int, p.1 as int))
}

/// Where the components of the Unix path `s` stand in it.
pub fn component_spans_of(s: &[char]) -> (res: Vec<(usize, usize)>)
    ensures
        spans_view(res@) == component_spans(s@),
{
    let pieces = split_chars(s, '/');
    let ghost ps = seqs_of(pieces@);
    proof {
        lemma_split_total(s@);
    }
    let rooted = s.len() > 0 && s[0] == '/';
    let mut out: Vec<(usize, usize)> = Vec::new();
    if rooted {
        out.push((0, 1));
    }
    assert(spans_view(out@) + kept_spans(ps, 0, rooted) =~= component_spans(s@));
    let mut off: usize = 0;
    let mut i: usize = 0;
    while i < pieces.len()
        invariant
            ps == seqs_of(pieces@),
            ps == split(s@, '/'),
            ps.len() >= 1,
            piece_offset(ps, ps.len() - 1) + ps.last().len() == s@.len(),
            rooted == has_root(s@),
            i <= ps.len(),
            i < ps.len() ==> off as int == piece_offset(ps, i as int),
            spans_view(out@) + kept_spans(ps, i as int, rooted) == component_spans(s@),
        decreases pieces.len() - i,
    {
        proof {
            lemma_piece_offset_mono(ps, i as int, ps.len() - 1);
            if i + 1 < ps.len() {
                lemma_piece_offset_mono(ps, i + 1, ps.len() - 1);
            }
        }
        let p = &pieces[i];
        assert(p@ == ps[i as int]);
        assert(piece_offset(ps, i as int) + ps[i as int].len() <= s@.len()) by {
            if i + 1 < ps.len() {
                lemma_piece_offset_mono(ps, i as int, ps.len() - 1);
            }
        }
        assert(s@.len() == s.len());
        let keep = p.len() > 0 && (!(p.len() == 1 && p[0] == '.') || (i == 0 && !rooted));
        assert((p@ == dot()) == (p@.len() == 1 && p@[0] == '.')) by {
            if p@.len() == 1 && p@[0] == '.' {
                assert(p@ =~= dot());
            }
        }
        let ghost before = spans_view(out@);
        if keep {
            out.push((off, off + p.len()));
            assert(spans_view(out@) =~= before.push((piece_offset(ps, i as int), piece_offset(ps, i as int) + ps[i as int].len())));
            assert(spans_view(out@) + kept_spans(ps, i + 1, rooted) =~= before + kept_spans(ps, i as int, rooted));
        }
        if i + 1 < pieces.len() {
            assert(piece_offset(ps, i + 1) <= s@.len());
            off = off + p.len() + 1;
        }
        i = i + 1;
    }
    assert(spans_view(out@) =~= component_spans(s@));
    out
}

/// The components of the Unix path `s`.
pub fn path_components(s: &[char]) -> (res: Vec<Vec<char>>)
    ensures
        seqs_of(res@) == components(s@),
{
    let pieces = split_chars(s, '/');
    let ghost ps = seqs_of(pieces@);
    let rooted = s.len() > 0 && s[0] == '/';
    let mut out: Vec<Vec<char>> = Vec::new();
    if rooted {
        let mut r: Vec<char> = Vec::new();
        r.push('/');
        assert(r@ =~= root_component());
        out.push(r);
        assert(seqs_of(out@) =~= seq![root_component()]);
    } else {
        assert(seqs_of(out@) =~= seq![]);
    }
    let ghost head = seqs_of(out@);
    assert(head =~= if has_root(s@) { seq![root_component()] } else { seq![] });
    let mut i = pieces.len();
    let mut tail: Vec<Vec<char>> = Vec::new();
    // Collect the kept pieces from the back, then put them in order.
    while i > 0
        invariant
            i <= pieces@.len(),
            ps == seqs_of(pieces@),
            rooted == has_root(s@),
            seqs_of(tail@).reverse() == kept_pieces(ps, i as int, rooted),
        decreases i,
    {
        i = i - 1;
        let p = &pieces[i];
        let keep = p.len() > 0 && (!(p.len() == 1 && p[0] == '.') || (i == 0 && !rooted));
        assert((p@ == dot()) == (p@.len() == 1 && p@[0] == '.')) by {
            if p@.len() == 1 && p@[0] == '.' {
                assert(p@ =~= dot());
            }
        }
        if keep {
            let ghost before = seqs_of(tail@);
            let mut q: Vec<char> = Vec::new();
            push_all(&mut q, p.as_slice());
            assert(q@ =~= p@);
            tail.push(q);
            assert(seqs_of(tail@) =~= before.push(ps[i as int]));
            assert(seqs_of(tail@).reverse() =~= seq![ps[i as int]] + before.reverse());
        }
    }
    let ghost done_tail = seqs_of(tail@).reverse();
    let mut j = tail.len();
    while j > 0
        invariant
            j <= tail@.len(),
            seqs_of(out@) == head + seqs_of(tail@).reverse().take(tail@.len() - j),
        decreases j,
    {
        j = j - 1;
        let ghost before = seqs_of(out@);
        let mut q: Vec<char> = Vec::new();
        push_all(&mut q, tail[j].as_slice());
        assert(q@ =~= tail@[j as int]@);
        out.push(q);
        assert(seqs_of(tail@).reverse()[tail@.len() - 1 - j] == tail@[j as int]@);
        assert(seqs_of(tail@).reverse().take(tail@.len() - j) =~= seqs_of(tail@).reverse().take(
            tail@.len() - 1 - j,
        ).push(tail@[j as int]@));
        assert(seqs_of(out@) =~= before.push(tail@[j as int]@));
    }
    assert(seqs_of(tail@).reverse().take(tail@.len() as int) =~= seqs_of(tail@).reverse());
    assert(seqs_of(out@) =~= components(s@));
    out
}

/// `Path::file_name` of the Unix path `s`.
pub fn file_name_of(s: &[char]) -> (res: Option<Vec<char>>)
    ensures
        crate::parser::opt_chars_view(res) == file_name(s@),
{
    let mut comps = path_components(s);
    let n = comps.len();
    if n == 0 {
        return None;
    }
    let last = comps.pop().unwrap();
    assert(last@ == components(s@).last());
    let is_root = last.len() == 1 && last[0] == '/';
    let is_dot = last.len() == 1 && last[0] == '.';
    let is_dot_dot = last.len() == 2 && last[0] == '.' && last[1] == '.';
    assert(is_root == (last@ == root_component())) by {
        if is_root {
            assert(last@ =~= root_component());
        }
    }
    assert(is_dot == (last@ == dot())) by {
        if is_dot {
            assert(last@ =~= dot());
        }
    }
    assert(is_dot_dot == (last@ == dot_dot())) by {
        if is_dot_dot {
            assert(last@ =~= dot_dot());
        }
    }
    if is_root || is_dot || is_dot_dot {
        None
    } else {
        Some(last)
    }
}

/// The extension of a file name.
fn extension_of_name(name: &[char]) -> (res: Option<Vec<char>>)
    ensures
        crate::parser::opt_chars_view(res) == name_extension(name@),
{
    let mut i = name.len();
    while i > 0 && name[i - 1] != '.'
        invariant
            i <= name@.len(),
            last_dot_before(name@, name@.len() as int) == last_dot_before(name@, i as int),
        decreases i,
    {
        i = i - 1;
    }
    if i <= 1 {
        return None;
    }
    Some(crate::text::sub_chars(name, i, name.len()))
}

/// `Path::extension` of the Unix path `s`.
pub fn extension_of(s: &[char]) -> (res: Option<Vec<char>>)
    ensures
        crate::parser::opt_chars_view(res) == path_extension(s@),
{
    match file_name_of(s) {
        Some(n) => extension_of_name(n.as_slice()),
        None => None,
    }
}

/// The language of the source file at `path`, judged by its extension in any case
/// (`py`; `js`, `jsx`, `mjs`, `cjs`; `ts`, `tsx`; `rs`; `go`).
pub fn detect_language(path: &str) -> (res: Option<Language>)
    ensures
        res == language_of_path(path@),
{
    let p = chars_of(path);
    let e = match extension_of(p.as_slice()) {
        Some(e) => e,
        None => return None,
    };
    let e = to_ascii_lowercase(e.as_slice());
    if chars_eq_str(e.as_slice(), "py") {
        Some(Language::Python)
    } else if chars_eq_str(e.as_slice(), "js") || chars_eq_str(e.as_slice(), "jsx")
        || chars_eq_str(e.as_slice(), "mjs") || chars_eq_str(e.as_slice(), "cjs") {
        Some(Language::JavaScript)
    } else if chars_eq_str(e.as_slice(), "ts") || chars_eq_str(e.as_slice(), "tsx") {
        Some(Language::TypeScript)
    } else if chars_eq_str(e.as_slice(), "rs") {
        Some(Language::Rust)
    } else if chars_eq_str(e.as_slice(), "go") {
        Some(Language::Go)
    } else {
        None
    }
}

/// Whether the walk skips the entry at `path`: its file name is that of a version-control,
/// dependency, build or editor directory.
pub fn is_ignored_dir(path: &str) -> (res: bool)
    ensures
        res == (file_name(path@) matches Some(n) && is_ignored_name(n)),
{
    let p = chars_of(path);
    match file_name_of(p.as_slice()) {
        Some(n) => {
            let n = n.as_slice();
            chars_eq_str(n, ".git") || chars_eq_str(n, ".hg") || chars_eq_str(n, ".svn")
                || chars_eq_str(n, "node_modules") || chars_eq_str(n, "target") || chars_eq_str(
                n,
                "dist",
            ) || chars_eq_str(n, "build") || chars_eq_str(n, ".next") || chars_eq_str(n, ".idea")
                || chars_eq_str(n, ".vscode")
        },
        None => false,
    }
}


/// The path string of a component sequence: `/` for the root, the rest joined with `/`.
pub open spec fn path_of_components(c: Seq<Seq<char>>) -> Seq<char> {
    if c.len() > 0 && c[0] == root_component() {
        seq!['/'] + join(c.drop_first(), seq!['/'])
    } else {
        join(c, seq!['/'])
    }
}

/// `Path::parent`: the path without its last component, unless that is the root. The text
/// is rebuilt from the components, which gives `Path::parent`'s text for paths with no `.`
/// component inside and no repeated `/`, such as canonical ones.
pub open spec fn parent(s: Seq<char>) -> Option<Seq<char>> {
    let c = components(s);
    if c.len() > 0 && c.last() != root_component() {
        Some(path_of_components(c.drop_last()))
    } else {
        None
    }
}

/// `s` with each `\\` made `/`.
pub open spec fn forward_slashes(s: Seq<char>) -> Seq<char> {
    s.map_values(|c: char| if c == '\\' { '/' } else { c })
}

/// `Path::strip_prefix`, then every `\\` made `/`: when the components of `root` begin
/// those of `path`, the text of `path` from its first component past them to the end of its
/// last component (separators and `.` pieces at either end dropped, those inside kept),
/// empty when no component is past them.
pub open spec fn relative_path_spec(root: Seq<char>, path: Seq<char>) -> Option<Seq<char>> {
    let rc = components(root);
    let pc = components(path);
    if rc.len() <= pc.len() && pc.take(rc.len() as int) == rc {
        if rc.len() == pc.len() {
            Some(seq![])
        } else {
            let sp = component_spans(path);
            Some(forward_slashes(path.subrange(sp[rc.len() as int].0, sp[pc.len() - 1].1)))
        }
    } else {
        None
    }
}

/// The components from index `from` on, joined with `sep`.
fn join_from(parts: &Vec<Vec<char>>, from: usize, sep: char) -> (res: Vec<char>)
    requires
        from <= parts@.len(),
    ensures
        res@ == join(seqs_of(parts@).skip(from as int), seq![sep]),
{
    let ghost all = seqs_of(parts@).skip(from as int);
    let mut out: Vec<char> = Vec::new();
    let mut i = from;
    while i < parts.len()
        invariant
            from <= i <= parts@.len(),
            all == seqs_of(parts@).skip(from as int),
            out@ == join(all.take(i - from), seq![sep]),
        decreases parts.len() - i,
    {
        assert(all.take(i + 1 - from).drop_last() =~= all.take(i - from));
        assert(all.take(i + 1 - from).last() == parts@[i as int]@);
        if i > from {
            out.push(sep);
        } else {
            assert(out@ =~= seq![]);
        }
        push_all(&mut out, parts[i].as_slice());
        assert(out@ =~= join(all.take(i + 1 - from), seq![sep]));
        i = i + 1;
    }
    assert(all.take(all.len() as int) =~= all);
    out
}

/// The path of `path` relative to `root`, with forward slashes; an error when `path` does
/// not lie under `root`.
pub fn relative_path(root: &str, path: &str) -> (res: Result<String, SemgrepError>)
    ensures
        match relative_path_spec(root@, path@) {
            Some(r) => res matches Ok(s) && s@ == r,
            None => res matches Err(SemgrepError::NotUnderRoot { path: p, root: r }) && p@
                == path@ && r@ == root@,
        },
{
    let rv = chars_of(root);
    let pv = chars_of(path);
    let rc = path_components(rv.as_slice());
    let pc = path_components(pv.as_slice());
    let ghost rs = seqs_of(rc@);
    let ghost ps = seqs_of(pc@);
    if rc.len() > pc.len() {
        return Err(
            SemgrepError::NotUnderRoot {
                path: <String as vstd::string::StringExecFns>::from_str(path),
                root: <String as vstd::string::StringExecFns>::from_str(root),
            },
        );
    }
    let mut i: usize = 0;
    while i < rc.len()
        invariant
            rs == seqs_of(rc@),
            ps == seqs_of(pc@),
            rs == components(root@),
            ps == components(path@),
            rc@.len() <= pc@.len(),
            i <= rc@.len(),
            ps.take(i as int) == rs.take(i as int),
        decreases rc.len() - i,
    {
        if !crate::text::chars_eq(rc[i].as_slice(), pc[i].as_slice()) {
            assert(ps.take(rs.len() as int)[i as int] != rs[i as int]);
            return Err(
                SemgrepError::NotUnderRoot {
                    path: <String as vstd::string::StringExecFns>::from_str(path),
                    root: <String as vstd::string::StringExecFns>::from_str(root),
                },
            );
        }
        assert(ps.take(i + 1) =~= ps.take(i as int).push(ps[i as int]));
        assert(rs.take(i + 1) =~= rs.take(i as int).push(rs[i as int]));
        i = i + 1;
    }
    assert(rs.take(rs.len() as int) =~= rs);
    if rc.len() == pc.len() {
        let empty: Vec<char> = Vec::new();
        return Ok(string_of(empty.as_slice()));
    }
    let spans = component_spans_of(pv.as_slice());
    proof {
        lemma_component_spans_ordered(path@);
    }
    assert(spans@.len() == pc@.len());
    let start = spans[rc.len()].0;
    let end = spans[pc.len() - 1].1;
    assert(spans_view(spans@)[rc.len() as int] == (start as int, spans@[rc.len() as int].1 as int));
    assert(spans_view(spans@)[pc.len() - 1] == (spans@[pc.len() - 1].0 as int, end as int));
    let ghost sub = path@.subrange(start as int, end as int);
    let mut out: Vec<char> = Vec::new();
    let mut k = start;
    while k < end
        invariant
            start <= k <= end,
            end <= pv@.len(),
            pv@ == path@,
            sub == path@.subrange(start as int, end as int),
            out@ == forward_slashes(sub.take(k - start)),
        decreases end - k,
    {
        let c = pv[k];
        out.push(if c == '\\' { '/' } else { c });
        assert(sub.take(k + 1 - start) =~= sub.take(k - start).push(c));
        assert(forward_slashes(sub.take(k + 1 - start)) =~= forward_slashes(sub.take(k - start)).push(
            if c == '\\' { '/' } else { c },
        ));
        k = k + 1;
    }
    assert(sub.take(end - start) =~= sub);
    Ok(string_of(out.as_slice()))
}

/// `Path::parent` of a Unix path, rebuilt from its components.
pub fn parent_of(s: &[char]) -> (res: Option<Vec<char>>)
    ensures
        crate::parser::opt_chars_view(res) == parent(s@),
{
    let mut comps = path_components(s);
    let ghost c = seqs_of(comps@);
    if comps.len() == 0 {
        return None;
    }
    let last = comps.pop().unwrap();
    assert(seqs_of(comps@) =~= c.drop_last());
    if last.len() == 1 && last[0] == '/' {
        assert(last@ =~= root_component());
        return None;
    }
    assert(last@ != root_component());
    let rooted = comps.len() > 0 && comps[0].len() == 1 && comps[0][0] == '/';
    assert(rooted == (c.drop_last().len() > 0 && c.drop_last()[0] == root_component())) by {
        if comps.len() > 0 && comps@[0]@.len() == 1 && comps@[0]@[0] == '/' {
            assert(comps@[0]@ =~= root_component());
        }
    }
    if rooted {
        let body = join_from(&comps, 1, '/');
        let mut out: Vec<char> = Vec::new();
        out.push('/');
        push_all(&mut out, body.as_slice());
        assert(seqs_of(comps@).skip(1) =~= c.drop_last().drop_first());
        assert(out@ =~= seq!['/'] + body@);
        Some(out)
    } else {
        let body = join_from(&comps, 0, '/');
        assert(seqs_of(comps@).skip(0) =~= c.drop_last());
        Some(body)
    }
}

} // verus!
