use vstd::prelude::*;
use vstd::multiset::Multiset;

use crate::paths::{components, dot, dot_dot, path_components, root_component};
use crate::text::{chars_of, seqs_of};

verus! {

/// Lexicographic order on character sequences by code point, which is the byte order of
/// their UTF-8 encodings.
pub open spec fn chars_lt(a: Seq<char>, b: Seq<char>) -> bool
    decreases a.len(),
{
    if b.len() == 0 {
        false
    } else if a.len() == 0 {
        true
    } else if a[0] < b[0] {
        true
    } else if a[0] == b[0] {
        chars_lt(a.drop_first(), b.drop_first())
    } else {
        false
    }
}

/// The place of a path component's kind in `std::path::Component`'s order: the root, then
/// `.`, then `..`, then normal names.
pub open spec fn component_rank(c: Seq<char>) -> int {
    if c == root_component() {
        1
    } else if c == dot() {
        2
    } else if c == dot_dot() {
        3
    } else {
        4
    }
}

/// The order of `std::path::Component`.
pub open spec fn component_lt(a: Seq<char>, b: Seq<char>) -> bool {
    component_rank(a) < component_rank(b) || (component_rank(a) == component_rank(b) && chars_lt(
        a,
        b,
    ))
}

/// Lexicographic order on component sequences.
pub open spec fn components_lt(a: Seq<Seq<char>>, b: Seq<Seq<char>>) -> bool
    decreases a.len(),
{
    if b.len() == 0 {
        false
    } else if a.len() == 0 {
        true
    } else if component_lt(a[0], b[0]) {
        true
    } else if a[0] == b[0] {
        components_lt(a.drop_first(), b.drop_first())
    } else {
        false
    }
}

/// The order of `PathBuf`: by components.
pub open spec fn path_lt(a: Seq<char>, b: Seq<char>) -> bool {
    components_lt(components(a), components(b))
}

/// No path of `s` is ordered before one that comes earlier.
pub open spec fn sorted_paths(s: Seq<Seq<char>>) -> bool {
    forall|i: int, j: int| 0 <= i < j < s.len() ==> !path_lt(#[trigger] s[j], #[trigger] s[i])
}

/// The character order is a strict total order.
pub proof fn lemma_chars_lt_order(a: Seq<char>, b: Seq<char>, c: Seq<char>)
    ensures
        chars_lt(a, b) ==> !chars_lt(b, a),
        chars_lt(a, b) && chars_lt(b, c) ==> chars_lt(a, c),
        !chars_lt(a, b) && !chars_lt(b, a) ==> a == b,
    decreases a.len(),
{
    if a.len() > 0 && b.len() > 0 && c.len() > 0 {
        lemma_chars_lt_order(a.drop_first(), b.drop_first(), c.drop_first());
    }
    if a.len() > 0 && b.len() > 0 {
        lemma_chars_lt_order(a.drop_first(), b.drop_first(), b.drop_first());
        if !chars_lt(a, b) && !chars_lt(b, a) {
            assert(a[0] == b[0]);
            assert(a =~= seq![a[0]] + a.drop_first());
            assert(b =~= seq![b[0]] + b.drop_first());
        }
    }
    if a.len() == 0 && b.len() == 0 {
        assert(a =~= b);
    }
}

/// The component order is a strict total order.
pub proof fn lemma_component_lt_order(a: Seq<char>, b: Seq<char>, c: Seq<char>)
    ensures
        component_lt(a, b) ==> !component_lt(b, a),
        component_lt(a, b) && component_lt(b, c) ==> component_lt(a, c),
        !component_lt(a, b) && !component_lt(b, a) ==> a == b,
{
    lemma_chars_lt_order(a, b, c);
}

/// The order on component sequences is a strict total order.
pub proof fn lemma_components_lt_order(a: Seq<Seq<char>>, b: Seq<Seq<char>>, c: Seq<Seq<char>>)
    ensures
        components_lt(a, b) ==> !components_lt(b, a),
        components_lt(a, b) && components_lt(b, c) ==> components_lt(a, c),
        !components_lt(a, b) && !components_lt(b, a) ==> a == b,
    decreases a.len(),
{
    if a.len() > 0 && b.len() > 0 {
        lemma_component_lt_order(a[0], b[0], a[0]);
        lemma_components_lt_order(a.drop_first(), b.drop_first(), b.drop_first());
        if !components_lt(a, b) && !components_lt(b, a) {
            assert(a =~= seq![a[0]] + a.drop_first());
            assert(b =~= seq![b[0]] + b.drop_first());
        }
        if c.len() > 0 {
            lemma_component_lt_order(a[0], b[0], c[0]);
            lemma_component_lt_order(b[0], c[0], a[0]);
            lemma_component_lt_order(a[0], c[0], b[0]);
            lemma_components_lt_order(a.drop_first(), b.drop_first(), c.drop_first());
        }
    }
    if a.len() == 0 && b.len() == 0 {
        assert(a =~= b);
    }
}

/// A path ordered before `a` is ordered before every path that `a` is not ordered after.
pub proof fn lemma_path_lt_before(x: Seq<char>, a: Seq<char>, b: Seq<char>)
    requires
        path_lt(x, a),
        !path_lt(b, a),
    ensures
        path_lt(x, b),
{
    lemma_components_lt_order(components(a), components(b), components(a));
    lemma_components_lt_order(components(x), components(a), components(b));
}

/// Whether `a` comes before `b` in the character order.
fn chars_less(a: &[char], b: &[char]) -> (res: bool)
    ensures
        res == chars_lt(a@, b@),
{
    let mut i: usize = 0;
    assert(a@.skip(0) =~= a@);
    assert(b@.skip(0) =~= b@);
    while i < a.len() && i < b.len()
        invariant
            i <= a@.len(),
            i <= b@.len(),
            chars_lt(a@, b@) == chars_lt(a@.skip(i as int), b@.skip(i as int)),
        decreases a.len() - i,
    {
        let x = a[i];
        let y = b[i];
        if x < y {
            return true;
        }
        if x != y {
            return false;
        }
        assert(a@.skip(i as int).drop_first() =~= a@.skip(i + 1));
        assert(b@.skip(i as int).drop_first() =~= b@.skip(i + 1));
        i = i + 1;
    }
    i < b.len()
}

/// Whether two character sequences are equal.
fn same_chars(a: &[char], b: &[char]) -> (res: bool)
    ensures
        res == (a@ == b@),
{
    crate::text::chars_eq(a, b)
}

/// The rank of a component.
fn rank_of(c: &[char]) -> (r: u8)
    ensures
        r as int == component_rank(c@),
{
    if c.len() == 1 && c[0] == '/' {
        assert(c@ =~= root_component());
        1
    } else if c.len() == 1 && c[0] == '.' {
        assert(c@ =~= dot());
        assert(c@ != root_component());
        2
    } else if c.len() == 2 && c[0] == '.' && c[1] == '.' {
        assert(c@ =~= dot_dot());
        assert(c@ != root_component());
        assert(c@ != dot());
        3
    } else {
        assert(c@ != root_component());
        assert(c@ != dot());
        assert(c@ != dot_dot());
        4
    }
}

/// Whether path `a` comes before path `b` in `PathBuf`'s order.
pub fn path_less(a: &str, b: &str) -> (res: bool)
    ensures
        res == path_lt(a@, b@),
{
    let av = chars_of(a);
    let bv = chars_of(b);
    let ca = path_components(av.as_slice());
    let cb = path_components(bv.as_slice());
    let ghost sa = seqs_of(ca@);
    let ghost sb = seqs_of(cb@);
    let mut i: usize = 0;
    assert(sa.skip(0) =~= sa);
    assert(sb.skip(0) =~= sb);
    while i < ca.len() && i < cb.len()
        invariant
            sa == seqs_of(ca@),
            sb == seqs_of(cb@),
            i <= ca@.len(),
            i <= cb@.len(),
            path_lt(a@, b@) == components_lt(sa.skip(i as int), sb.skip(i as int)),
        decreases ca.len() - i,
    {
        let x = ca[i].as_slice();
        let y = cb[i].as_slice();
        let rx = rank_of(x);
        let ry = rank_of(y);
        assert(sa.skip(i as int)[0] == x@);
        assert(sb.skip(i as int)[0] == y@);
        if rx < ry || (rx == ry && chars_less(x, y)) {
            return true;
        }
        if !same_chars(x, y) {
            return false;
        }
        assert(sa.skip(i as int).drop_first() =~= sa.skip(i + 1));
        assert(sb.skip(i as int).drop_first() =~= sb.skip(i + 1));
        i = i + 1;
    }
    i < cb.len()
}

/// `paths` put in `PathBuf`'s order, as `sort` does.
pub fn sort_paths(paths: Vec<String>) -> (res: Vec<String>)
    ensures
        sorted_paths(res@.map_values(|s: String| s@)),
        res@.map_values(|s: String| s@).to_multiset() == paths@.map_values(|s: String| s@).to_multiset(),
{
    let ghost input = paths@.map_values(|s: String| s@);
    let mut out: Vec<String> = Vec::new();
    let mut rest = paths;
    proof {
        broadcast use vstd::multiset::group_multiset_axioms, vstd::seq_lib::group_to_multiset_ensures;
        assert(out@.map_values(|s: String| s@) =~= seq![]);
        assert(out@.map_values(|s: String| s@).to_multiset() =~= Multiset::empty());
        assert(rest@.map_values(|s: String| s@) =~= input);
        assert(Multiset::<Seq<char>>::empty().add(input.to_multiset()) =~= input.to_multiset());
    }
    while rest.len() > 0
        invariant
            sorted_paths(out@.map_values(|s: String| s@)),
            out@.map_values(|s: String| s@).to_multiset().add(rest@.map_values(|s: String| s@).to_multiset())
                == input.to_multiset(),
        decreases rest.len(),
    {
        let ghost before_rest = rest@.map_values(|s: String| s@);
        let x = rest.pop().unwrap();
        proof {
            assert(before_rest =~= rest@.map_values(|s: String| s@).push(x@));
            vstd::seq_lib::to_multiset_build(rest@.map_values(|s: String| s@), x@);
        }
        let ghost ov = out@.map_values(|s: String| s@);
        let mut lo: usize = 0;
        let mut hi: usize = out.len();
        while lo < hi
            invariant
                hi <= out@.len(),
                lo <= hi,
                ov == out@.map_values(|s: String| s@),
                sorted_paths(ov),
                forall|i: int| 0 <= i < lo ==> !path_lt(x@, #[trigger] ov[i]),
                forall|j: int| hi <= j < ov.len() ==> path_lt(x@, #[trigger] ov[j]),
            decreases hi - lo,
        {
            let mid = lo + (hi - lo) / 2;
            if path_less(x.as_str(), out[mid].as_str()) {
                assert forall|j: int| mid <= j < ov.len() implies path_lt(x@, #[trigger] ov[j]) by {
                    if j > mid {
                        assert(!path_lt(ov[j], ov[mid as int]));
                        lemma_path_lt_before(x@, ov[mid as int], ov[j]);
                    }
                }
                hi = mid;
            } else {
                assert forall|i: int| 0 <= i <= mid implies !path_lt(x@, #[trigger] ov[i]) by {
                    if i < mid {
                        assert(!path_lt(ov[mid as int], ov[i]));
                        if path_lt(x@, ov[i]) {
                            lemma_path_lt_before(x@, ov[i], ov[mid as int]);
                        }
                    }
                }
                lo = mid + 1;
            }
        }
        let ghost xv = x@;
        out.insert(lo, x);
        proof {
            broadcast use vstd::multiset::group_multiset_axioms, vstd::seq_lib::group_to_multiset_ensures;
            let nv = out@.map_values(|s: String| s@);
            assert(nv =~= ov.insert(lo as int, xv));
            vstd::seq_lib::to_multiset_insert(ov, lo as int, xv);
            let rv = rest@.map_values(|s: String| s@);
            assert(nv.to_multiset().add(rv.to_multiset()) =~= ov.to_multiset().add(
                rv.to_multiset().insert(xv),
            ));
            assert forall|i: int, j: int| 0 <= i < j < nv.len() implies !path_lt(
                #[trigger] nv[j],
                #[trigger] nv[i],
            ) by {
                if j < lo {
                } else if j == lo {
                } else if i < lo {
                    assert(nv[j] == ov[j - 1]);
                    if path_lt(ov[j - 1], ov[i]) {
                        if j - 1 > i {
                        }
                    }
                } else if i == lo {
                    assert(nv[j] == ov[j - 1]);
                    assert(path_lt(xv, ov[j - 1]));
                    lemma_components_lt_order(components(xv), components(ov[j - 1]), components(xv));
                } else {
                    assert(nv[j] == ov[j - 1]);
                    assert(nv[i] == ov[i - 1]);
                }
            }
        }
    }
    proof {
        broadcast use vstd::multiset::group_multiset_axioms, vstd::seq_lib::group_to_multiset_ensures;
        assert(rest@.map_values(|s: String| s@) =~= seq![]);
        assert(rest@.map_values(|s: String| s@).to_multiset() =~= Multiset::empty());
        assert(out@.map_values(|s: String| s@).to_multiset().add(Multiset::empty())
            =~= out@.map_values(|s: String| s@).to_multiset());
    }
    out
}

} // verus!
