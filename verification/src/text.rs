use vstd::prelude::*;

verus! {

/// The Unicode `White_Space` property, which `char::is_whitespace` tests.
pub open spec fn is_ws(c: char) -> bool {
    let n = c as u32;
    ||| 0x9 <= n <= 0xd
    ||| n == 0x20
    ||| n == 0x85
    ||| n == 0xa0
    ||| n == 0x1680
    ||| 0x2000 <= n <= 0x200a
    ||| n == 0x2028
    ||| n == 0x2029
    ||| n == 0x202f
    ||| n == 0x205f
    ||| n == 0x3000
}

/// ASCII letters and digits, as `char::is_ascii_alphanumeric` tests them.
pub open spec fn is_ascii_alnum(c: char) -> bool {
    let n = c as u32;
    ||| 0x30 <= n <= 0x39
    ||| 0x41 <= n <= 0x5a
    ||| 0x61 <= n <= 0x7a
}

/// Characters that may stand in an identifier token: ASCII letters, digits and `_`.
pub open spec fn is_ident_char(c: char) -> bool {
    is_ascii_alnum(c) || c == '_'
}

/// `char::to_ascii_lowercase`: ASCII capitals become small letters, all else is kept.
pub open spec fn lower_char(c: char) -> char {
    let n = c as u32;
    if 0x41 <= n <= 0x5a {
        (n + 32) as char
    } else {
        c
    }
}

/// `str::to_ascii_lowercase`.
pub open spec fn lower(s: Seq<char>) -> Seq<char> {
    s.map_values(|c: char| lower_char(c))
}

/// `s` without its leading white space.
pub open spec fn trim_start(s: Seq<char>) -> Seq<char>
    decreases s.len(),
{
    if s.len() > 0 && is_ws(s[0]) {
        trim_start(s.drop_first())
    } else {
        s
    }
}

/// `s` without its trailing white space.
pub open spec fn trim_end(s: Seq<char>) -> Seq<char>
    decreases s.len(),
{
    if s.len() > 0 && is_ws(s.last()) {
        trim_end(s.drop_last())
    } else {
        s
    }
}

/// `str::trim`: `s` without leading and trailing white space.
pub open spec fn trim(s: Seq<char>) -> Seq<char> {
    trim_end(trim_start(s))
}

/// A line as `str::lines` gives it: a `\r` right before the `\n` that ends it is dropped.
pub open spec fn strip_cr(line: Seq<char>) -> Seq<char> {
    if line.len() > 0 && line.last() == '\r' {
        line.drop_last()
    } else {
        line
    }
}

/// The lines ended so far, and the line under way, after the first `n` characters of `s`.
pub open spec fn lines_upto(s: Seq<char>, n: nat) -> (Seq<Seq<char>>, Seq<char>)
    decreases n,
{
    if n == 0 {
        (seq![], seq![])
    } else {
        let (done, cur) = lines_upto(s, (n - 1) as nat);
        if s[n - 1] == '\n' {
            (done.push(strip_cr(cur)), seq![])
        } else {
            (done, cur.push(s[n - 1]))
        }
    }
}

/// `str::lines`: lines end at `\n`; a `\r` right before it is dropped; the last line needs
/// no ending, and an empty text has no lines.
pub open spec fn lines(s: Seq<char>) -> Seq<Seq<char>> {
    let (done, cur) = lines_upto(s, s.len());
    if cur.len() > 0 {
        done.push(cur)
    } else {
        done
    }
}

/// The first line whose trimmed form is not empty, trimmed; empty when there is none.
pub open spec fn first_non_blank(ls: Seq<Seq<char>>) -> Seq<char>
    decreases ls.len(),
{
    if ls.len() == 0 {
        seq![]
    } else if trim(ls[0]).len() > 0 {
        trim(ls[0])
    } else {
        first_non_blank(ls.drop_first())
    }
}

/// The first line of `code` with something other than white space on it, trimmed.
pub open spec fn first_non_empty_line_of(code: Seq<char>) -> Seq<char> {
    first_non_blank(lines(code))
}

/// The views of a sequence of character vectors.
pub open spec fn seqs_of(v: Seq<Vec<char>>) -> Seq<Seq<char>> {
    v.map_values(|x: Vec<char>| x@)
}

/// The digit that stands for `d` (below 16), lower case.
pub open spec fn digit_char(d: nat) -> char {
    if d < 10 {
        (0x30 + d) as char
    } else {
        (0x61 + d - 10) as char
    }
}

/// The decimal numeral of `n`, as `{}` formats an unsigned integer.
pub open spec fn decimal(n: nat) -> Seq<char>
    decreases n,
{
    if n < 10 {
        seq![digit_char(n)]
    } else {
        decimal(n / 10).push(digit_char(n % 10))
    }
}

/// The lower-case hexadecimal numeral of `n`, as `{:x}` formats an unsigned integer.
pub open spec fn hex(n: nat) -> Seq<char>
    decreases n,
{
    if n < 16 {
        seq![digit_char(n)]
    } else {
        hex(n / 16).push(digit_char(n % 16))
    }
}

/// `16` to the power `k`.
pub open spec fn pow16(k: nat) -> nat
    decreases k,
{
    if k == 0 {
        1
    } else {
        16 * pow16((k - 1) as nat)
    }
}

/// A lower-case hexadecimal digit.
pub open spec fn is_hex_digit(c: char) -> bool {
    ('0' <= c && c <= '9') || ('a' <= c && c <= 'f')
}

/// A number below `16^k` has from 1 to `k` hexadecimal digits, each a lower-case one.
pub proof fn lemma_hex_digits(n: nat, k: nat)
    requires
        1 <= k,
        n < pow16(k),
    ensures
        1 <= hex(n).len() <= k,
        forall|i: int| 0 <= i < hex(n).len() ==> is_hex_digit(#[trigger] hex(n)[i]),
    decreases k,
{
    if n < 16 {
        assert(hex(n) == seq![digit_char(n)]);
        assert(is_hex_digit(digit_char(n)));
    } else {
        assert(k >= 2) by {
            if k == 1 {
                assert(pow16(1) == 16 * pow16(0));
            }
        }
        assert(n / 16 < pow16((k - 1) as nat)) by (nonlinear_arith)
            requires
                n < pow16(k),
                pow16(k) == 16 * pow16((k - 1) as nat),
        ;
        lemma_hex_digits(n / 16, (k - 1) as nat);
        let h = hex(n / 16);
        assert(hex(n) == h.push(digit_char(n % 16)));
        assert(is_hex_digit(digit_char(n % 16)));
        assert forall|i: int| 0 <= i < hex(n).len() implies is_hex_digit(#[trigger] hex(n)[i]) by {
            if i < h.len() {
                assert(hex(n)[i] == h[i]);
            }
        }
    }
}

/// The hexadecimal numeral of a `u64` has from 1 to 16 digits, each a lower-case one.
pub proof fn lemma_hex_u64(n: u64)
    ensures
        1 <= hex(n as nat).len() <= 16,
        forall|i: int| 0 <= i < hex(n as nat).len() ==> is_hex_digit(#[trigger] hex(n as nat)[i]),
{
    assert(pow16(16) == 0x1_0000_0000_0000_0000nat) by {
        reveal_with_fuel(pow16, 17);
    }
    lemma_hex_digits(n as nat, 16);
}

/// `s` joined with `sep` between each two of its parts.
pub open spec fn join(parts: Seq<Seq<char>>, sep: Seq<char>) -> Seq<char>
    decreases parts.len(),
{
    if parts.len() == 0 {
        seq![]
    } else if parts.len() == 1 {
        parts[0]
    } else {
        join(parts.drop_last(), sep) + sep + parts.last()
    }
}

/// Tests `c` for the Unicode `White_Space` property.
pub fn is_whitespace(c: char) -> (res: bool)
    ensures
        res == is_ws(c),
{
    let n = c as u32;
    (0x9 <= n && n <= 0xd) || n == 0x20 || n == 0x85 || n == 0xa0 || n == 0x1680 || (0x2000
        <= n && n <= 0x200a) || n == 0x2028 || n == 0x2029 || n == 0x202f || n == 0x205f || n
        == 0x3000
}

/// Tests `c` for an ASCII letter or digit.
pub fn is_ascii_alphanumeric(c: char) -> (res: bool)
    ensures
        res == is_ascii_alnum(c),
{
    let n = c as u32;
    (0x30 <= n && n <= 0x39) || (0x41 <= n && n <= 0x5a) || (0x61 <= n && n <= 0x7a)
}

/// `c` with an ASCII capital made small.
pub fn to_ascii_lower(c: char) -> (res: char)
    ensures
        res == lower_char(c),
{
    let n = c as u32;
    if 0x41 <= n && n <= 0x5a {
        let m: u32 = n + 32;
        assert(0x61 <= m <= 0x7a);
        char_from_ascii(m)
    } else {
        c
    }
}

/// The character of an ASCII code.
fn char_from_ascii(m: u32) -> (res: char)
    requires
        m < 128,
    ensures
        res == m as char,
{
    let b: u8 = m as u8;
    b as char
}

/// `s` with every ASCII capital made small.
pub fn to_ascii_lowercase(s: &[char]) -> (res: Vec<char>)
    ensures
        res@ == lower(s@),
{
    let mut out: Vec<char> = Vec::new();
    for i in 0..s.len()
        invariant
            out@ == lower(s@.take(i as int)),
    {
        out.push(to_ascii_lower(s[i]));
        assert(lower(s@.take(i + 1)) =~= lower(s@.take(i as int)).push(lower_char(s@[i as int])));
    }
    assert(s@.take(s.len() as int) =~= s@);
    out
}

/// The characters of `s`.
pub fn chars_of(s: &str) -> (v: Vec<char>)
    ensures
        v@ == s@,
{
    let mut v: Vec<char> = Vec::new();
    for c in it: s.chars()
        invariant
            v@ == it.seq().take(it.index() as int),
    {
        v.push(c);
    }
    assert(v@ =~= s@);
    v
}

/// The string of the characters in `v` (`FromIterator<&char>` for `String`).
#[verifier::external_body]
pub(crate) fn string_of(v: &[char]) -> (s: String)
    ensures
        s@ == v@,
{
    v.iter().collect()
}

/// Whether `a` and `b` hold the same characters.
pub fn chars_eq(a: &[char], b: &[char]) -> (res: bool)
    ensures
        res == (a@ == b@),
{
    if a.len() != b.len() {
        return false;
    }
    let mut i: usize = 0;
    while i < a.len()
        invariant
            a.len() == b.len(),
            i <= a.len(),
            a@.take(i as int) == b@.take(i as int),
        decreases a.len() - i,
    {
        if a[i] != b[i] {
            assert(a@[i as int] != b@[i as int]);
            return false;
        }
        assert(a@.take(i + 1) =~= a@.take(i as int).push(a@[i as int]));
        assert(b@.take(i + 1) =~= b@.take(i as int).push(b@[i as int]));
        i = i + 1;
    }
    assert(a@ =~= a@.take(i as int));
    assert(b@ =~= b@.take(i as int));
    true
}

/// Whether the characters of `a` are those of the string `b`.
pub fn chars_eq_str(a: &[char], b: &str) -> (res: bool)
    ensures
        res == (a@ == b@),
{
    let bv = chars_of(b);
    chars_eq(a, bv.as_slice())
}

/// Whether `s` begins with `prefix`.
pub fn starts_with(s: &[char], prefix: &[char]) -> (res: bool)
    ensures
        res == (prefix@.len() <= s@.len() && s@.take(prefix@.len() as int) == prefix@),
{
    if prefix.len() > s.len() {
        return false;
    }
    let mut i: usize = 0;
    while i < prefix.len()
        invariant
            prefix.len() <= s.len(),
            i <= prefix.len(),
            s@.take(i as int) == prefix@.take(i as int),
        decreases prefix.len() - i,
    {
        if s[i] != prefix[i] {
            assert(s@.take(prefix@.len() as int)[i as int] != prefix@[i as int]);
            return false;
        }
        assert(s@.take(i + 1) =~= s@.take(i as int).push(s@[i as int]));
        assert(prefix@.take(i + 1) =~= prefix@.take(i as int).push(prefix@[i as int]));
        i = i + 1;
    }
    assert(prefix@ =~= prefix@.take(i as int));
    true
}

/// Appends the characters of `s` to `out`.
pub fn push_all(out: &mut Vec<char>, s: &[char])
    ensures
        final(out)@ == old(out)@ + s@,
{
    let ghost start = out@;
    for i in 0..s.len()
        invariant
            out@ == start + s@.take(i as int),
    {
        out.push(s[i]);
        assert(s@.take(i + 1) =~= s@.take(i as int).push(s@[i as int]));
        assert(start + s@.take(i + 1) =~= (start + s@.take(i as int)).push(s@[i as int]));
    }
    assert(s@.take(s.len() as int) =~= s@);
}

/// Appends the characters of the string `s` to `out`.
pub fn push_str(out: &mut Vec<char>, s: &str)
    ensures
        final(out)@ == old(out)@ + s@,
{
    let v = chars_of(s);
    push_all(out, v.as_slice());
}

/// The characters of `s` from index `a` up to index `b`.
pub fn sub_chars(s: &[char], a: usize, b: usize) -> (res: Vec<char>)
    requires
        a <= b <= s@.len(),
    ensures
        res@ == s@.subrange(a as int, b as int),
{
    let mut out: Vec<char> = Vec::new();
    let mut i = a;
    while i < b
        invariant
            a <= i <= b <= s@.len(),
            out@ == s@.subrange(a as int, i as int),
        decreases b - i,
    {
        out.push(s[i]);
        assert(s@.subrange(a as int, i + 1) =~= s@.subrange(a as int, i as int).push(
            s@[i as int],
        ));
        i = i + 1;
    }
    out
}

/// The index at which `trim_start` cuts `s`.
fn trim_start_index(s: &[char]) -> (i: usize)
    ensures
        i <= s@.len(),
        trim_start(s@) == s@.subrange(i as int, s@.len() as int),
{
    let mut i: usize = 0;
    assert(s@.subrange(0, s@.len() as int) =~= s@);
    while i < s.len() && is_whitespace(s[i])
        invariant
            i <= s@.len(),
            trim_start(s@) == trim_start(s@.subrange(i as int, s@.len() as int)),
        decreases s.len() - i,
    {
        assert(s@.subrange(i as int, s@.len() as int).drop_first() =~= s@.subrange(
            i + 1,
            s@.len() as int,
        ));
        i = i + 1;
    }
    i
}

/// The index at which `trim_end` cuts `s`.
fn trim_end_index(s: &[char]) -> (j: usize)
    ensures
        j <= s@.len(),
        trim_end(s@) == s@.subrange(0, j as int),
{
    let mut j: usize = s.len();
    assert(s@.subrange(0, s@.len() as int) =~= s@);
    while j > 0 && is_whitespace(s[j - 1])
        invariant
            j <= s@.len(),
            trim_end(s@) == trim_end(s@.subrange(0, j as int)),
        decreases j,
    {
        assert(s@.subrange(0, j as int).drop_last() =~= s@.subrange(0, j - 1));
        j = j - 1;
    }
    j
}

/// `str::trim`: `s` without leading and trailing white space.
pub fn trim_chars(s: &[char]) -> (res: Vec<char>)
    ensures
        res@ == trim(s@),
{
    let i = trim_start_index(s);
    let rest = sub_chars(s, i, s.len());
    let j = trim_end_index(rest.as_slice());
    sub_chars(rest.as_slice(), 0, j)
}

/// `str::lines`: the lines of `s`.
pub fn lines_of(s: &[char]) -> (res: Vec<Vec<char>>)
    ensures
        seqs_of(res@) == lines(s@),
{
    let mut done: Vec<Vec<char>> = Vec::new();
    let mut cur: Vec<char> = Vec::new();
    for i in 0..s.len()
        invariant
            (seqs_of(done@), cur@) == lines_upto(s@, i as nat),
    {
        let c = s[i];
        if c == '\n' {
            let ghost before = seqs_of(done@);
            let n = cur.len();
            if n > 0 && cur[n - 1] == '\r' {
                cur.pop();
            }
            done.push(cur);
            cur = Vec::new();
            assert(seqs_of(done@) =~= before.push(strip_cr(lines_upto(s@, i as nat).1)));
        } else {
            cur.push(c);
        }
    }
    if cur.len() > 0 {
        let ghost before = seqs_of(done@);
        done.push(cur);
        assert(seqs_of(done@) =~= before.push(lines_upto(s@, s@.len()).1));
    }
    done
}

/// The first line of `code` that is not blank, trimmed; empty when there is none.
pub fn first_non_empty_line(code: &[char]) -> (res: Vec<char>)
    ensures
        res@ == first_non_empty_line_of(code@),
{
    let ls = lines_of(code);
    let ghost all = seqs_of(ls@);
    let mut i: usize = 0;
    assert(all.subrange(0, all.len() as int) =~= all);
    while i < ls.len()
        invariant
            i <= ls@.len(),
            all == seqs_of(ls@),
            all == lines(code@),
            first_non_blank(all) == first_non_blank(all.subrange(i as int, all.len() as int)),
        decreases ls.len() - i,
    {
        let t = trim_chars(ls[i].as_slice());
        assert(all.subrange(i as int, all.len() as int)[0] == ls@[i as int]@);
        if t.len() > 0 {
            assert(first_non_blank(all.subrange(i as int, all.len() as int)) == t@);
            return t;
        }
        assert(all.subrange(i as int, all.len() as int).drop_first() =~= all.subrange(
            i + 1,
            all.len() as int,
        ));
        i = i + 1;
    }
    Vec::new()
}

/// The decimal numeral of `n`.
pub fn decimal_of(n: u64) -> (res: Vec<char>)
    ensures
        res@ == decimal(n as nat),
    decreases n,
{
    if n < 10 {
        vec![digit(n as u8)]
    } else {
        let mut v = decimal_of(n / 10);
        v.push(digit((n % 10) as u8));
        v
    }
}

/// The lower-case hexadecimal numeral of `n`.
pub fn hex_of(n: u64) -> (res: Vec<char>)
    ensures
        res@ == hex(n as nat),
    decreases n,
{
    if n < 16 {
        vec![digit(n as u8)]
    } else {
        let mut v = hex_of(n / 16);
        v.push(digit((n % 16) as u8));
        v
    }
}

/// The digit for `d`.
fn digit(d: u8) -> (c: char)
    requires
        d < 16,
    ensures
        c == digit_char(d as nat),
{
    if d < 10 {
        ((0x30u8 + d) as char)
    } else {
        ((0x61u8 + d - 10) as char)
    }
}


/// The first `n` of `parts`, joined with `sep` between each two.
pub fn join_first(parts: &Vec<Vec<char>>, n: usize, sep: char) -> (res: Vec<char>)
    requires
        n <= parts@.len(),
    ensures
        res@ == join(seqs_of(parts@).take(n as int), seq![sep]),
{
    let ghost all = seqs_of(parts@);
    let mut out: Vec<char> = Vec::new();
    for i in 0..n
        invariant
            n <= parts@.len(),
            all == seqs_of(parts@),
            out@ == join(all.take(i as int), seq![sep]),
    {
        assert(all.take(i + 1).drop_last() =~= all.take(i as int));
        assert(all.take(i + 1).last() == parts@[i as int]@);
        if i > 0 {
            out.push(sep);
        } else {
            assert(out@ =~= seq![]);
        }
        push_all(&mut out, parts[i].as_slice());
        assert(out@ =~= join(all.take(i + 1), seq![sep]));
    }
    out
}

} // verus!
