use vstd::prelude::*;

use std::hash::{Hash, Hasher};

use crate::errors::SemgrepError;
use crate::text::{
    chars_eq_str, chars_of, decimal, decimal_of, first_non_empty_line, first_non_empty_line_of,
    hex, hex_of, is_ident_char, join, lines, lines_of, push_all, push_str, seqs_of, string_of,
    trim, trim_chars,
};

verus! {

/// The languages whose source files are split into code units.
#[derive(Debug, Clone, Copy, PartialEq, Eq)]
pub enum Language {
    Python,
    JavaScript,
    TypeScript,
    Rust,
    Go,
}

impl Language {
    /// The lower-case name of the language.
    pub open spec fn name(self) -> Seq<char> {
        match self {
            Language::Python => "python"@,
            Language::JavaScript => "javascript"@,
            Language::TypeScript => "typescript"@,
            Language::Rust => "rust"@,
            Language::Go => "go"@,
        }
    }

    /// The lower-case name of the language.
    pub fn as_str(self) -> (res: &'static str)
        ensures
            res@ == self.name(),
    {
        match self {
            Language::Python => "python",
            Language::JavaScript => "javascript",
            Language::TypeScript => "typescript",
            Language::Rust => "rust",
            Language::Go => "go",
        }
    }
}

/// One function, method, class or other declaration found in a source file, with the text
/// that is sent for embedding.
#[derive(Debug, Clone)]
pub struct CodeUnit {
    pub id: String,
    pub file_path: String,
    pub language: String,
    pub unit_type: String,
    pub name: String,
    pub signature: String,
    pub code: String,
    pub structured_text: String,
    pub start_line: usize,
    pub end_line: usize,
}

/// A code unit as character sequences.
pub struct UnitView {
    pub id: Seq<char>,
    pub file_path: Seq<char>,
    pub language: Seq<char>,
    pub unit_type: Seq<char>,
    pub name: Seq<char>,
    pub signature: Seq<char>,
    pub code: Seq<char>,
    pub structured_text: Seq<char>,
    pub start_line: usize,
    pub end_line: usize,
}

impl View for CodeUnit {
    type V = UnitView;

    open spec fn view(&self) -> UnitView {
        UnitView {
            id: self.id@,
            file_path: self.file_path@,
            language: self.language@,
            unit_type: self.unit_type@,
            name: self.name@,
            signature: self.signature@,
            code: self.code@,
            structured_text: self.structured_text@,
            start_line: self.start_line,
            end_line: self.end_line,
        }
    }
}

/// The views of a sequence of code units.
pub open spec fn units_view(v: Seq<CodeUnit>) -> Seq<UnitView> {
    v.map_values(|u: CodeUnit| u@)
}

/// A child that a syntax node reaches by a field name (`name`, `property`, `value`).
#[derive(Debug, Clone)]
pub struct FieldNode {
    pub kind: String,
    /// The child's source text; `None` where it is not valid UTF-8.
    pub text: Option<String>,
}

/// A node of a concrete syntax tree, with what the unit extraction reads of it.
#[derive(Debug)]
pub struct SyntaxNode {
    /// The grammar's name for the node's type.
    pub kind: String,
    /// The node's source text; `None` where it is not valid UTF-8.
    pub text: Option<String>,
    /// Zero-based row of the node's first character.
    pub start_row: usize,
    /// Zero-based row of the node's end.
    pub end_row: usize,
    /// The child in field `name`, if any.
    pub name_field: Option<FieldNode>,
    /// The child in field `property`, if any.
    pub property_field: Option<FieldNode>,
    /// The child in field `value`, if any.
    pub value_field: Option<FieldNode>,
    /// All children, in source order.
    pub children: Vec<SyntaxNode>,
}

/// The view of an optional string.
pub open spec fn opt_view(o: Option<String>) -> Option<Seq<char>> {
    match o {
        Some(s) => Some(s@),
        None => None,
    }
}

/// The view of an optional string slice.
pub open spec fn opt_str_view(o: Option<&str>) -> Option<Seq<char>> {
    match o {
        Some(s) => Some(s@),
        None => None,
    }
}

/// The view of an optional character vector.
pub open spec fn opt_chars_view(o: Option<Vec<char>>) -> Option<Seq<char>> {
    match o {
        Some(s) => Some(s@),
        None => None,
    }
}

/// The kind of unit that a node of type `kind` opens as a class-like declaration.
pub open spec fn class_kind_spec(kind: Seq<char>, lang: Language) -> Option<Seq<char>> {
    match lang {
        Language::Python => if kind == "class_definition"@ {
            Some("class"@)
        } else {
            None
        },
        Language::JavaScript => if kind == "class_declaration"@ {
            Some("class"@)
        } else {
            None
        },
        Language::TypeScript => if kind == "class_declaration"@ {
            Some("class"@)
        } else if kind == "interface_declaration"@ {
            Some("interface"@)
        } else if kind == "type_alias_declaration"@ {
            Some("type"@)
        } else {
            None
        },
        Language::Rust => if kind == "struct_item"@ {
            Some("struct"@)
        } else if kind == "enum_item"@ {
            Some("enum"@)
        } else if kind == "trait_item"@ {
            Some("trait"@)
        } else if kind == "impl_item"@ {
            Some("impl"@)
        } else {
            None
        },
        Language::Go => if kind == "type_declaration"@ {
            Some("type"@)
        } else {
            None
        },
    }
}

/// The kind of unit that a node of type `kind` opens as a function-like declaration.
pub open spec fn function_kind_spec(kind: Seq<char>, lang: Language) -> Option<Seq<char>> {
    match lang {
        Language::Python => if kind == "function_definition"@ {
            Some("function"@)
        } else {
            None
        },
        Language::JavaScript | Language::TypeScript => if kind == "function_declaration"@ {
            Some("function"@)
        } else if kind == "method_definition"@ {
            Some("method"@)
        } else {
            None
        },
        Language::Rust => if kind == "function_item"@ {
            Some("function"@)
        } else {
            None
        },
        Language::Go => if kind == "function_declaration"@ {
            Some("function"@)
        } else if kind == "method_declaration"@ {
            Some("method"@)
        } else {
            None
        },
    }
}

/// The kind of unit that a node of type `kind` opens as a class-like declaration.
pub fn class_kind(kind: &[char], lang: Language) -> (res: Option<&'static str>)
    ensures
        opt_str_view(res) == class_kind_spec(kind@, lang),
{
    match lang {
        Language::Python => if chars_eq_str(kind, "class_definition") {
            Some("class")
        } else {
            None
        },
        Language::JavaScript => if chars_eq_str(kind, "class_declaration") {
            Some("class")
        } else {
            None
        },
        Language::TypeScript => if chars_eq_str(kind, "class_declaration") {
            Some("class")
        } else if chars_eq_str(kind, "interface_declaration") {
            Some("interface")
        } else if chars_eq_str(kind, "type_alias_declaration") {
            Some("type")
        } else {
            None
        },
        Language::Rust => if chars_eq_str(kind, "struct_item") {
            Some("struct")
        } else if chars_eq_str(kind, "enum_item") {
            Some("enum")
        } else if chars_eq_str(kind, "trait_item") {
            Some("trait")
        } else if chars_eq_str(kind, "impl_item") {
            Some("impl")
        } else {
            None
        },
        Language::Go => if chars_eq_str(kind, "type_declaration") {
            Some("type")
        } else {
            None
        },
    }
}

/// The kind of unit that a node of type `kind` opens as a function-like declaration.
pub fn function_kind(kind: &[char], lang: Language) -> (res: Option<&'static str>)
    ensures
        opt_str_view(res) == function_kind_spec(kind@, lang),
{
    match lang {
        Language::Python => if chars_eq_str(kind, "function_definition") {
            Some("function")
        } else {
            None
        },
        Language::JavaScript | Language::TypeScript => if chars_eq_str(
            kind,
            "function_declaration",
        ) {
            Some("function")
        } else if chars_eq_str(kind, "method_definition") {
            Some("method")
        } else {
            None
        },
        Language::Rust => if chars_eq_str(kind, "function_item") {
            Some("function")
        } else {
            None
        },
        Language::Go => if chars_eq_str(kind, "function_declaration") {
            Some("function")
        } else if chars_eq_str(kind, "method_declaration") {
            Some("method")
        } else {
            None
        },
    }
}


/// The node's source text, trimmed; `None` where the text is not valid UTF-8.
pub open spec fn node_text_spec(n: SyntaxNode) -> Option<Seq<char>> {
    match n.text {
        Some(t) => Some(trim(t@)),
        None => None,
    }
}

/// The trimmed text of a field child, when it is valid and not blank.
pub open spec fn field_name_text(f: Option<FieldNode>) -> Option<Seq<char>> {
    match f {
        Some(c) => match c.text {
            Some(t) => if trim(t@).len() > 0 {
                Some(trim(t@))
            } else {
                None
            },
            None => None,
        },
        None => None,
    }
}

/// Node types whose text is a name.
pub open spec fn is_name_kind(kind: Seq<char>) -> bool {
    kind == "identifier"@ || kind == "type_identifier"@ || kind == "property_identifier"@
}

/// The trimmed text of the first child from index `i` on that is a name with text that is
/// valid and not blank.
pub open spec fn child_name_from(children: Seq<SyntaxNode>, i: int) -> Option<Seq<char>>
    decreases children.len() - i,
{
    if i < 0 || i >= children.len() {
        None
    } else {
        let c = children[i];
        match c.text {
            Some(t) => if is_name_kind(c.kind@) && trim(t@).len() > 0 {
                Some(trim(t@))
            } else {
                child_name_from(children, i + 1)
            },
            None => child_name_from(children, i + 1),
        }
    }
}

/// The name of a declaration node: its `name` field, else its `property` field, else its
/// first name child.
pub open spec fn extract_name_spec(n: SyntaxNode) -> Option<Seq<char>> {
    match field_name_text(n.name_field) {
        Some(x) => Some(x),
        None => match field_name_text(n.property_field) {
            Some(x) => Some(x),
            None => child_name_from(n.children@, 0),
        },
    }
}

/// The tokens ended so far, and the token under way, after the first `n` characters of `s`.
pub open spec fn tokens_upto(s: Seq<char>, n: nat) -> (Seq<Seq<char>>, Seq<char>)
    decreases n,
{
    if n == 0 {
        (seq![], seq![])
    } else {
        let (done, cur) = tokens_upto(s, (n - 1) as nat);
        if is_ident_char(s[n - 1]) {
            (done, cur.push(s[n - 1]))
        } else if cur.len() > 0 {
            (done.push(cur), seq![])
        } else {
            (done, seq![])
        }
    }
}

/// The maximal runs of identifier characters in `s`, in order.
pub open spec fn tokens(s: Seq<char>) -> Seq<Seq<char>> {
    let (done, cur) = tokens_upto(s, s.len());
    if cur.len() > 0 {
        done.push(cur)
    } else {
        done
    }
}

/// Words that introduce the name of a declaration.
pub open spec fn is_decl_keyword(t: Seq<char>) -> bool {
    ||| t == "fn"@
    ||| t == "class"@
    ||| t == "struct"@
    ||| t == "trait"@
    ||| t == "enum"@
    ||| t == "interface"@
}

/// The first token from index `i` on whose predecessor is a declaration keyword.
pub open spec fn token_after_keyword(toks: Seq<Seq<char>>, i: int) -> Option<Seq<char>>
    decreases toks.len() - i,
{
    if i < 1 || i >= toks.len() {
        None
    } else if is_decl_keyword(toks[i - 1]) {
        Some(toks[i])
    } else {
        token_after_keyword(toks, i + 1)
    }
}

/// A name for a declaration node: its extracted name, else the word after the first
/// declaration keyword on its first line, else the unit type.
pub open spec fn infer_name_spec(unit_type: Seq<char>, n: SyntaxNode) -> Seq<char> {
    match extract_name_spec(n) {
        Some(x) => x,
        None => {
            let text = match node_text_spec(n) {
                Some(t) => t,
                None => seq![],
            };
            match token_after_keyword(tokens(first_non_empty_line_of(text)), 1) {
                Some(t) => t,
                None => unit_type,
            }
        },
    }
}

/// The first index from `k` on at which `pat` occurs in `s`.
pub open spec fn find_from(s: Seq<char>, pat: Seq<char>, k: int) -> Option<int>
    decreases s.len() + 1 - k,
{
    if k < 0 || k + pat.len() > s.len() {
        None
    } else if s.subrange(k, k + pat.len()) == pat {
        Some(k)
    } else {
        find_from(s, pat, k + 1)
    }
}

/// The end of the run of identifier characters that starts at `i`.
pub open spec fn ident_run_end(s: Seq<char>, i: int) -> int
    decreases s.len() - i,
{
    if 0 <= i < s.len() && is_ident_char(s[i]) {
        ident_run_end(s, i + 1)
    } else {
        i
    }
}

/// The text `fn ` that precedes a Rust function's name.
pub open spec fn fn_marker() -> Seq<char> {
    seq!['f', 'n', ' ']
}

/// The identifier right after the first `fn ` in a signature, when there is one.
pub open spec fn rust_fn_name(sig: Seq<char>) -> Option<Seq<char>> {
    match find_from(sig, fn_marker(), 0) {
        Some(k) => {
            let rest = sig.skip(k + 3);
            let name = rest.take(ident_run_end(rest, 0));
            if name.len() > 0 {
                Some(name)
            } else {
                None
            }
        },
        None => None,
    }
}

/// The node's source text, trimmed.
fn node_text(n: &SyntaxNode) -> (res: Option<Vec<char>>)
    ensures
        opt_chars_view(res) == node_text_spec(*n),
{
    match &n.text {
        Some(t) => {
            let v = chars_of(t.as_str());
            Some(trim_chars(v.as_slice()))
        },
        None => None,
    }
}

/// The trimmed text of a field child, when it is valid and not blank.
fn field_text(f: &Option<FieldNode>) -> (res: Option<Vec<char>>)
    ensures
        opt_chars_view(res) == field_name_text(*f),
{
    match f {
        Some(c) => match &c.text {
            Some(t) => {
                let v = chars_of(t.as_str());
                let tr = trim_chars(v.as_slice());
                if tr.len() > 0 {
                    Some(tr)
                } else {
                    None
                }
            },
            None => None,
        },
        None => None,
    }
}

/// Whether a node type names something.
fn is_name_kind_exec(kind: &[char]) -> (res: bool)
    ensures
        res == is_name_kind(kind@),
{
    chars_eq_str(kind, "identifier") || chars_eq_str(kind, "type_identifier") || chars_eq_str(
        kind,
        "property_identifier",
    )
}

/// The trimmed text of the first child that is a name with valid, non-blank text.
fn child_name(children: &Vec<SyntaxNode>) -> (res: Option<Vec<char>>)
    ensures
        opt_chars_view(res) == child_name_from(children@, 0),
{
    let mut i: usize = 0;
    while i < children.len()
        invariant
            i <= children@.len(),
            child_name_from(children@, 0) == child_name_from(children@, i as int),
        decreases children.len() - i,
    {
        let c = &children[i];
        match &c.text {
            Some(t) => {
                let kind = chars_of(c.kind.as_str());
                if is_name_kind_exec(kind.as_slice()) {
                    let v = chars_of(t.as_str());
                    let tr = trim_chars(v.as_slice());
                    if tr.len() > 0 {
                        return Some(tr);
                    }
                }
            },
            None => {},
        }
        i = i + 1;
    }
    None
}

/// The name of a declaration node, when it has one.
fn extract_name(n: &SyntaxNode) -> (res: Option<Vec<char>>)
    ensures
        opt_chars_view(res) == extract_name_spec(*n),
{
    match field_text(&n.name_field) {
        Some(x) => Some(x),
        None => match field_text(&n.property_field) {
            Some(x) => Some(x),
            None => child_name(&n.children),
        },
    }
}

/// The maximal runs of identifier characters in `s`.
fn tokens_of(s: &[char]) -> (res: Vec<Vec<char>>)
    ensures
        seqs_of(res@) == tokens(s@),
{
    let mut done: Vec<Vec<char>> = Vec::new();
    let mut cur: Vec<char> = Vec::new();
    for i in 0..s.len()
        invariant
            (seqs_of(done@), cur@) == tokens_upto(s@, i as nat),
    {
        let c = s[i];
        if crate::text::is_ascii_alphanumeric(c) || c == '_' {
            cur.push(c);
        } else if cur.len() > 0 {
            let ghost before = seqs_of(done@);
            done.push(cur);
            cur = Vec::new();
            assert(seqs_of(done@) =~= before.push(tokens_upto(s@, i as nat).1));
        }
    }
    if cur.len() > 0 {
        let ghost before = seqs_of(done@);
        done.push(cur);
        assert(seqs_of(done@) =~= before.push(tokens_upto(s@, s@.len()).1));
    }
    done
}

/// Whether a token introduces a declaration's name.
fn is_decl_keyword_exec(t: &[char]) -> (res: bool)
    ensures
        res == is_decl_keyword(t@),
{
    chars_eq_str(t, "fn") || chars_eq_str(t, "class") || chars_eq_str(t, "struct")
        || chars_eq_str(t, "trait") || chars_eq_str(t, "enum") || chars_eq_str(t, "interface")
}

/// A name for a declaration node; `unit_type` when nothing better is found.
fn infer_name(unit_type: &[char], n: &SyntaxNode) -> (res: Vec<char>)
    ensures
        res@ == infer_name_spec(unit_type@, *n),
{
    if let Some(x) = extract_name(n) {
        return x;
    }
    let text = match node_text(n) {
        Some(t) => t,
        None => Vec::new(),
    };
    let sig = first_non_empty_line(text.as_slice());
    let toks = tokens_of(sig.as_slice());
    let ghost all = seqs_of(toks@);
    let ghost text_spec = match node_text_spec(*n) {
        Some(t) => t,
        None => seq![],
    };
    assert(text@ == text_spec);
    let mut i: usize = 1;
    while i < toks.len()
        invariant
            1 <= i,
            all == seqs_of(toks@),
            all == tokens(first_non_empty_line_of(text_spec)),
            extract_name_spec(*n) is None,
            text_spec == match node_text_spec(*n) {
                Some(t) => t,
                None => seq![],
            },
            token_after_keyword(all, 1) == token_after_keyword(all, i as int),
        decreases toks.len() - i,
    {
        if is_decl_keyword_exec(toks[i - 1].as_slice()) {
            assert(all[i - 1] == toks@[i - 1]@);
            assert(all[i as int] == toks@[i as int]@);
            return sub_copy(toks[i].as_slice());
        }
        i = i + 1;
    }
    sub_copy(unit_type)
}

/// A copy of `s`.
fn sub_copy(s: &[char]) -> (res: Vec<char>)
    ensures
        res@ == s@,
{
    let r = crate::text::sub_chars(s, 0, s.len());
    assert(s@.subrange(0, s@.len() as int) =~= s@);
    r
}

/// The identifier right after the first `fn ` in a signature, when there is one.
fn extract_rust_fn_name(sig: &[char]) -> (res: Option<Vec<char>>)
    ensures
        opt_chars_view(res) == rust_fn_name(sig@),
{
    let mut k: usize = 0;
    while k < sig.len() && sig.len() - k >= 3
        invariant
            find_from(sig@, fn_marker(), 0) == find_from(sig@, fn_marker(), k as int),
        decreases sig.len() - k,
    {
        if sig[k] == 'f' && sig[k + 1] == 'n' && sig[k + 2] == ' ' {
            assert(sig@.subrange(k as int, k + 3) =~= fn_marker());
            let rest = crate::text::sub_chars(sig, k + 3, sig.len());
            assert(rest@ =~= sig@.skip(k + 3));
            let mut j: usize = 0;
            while j < rest.len() && (crate::text::is_ascii_alphanumeric(rest[j]) || rest[j]
                == '_')
                invariant
                    j <= rest@.len(),
                    ident_run_end(rest@, 0) == ident_run_end(rest@, j as int),
                decreases rest.len() - j,
            {
                j = j + 1;
            }
            if j == 0 {
                return None;
            }
            let name = crate::text::sub_chars(rest.as_slice(), 0, j);
            assert(name@ =~= rest@.take(j as int));
            return Some(name);
        }
        assert(sig@.subrange(k as int, k + 3)[0] == sig@[k as int]);
        assert(sig@.subrange(k as int, k + 3)[1] == sig@[k + 1]);
        assert(sig@.subrange(k as int, k + 3)[2] == sig@[k + 2]);
        k = k + 1;
    }
    None
}


/// The hash of a unit's identity: `DefaultHasher` fed, in order, with the file path, the
/// name, the start line and the end line.
pub uninterp spec fn unit_hash(file_path: Seq<char>, name: Seq<char>, start_line: usize, end_line: usize) -> u64;

/// Computes `unit_hash` with std's `DefaultHasher` (`Hash` for `str` and for `usize`,
/// then `finish`). The contract claims only that the result is a function of the four
/// values, which holds since `DefaultHasher::new` starts from fixed keys.
#[verifier::external_body]
fn hash_unit_identity(file_path: &str, name: &str, start_line: usize, end_line: usize) -> (h: u64)
    ensures
        h == unit_hash(file_path@, name@, start_line, end_line),
{
    let mut hasher = std::collections::hash_map::DefaultHasher::new();
    file_path.hash(&mut hasher);
    name.hash(&mut hasher);
    start_line.hash(&mut hasher);
    end_line.hash(&mut hasher);
    hasher.finish()
}

/// The text that is embedded for a unit.
pub open spec fn structured_text_spec(
    file_path: Seq<char>,
    lang: Language,
    unit_type: Seq<char>,
    name: Seq<char>,
    signature: Seq<char>,
    code: Seq<char>,
    start_line: usize,
    end_line: usize,
) -> Seq<char> {
    "File: "@ + file_path + "\nLanguage: "@ + lang.name() + "\nType: "@ + unit_type + "\nName: "@
        + name + "\nLines: "@ + decimal(start_line as nat) + "-"@ + decimal(end_line as nat)
        + "\nSignature:\n"@ + signature + "\n\nCode:\n"@ + code
}

/// The unit built from its parts: its id is the hexadecimal form of `unit_hash`.
pub open spec fn unit_spec(
    file_path: Seq<char>,
    lang: Language,
    unit_type: Seq<char>,
    name: Seq<char>,
    signature: Seq<char>,
    code: Seq<char>,
    start_line: usize,
    end_line: usize,
) -> UnitView {
    UnitView {
        id: hex(unit_hash(file_path, name, start_line, end_line) as nat),
        file_path,
        language: lang.name(),
        unit_type,
        name,
        signature,
        code,
        structured_text: structured_text_spec(
            file_path,
            lang,
            unit_type,
            name,
            signature,
            code,
            start_line,
            end_line,
        ),
        start_line,
        end_line,
    }
}

/// Builds a unit from its parts.
fn build_unit(
    file_path: &[char],
    lang: Language,
    unit_type: &[char],
    name: &[char],
    signature: &[char],
    code: &[char],
    start_line: usize,
    end_line: usize,
) -> (u: CodeUnit)
    ensures
        u@ == unit_spec(file_path@, lang, unit_type@, name@, signature@, code@, start_line, end_line),
{
    let path_s = string_of(file_path);
    let name_s = string_of(name);
    let h = hash_unit_identity(path_s.as_str(), name_s.as_str(), start_line, end_line);
    let id = hex_of(h);
    let mut t: Vec<char> = Vec::new();
    push_str(&mut t, "File: ");
    push_all(&mut t, file_path);
    push_str(&mut t, "\nLanguage: ");
    push_str(&mut t, lang.as_str());
    push_str(&mut t, "\nType: ");
    push_all(&mut t, unit_type);
    push_str(&mut t, "\nName: ");
    push_all(&mut t, name);
    push_str(&mut t, "\nLines: ");
    let a = decimal_of(start_line as u64);
    push_all(&mut t, a.as_slice());
    push_str(&mut t, "-");
    let b = decimal_of(end_line as u64);
    push_all(&mut t, b.as_slice());
    push_str(&mut t, "\nSignature:\n");
    push_all(&mut t, signature);
    push_str(&mut t, "\n\nCode:\n");
    push_all(&mut t, code);
    CodeUnit {
        id: string_of(id.as_slice()),
        file_path: path_s,
        language: <String as vstd::string::StringExecFns>::from_str(lang.as_str()),
        unit_type: string_of(unit_type),
        name: name_s,
        signature: string_of(signature),
        code: string_of(code),
        structured_text: string_of(t.as_slice()),
        start_line,
        end_line,
    }
}


/// The rows of a syntax tree as tree-sitter gives them: every node starts at or before its
/// end, below `usize::MAX` so that its one-based line number fits; its children lie within
/// its rows, in order, each ending at or before the next one starts.
pub open spec fn rows_valid(n: SyntaxNode) -> bool
    decreases n, 1int, 0int,
{
    &&& n.start_row <= n.end_row
    &&& n.start_row < usize::MAX
    &&& n.end_row < usize::MAX
    &&& children_rows_valid(n, 0)
}

/// `rows_valid` holds of the children of `n` from index `i` on, which lie within the rows
/// of `n` and in order.
pub open spec fn children_rows_valid(n: SyntaxNode, i: int) -> bool
    decreases n, 0int, n.children@.len() - i,
{
    if i < 0 || i >= n.children@.len() {
        true
    } else {
        let c = n.children@[i];
        &&& rows_valid(c)
        &&& n.start_row <= c.start_row
        &&& c.end_row <= n.end_row
        &&& (i + 1 < n.children@.len() ==> c.end_row <= n.children@[i + 1].start_row)
        &&& children_rows_valid(n, i + 1)
    }
}

/// The one-based first line of a node.
pub open spec fn start_line_of(n: SyntaxNode) -> usize {
    (n.start_row + 1) as usize
}

/// The one-based last line of a node.
pub open spec fn end_line_of(n: SyntaxNode) -> usize {
    (n.end_row + 1) as usize
}

/// The unit of a class-like declaration node of unit type `unit_type`.
pub open spec fn class_unit_spec(n: SyntaxNode, rel_path: Seq<char>, lang: Language, unit_type: Seq<char>) -> Option<UnitView> {
    match node_text_spec(n) {
        Some(code) => Some(
            unit_spec(
                rel_path,
                lang,
                unit_type,
                infer_name_spec(unit_type, n),
                first_non_empty_line_of(code),
                code,
                start_line_of(n),
                end_line_of(n),
            ),
        ),
        None => None,
    }
}

/// The unit type of a function-like node: `method` inside a class-like unit, and for a Rust
/// function inside the declaration list of an `impl`.
pub open spec fn function_unit_type(
    lang: Language,
    detected: Seq<char>,
    parent_class: Option<Seq<char>>,
    parent_kind: Option<Seq<char>>,
    grand_kind: Option<Seq<char>>,
) -> Seq<char> {
    if lang == Language::Rust && parent_kind == Some("declaration_list"@) && grand_kind == Some(
        "impl_item"@,
    ) {
        "method"@
    } else if parent_class is Some {
        "method"@
    } else {
        detected
    }
}

/// The unit of a function-like declaration node.
pub open spec fn function_unit_spec(
    n: SyntaxNode,
    rel_path: Seq<char>,
    lang: Language,
    detected: Seq<char>,
    parent_class: Option<Seq<char>>,
    parent_kind: Option<Seq<char>>,
    grand_kind: Option<Seq<char>>,
) -> Option<UnitView> {
    match node_text_spec(n) {
        Some(code) => {
            let sig = first_non_empty_line_of(code);
            let ut = function_unit_type(lang, detected, parent_class, parent_kind, grand_kind);
            let name = match extract_name_spec(n) {
                Some(x) => x,
                None => match rust_fn_name(sig) {
                    Some(x) => x,
                    None => infer_name_spec(ut, n),
                },
            };
            Some(unit_spec(rel_path, lang, ut, name, sig, code, start_line_of(n), end_line_of(n)))
        },
        None => None,
    }
}

/// The unit of a JavaScript or TypeScript variable bound to an arrow function or a function
/// expression.
pub open spec fn arrow_unit_spec(n: SyntaxNode, rel_path: Seq<char>, lang: Language) -> Option<UnitView> {
    if !(lang == Language::JavaScript || lang == Language::TypeScript) {
        None
    } else if n.kind@ != "variable_declarator"@ {
        None
    } else {
        match n.value_field {
            None => None,
            Some(v) => if v.kind@ != "arrow_function"@ && v.kind@ != "function"@ {
                None
            } else {
                match node_text_spec(n) {
                    None => None,
                    Some(code) => {
                        let name = match field_name_text(n.name_field) {
                            Some(x) => x,
                            None => "anonymous_arrow"@,
                        };
                        Some(
                            unit_spec(
                                rel_path,
                                lang,
                                "function"@,
                                name,
                                first_non_empty_line_of(code),
                                code,
                                start_line_of(n),
                                end_line_of(n),
                            ),
                        )
                    },
                }
            },
        }
    }
}

/// The units found in the tree under `n`, in pre-order: a class-like node gives its unit
/// and then those of its children, which see it as their enclosing class; any other node
/// gives its function or arrow-function unit, if it is one, and then those of its children.
pub open spec fn collect_node(
    n: SyntaxNode,
    rel_path: Seq<char>,
    lang: Language,
    parent_class: Option<Seq<char>>,
    parent_kind: Option<Seq<char>>,
    grand_kind: Option<Seq<char>>,
) -> Seq<UnitView>
    decreases n, 1int, 0int,
{
    let class_unit = match class_kind_spec(n.kind@, lang) {
        Some(ck) => class_unit_spec(n, rel_path, lang, ck),
        None => None,
    };
    match class_unit {
        Some(u) => seq![u] + collect_children(
            n,
            0,
            rel_path,
            lang,
            Some(u.name),
            Some(n.kind@),
            parent_kind,
        ),
        None => {
            let own = match function_kind_spec(n.kind@, lang) {
                Some(fk) => function_unit_spec(
                    n,
                    rel_path,
                    lang,
                    fk,
                    parent_class,
                    parent_kind,
                    grand_kind,
                ),
                None => arrow_unit_spec(n, rel_path, lang),
            };
            let own_units = match own {
                Some(u) => seq![u],
                None => seq![],
            };
            own_units + collect_children(
                n,
                0,
                rel_path,
                lang,
                parent_class,
                Some(n.kind@),
                parent_kind,
            )
        },
    }
}

/// The units of the children of `n` from index `i` on, each with parent `n`.
pub open spec fn collect_children(
    n: SyntaxNode,
    i: int,
    rel_path: Seq<char>,
    lang: Language,
    parent_class: Option<Seq<char>>,
    parent_kind: Option<Seq<char>>,
    grand_kind: Option<Seq<char>>,
) -> Seq<UnitView>
    decreases n, 0int, n.children@.len() - i,
{
    if i < 0 || i >= n.children@.len() {
        seq![]
    } else {
        collect_node(n.children@[i], rel_path, lang, parent_class, parent_kind, grand_kind)
            + collect_children(n, i + 1, rel_path, lang, parent_class, parent_kind, grand_kind)
    }
}


/// Every unit spans its lines (`1 <= start_line <= end_line`), and the start lines never
/// go down in the order of the units.
pub open spec fn lines_in_order(us: Seq<UnitView>) -> bool {
    &&& forall|i: int| 0 <= i < us.len() ==> 1 <= #[trigger] us[i].start_line <= us[i].end_line
    &&& forall|i: int, j: int| 0 <= i <= j < us.len() ==> (#[trigger] us[i]).start_line <= (#[trigger] us[j]).start_line
}

/// Every unit lies within the lines `lo` to `hi`.
pub open spec fn lines_within(us: Seq<UnitView>, lo: int, hi: int) -> bool {
    forall|i: int| 0 <= i < us.len() ==> lo <= (#[trigger] us[i]).start_line && us[i].end_line <= hi
}

/// Two sequences of units in line order, the second starting no earlier than the first
/// ends its starts, stay in line order when joined.
proof fn lemma_lines_in_order_concat(a: Seq<UnitView>, b: Seq<UnitView>, mid: int)
    requires
        lines_in_order(a),
        lines_in_order(b),
        forall|i: int| 0 <= i < a.len() ==> (#[trigger] a[i]).start_line <= mid,
        forall|j: int| 0 <= j < b.len() ==> mid <= (#[trigger] b[j]).start_line,
    ensures
        lines_in_order(a + b),
{
    let c = a + b;
    assert forall|i: int| 0 <= i < c.len() implies 1 <= #[trigger] c[i].start_line <= c[i].end_line by {
        if i < a.len() {
            assert(c[i] == a[i]);
        } else {
            assert(c[i] == b[i - a.len()]);
        }
    }
    assert forall|i: int, j: int| 0 <= i <= j < c.len() implies (#[trigger] c[i]).start_line <= (#[trigger] c[j]).start_line by {
        if j < a.len() {
            assert(c[i] == a[i] && c[j] == a[j]);
        } else if i >= a.len() {
            assert(c[i] == b[i - a.len()] && c[j] == b[j - a.len()]);
        } else {
            assert(c[i] == a[i] && c[j] == b[j - a.len()]);
        }
    }
}

/// The units of a tree with valid rows come in line order, within the node's lines.
pub proof fn lemma_collect_node_lines(
    n: SyntaxNode,
    rel_path: Seq<char>,
    lang: Language,
    parent_class: Option<Seq<char>>,
    parent_kind: Option<Seq<char>>,
    grand_kind: Option<Seq<char>>,
)
    requires
        rows_valid(n),
    ensures
        lines_in_order(collect_node(n, rel_path, lang, parent_class, parent_kind, grand_kind)),
        lines_within(
            collect_node(n, rel_path, lang, parent_class, parent_kind, grand_kind),
            n.start_row + 1,
            n.end_row + 1,
        ),
    decreases n, 1int, 0int,
{
    let class_unit = match class_kind_spec(n.kind@, lang) {
        Some(ck) => class_unit_spec(n, rel_path, lang, ck),
        None => None,
    };
    let all = collect_node(n, rel_path, lang, parent_class, parent_kind, grand_kind);
    let (own_units, b) = match class_unit {
        Some(u) => {
            lemma_collect_children_lines(n, 0, rel_path, lang, Some(u.name), Some(n.kind@), parent_kind);
            (seq![u], collect_children(n, 0, rel_path, lang, Some(u.name), Some(n.kind@), parent_kind))
        },
        None => {
            lemma_collect_children_lines(n, 0, rel_path, lang, parent_class, Some(n.kind@), parent_kind);
            let own = match function_kind_spec(n.kind@, lang) {
                Some(fk) => function_unit_spec(n, rel_path, lang, fk, parent_class, parent_kind, grand_kind),
                None => arrow_unit_spec(n, rel_path, lang),
            };
            let own_units = match own {
                Some(u) => seq![u],
                None => seq![],
            };
            (own_units, collect_children(n, 0, rel_path, lang, parent_class, Some(n.kind@), parent_kind))
        },
    };
    assert(all == own_units + b);
    assert forall|k: int| 0 <= k < own_units.len() implies (#[trigger] own_units[k]).start_line == n.start_row + 1
        && own_units[k].end_line == n.end_row + 1 by {}
    if n.children@.len() > 0 {
        assert(n.start_row <= n.children@[0].start_row);
    }
    lemma_lines_in_order_concat(own_units, b, n.start_row + 1);
    assert forall|k: int| 0 <= k < all.len() implies n.start_row + 1 <= (#[trigger] all[k]).start_line
        && all[k].end_line <= n.end_row + 1 by {
        if k < own_units.len() {
            assert(all[k] == own_units[k]);
        } else {
            assert(all[k] == b[k - own_units.len()]);
        }
    }
}

/// The units of the children of `n` from index `i` on come in line order, starting no
/// earlier than child `i` and ending within `n`.
pub proof fn lemma_collect_children_lines(
    n: SyntaxNode,
    i: int,
    rel_path: Seq<char>,
    lang: Language,
    parent_class: Option<Seq<char>>,
    parent_kind: Option<Seq<char>>,
    grand_kind: Option<Seq<char>>,
)
    requires
        rows_valid(n),
        0 <= i,
        children_rows_valid(n, i),
    ensures
        lines_in_order(collect_children(n, i, rel_path, lang, parent_class, parent_kind, grand_kind)),
        i < n.children@.len() ==> lines_within(
            collect_children(n, i, rel_path, lang, parent_class, parent_kind, grand_kind),
            n.children@[i].start_row + 1,
            n.end_row + 1,
        ),
        collect_children(n, i, rel_path, lang, parent_class, parent_kind, grand_kind).len() > 0 ==> i
            < n.children@.len(),
    decreases n, 0int, n.children@.len() - i,
{
    if i < n.children@.len() {
        let c = n.children@[i];
        lemma_collect_node_lines(c, rel_path, lang, parent_class, parent_kind, grand_kind);
        lemma_collect_children_lines(n, i + 1, rel_path, lang, parent_class, parent_kind, grand_kind);
        let a = collect_node(c, rel_path, lang, parent_class, parent_kind, grand_kind);
        let b = collect_children(n, i + 1, rel_path, lang, parent_class, parent_kind, grand_kind);
        assert(collect_children(n, i, rel_path, lang, parent_class, parent_kind, grand_kind) == a + b);
        assert forall|j: int| 0 <= j < b.len() implies c.end_row + 1 <= (#[trigger] b[j]).start_line by {
            assert(c.end_row <= n.children@[i + 1].start_row);
        }
        assert forall|k: int| 0 <= k < a.len() implies (#[trigger] a[k]).start_line <= c.end_row + 1 by {}
        lemma_lines_in_order_concat(a, b, c.end_row + 1);
        let ab = a + b;
        assert forall|k: int| 0 <= k < ab.len() implies c.start_row + 1 <= (#[trigger] ab[k]).start_line
            && ab[k].end_line <= n.end_row + 1 by {
            if k < a.len() {
                assert(ab[k] == a[k]);
            } else {
                assert(ab[k] == b[k - a.len()]);
                assert(c.end_row <= n.children@[i + 1].start_row);
                assert(n.children@[i + 1].start_row <= b[k - a.len()].start_line);
            }
        }
    }
}

/// The unit of a class-like declaration node.
fn extract_class_unit(n: &SyntaxNode, rel_path: &[char], lang: Language, unit_type: &[char]) -> (res: Option<CodeUnit>)
    requires
        n.start_row < usize::MAX,
        n.end_row < usize::MAX,
    ensures
        match res {
            Some(u) => class_unit_spec(*n, rel_path@, lang, unit_type@) == Some(u@),
            None => class_unit_spec(*n, rel_path@, lang, unit_type@) is None,
        },
{
    let name = infer_name(unit_type, n);
    let code = match node_text(n) {
        Some(c) => c,
        None => return None,
    };
    let sig = first_non_empty_line(code.as_slice());
    Some(
        build_unit(
            rel_path,
            lang,
            unit_type,
            name.as_slice(),
            sig.as_slice(),
            code.as_slice(),
            n.start_row + 1,
            n.end_row + 1,
        ),
    )
}

/// The unit type of a function-like node.
fn function_unit_type_exec(
    lang: Language,
    detected: &str,
    parent_class: &Option<Vec<char>>,
    parent_kind: Option<&str>,
    grand_kind: Option<&str>,
) -> (res: Vec<char>)
    ensures
        res@ == function_unit_type(
            lang,
            detected@,
            opt_chars_view(*parent_class),
            opt_str_view(parent_kind),
            opt_str_view(grand_kind),
        ),
{
    let rust_method = match (lang, parent_kind, grand_kind) {
        (Language::Rust, Some(p), Some(g)) => {
            let pv = chars_of(p);
            let gv = chars_of(g);
            chars_eq_str(pv.as_slice(), "declaration_list") && chars_eq_str(
                gv.as_slice(),
                "impl_item",
            )
        },
        _ => false,
    };
    if rust_method || parent_class.is_some() {
        chars_of("method")
    } else {
        chars_of(detected)
    }
}

/// The unit of a function-like declaration node.
fn extract_function_unit(
    n: &SyntaxNode,
    rel_path: &[char],
    lang: Language,
    detected: &str,
    parent_class: &Option<Vec<char>>,
    parent_kind: Option<&str>,
    grand_kind: Option<&str>,
) -> (res: Option<CodeUnit>)
    requires
        n.start_row < usize::MAX,
        n.end_row < usize::MAX,
    ensures
        match res {
            Some(u) => function_unit_spec(
                *n,
                rel_path@,
                lang,
                detected@,
                opt_chars_view(*parent_class),
                opt_str_view(parent_kind),
                opt_str_view(grand_kind),
            ) == Some(u@),
            None => function_unit_spec(
                *n,
                rel_path@,
                lang,
                detected@,
                opt_chars_view(*parent_class),
                opt_str_view(parent_kind),
                opt_str_view(grand_kind),
            ) is None,
        },
{
    let code = match node_text(n) {
        Some(c) => c,
        None => return None,
    };
    let sig = first_non_empty_line(code.as_slice());
    let ut = function_unit_type_exec(lang, detected, parent_class, parent_kind, grand_kind);
    let name = match extract_name(n) {
        Some(x) => x,
        None => match extract_rust_fn_name(sig.as_slice()) {
            Some(x) => x,
            None => infer_name(ut.as_slice(), n),
        },
    };
    Some(
        build_unit(
            rel_path,
            lang,
            ut.as_slice(),
            name.as_slice(),
            sig.as_slice(),
            code.as_slice(),
            n.start_row + 1,
            n.end_row + 1,
        ),
    )
}

/// The unit of a variable bound to an arrow function or function expression.
fn extract_arrow_function_unit(n: &SyntaxNode, rel_path: &[char], lang: Language) -> (res: Option<CodeUnit>)
    requires
        n.start_row < usize::MAX,
        n.end_row < usize::MAX,
    ensures
        match res {
            Some(u) => arrow_unit_spec(*n, rel_path@, lang) == Some(u@),
            None => arrow_unit_spec(*n, rel_path@, lang) is None,
        },
{
    match lang {
        Language::JavaScript | Language::TypeScript => {},
        _ => return None,
    }
    let kind = chars_of(n.kind.as_str());
    if !chars_eq_str(kind.as_slice(), "variable_declarator") {
        return None;
    }
    let value = match &n.value_field {
        Some(v) => v,
        None => return None,
    };
    let vk = chars_of(value.kind.as_str());
    if !chars_eq_str(vk.as_slice(), "arrow_function") && !chars_eq_str(vk.as_slice(), "function") {
        return None;
    }
    let name = match field_text(&n.name_field) {
        Some(x) => x,
        None => chars_of("anonymous_arrow"),
    };
    let code = match node_text(n) {
        Some(c) => c,
        None => return None,
    };
    let sig = first_non_empty_line(code.as_slice());
    let ut = chars_of("function");
    Some(
        build_unit(
            rel_path,
            lang,
            ut.as_slice(),
            name.as_slice(),
            sig.as_slice(),
            code.as_slice(),
            n.start_row + 1,
            n.end_row + 1,
        ),
    )
}

/// Appends the units found in the tree under `node` to `units`.
fn collect_units(
    node: &SyntaxNode,
    rel_path: &[char],
    lang: Language,
    parent_class: &Option<Vec<char>>,
    parent_kind: Option<&str>,
    grand_kind: Option<&str>,
    units: &mut Vec<CodeUnit>,
)
    requires
        rows_valid(*node),
    ensures
        units_view(final(units)@) == units_view(old(units)@) + collect_node(
            *node,
            rel_path@,
            lang,
            opt_chars_view(*parent_class),
            opt_str_view(parent_kind),
            opt_str_view(grand_kind),
        ),
        lines_in_order(
            collect_node(
                *node,
                rel_path@,
                lang,
                opt_chars_view(*parent_class),
                opt_str_view(parent_kind),
                opt_str_view(grand_kind),
            ),
        ),
    decreases node,
{
    proof {
        lemma_collect_node_lines(
            *node,
            rel_path@,
            lang,
            opt_chars_view(*parent_class),
            opt_str_view(parent_kind),
            opt_str_view(grand_kind),
        );
    }
    let ghost start = units_view(units@);
    let kind = chars_of(node.kind.as_str());
    let mut class_name: Option<Vec<char>> = None;
    match class_kind(kind.as_slice(), lang) {
        Some(ck) => {
            let ckv = chars_of(ck);
            match extract_class_unit(node, rel_path, lang, ckv.as_slice()) {
                Some(u) => {
                    class_name = Some(chars_of(u.name.as_str()));
                    units.push(u);
                },
                None => {},
            }
        },
        None => {},
    }
    let ghost own: Seq<UnitView> = units_view(units@).skip(start.len() as int);
    assert(units_view(units@) =~= start + own);
    let child_class: Option<Vec<char>>;
    if class_name.is_some() {
        child_class = class_name;
    } else {
        match function_kind(kind.as_slice(), lang) {
            Some(fk) => match extract_function_unit(
                node,
                rel_path,
                lang,
                fk,
                parent_class,
                parent_kind,
                grand_kind,
            ) {
                Some(u) => units.push(u),
                None => {},
            },
            None => match extract_arrow_function_unit(node, rel_path, lang) {
                Some(u) => units.push(u),
                None => {},
            },
        }
        child_class = match parent_class {
            Some(p) => Some(sub_copy(p.as_slice())),
            None => None,
        };
        proof {
            own = units_view(units@).skip(start.len() as int);
        }
        assert(units_view(units@) =~= start + own);
    }
    let ghost pc = opt_chars_view(child_class);
    let ghost pk = Some(node.kind@);
    let ghost gk = opt_str_view(parent_kind);
    assert(collect_node(*node, rel_path@, lang, opt_chars_view(*parent_class), opt_str_view(parent_kind), opt_str_view(grand_kind))
        == own + collect_children(*node, 0, rel_path@, lang, pc, pk, gk));
    let mut i: usize = 0;
    while i < node.children.len()
        invariant
            i <= node.children@.len(),
            children_rows_valid(*node, i as int),
            pk == Some(node.kind@),
            gk == opt_str_view(parent_kind),
            pc == opt_chars_view(child_class),
            units_view(units@) + collect_children(*node, i as int, rel_path@, lang, pc, pk, gk)
                == start + own + collect_children(*node, 0, rel_path@, lang, pc, pk, gk),
        decreases node.children@.len() - i,
    {
        let ghost before = units_view(units@);
        let child = &node.children[i];
        collect_units(
            child,
            rel_path,
            lang,
            &child_class,
            Some(node.kind.as_str()),
            parent_kind,
            units,
        );
        assert(before + collect_children(*node, i as int, rel_path@, lang, pc, pk, gk) =~= units_view(units@)
            + collect_children(*node, i + 1, rel_path@, lang, pc, pk, gk));
        i = i + 1;
    }
}


/// A tree-sitter syntax node (`tree_sitter::Node`), carried into the conversion only.
#[verifier::external_type_specification]
#[verifier::external_body]
pub struct ExTreeSitterNode<'a>(tree_sitter::Node<'a>);

/// The syntax tree that tree-sitter's grammar for `lang` builds for `source`: `Err` where the
/// parser refuses the grammar, `Ok(None)` where it yields no tree.
pub uninterp spec fn syntax_tree(source: Seq<char>, lang: Language) -> Result<Option<SyntaxNode>, ()>;

/// Parses `source` with tree-sitter (`Parser::new`, `Parser::set_language` with the crate
/// grammar of `lang`, `Parser::parse`) and converts the root node with `syntax_node_of`.
/// The contract claims that the result is a function of the text and the language, and that
/// the rows are valid (`rows_valid`): every row fits below `usize::MAX`, since tree-sitter
/// counts rows in a `u32` (`TSPoint`); a node's end point is its start plus its extent, so
/// it starts at or before its end; a node spans its children, and `Node::children` walks
/// them in position order, where siblings do not overlap.
#[verifier::external_body]
fn parse_syntax_tree(source: &str, lang: Language) -> (res: Result<Option<SyntaxNode>, ()>)
    ensures
        res == syntax_tree(source@, lang),
        res matches Ok(Some(t)) ==> rows_valid(t),
{
    let grammar: tree_sitter::Language = match lang {
        Language::Python => tree_sitter_python::LANGUAGE.into(),
        Language::JavaScript => tree_sitter_javascript::LANGUAGE.into(),
        Language::TypeScript => tree_sitter_typescript::LANGUAGE_TYPESCRIPT.into(),
        Language::Rust => tree_sitter_rust::LANGUAGE.into(),
        Language::Go => tree_sitter_go::LANGUAGE.into(),
    };
    let mut parser = tree_sitter::Parser::new();
    parser.set_language(&grammar).map_err(|_| ())?;
    Ok(parser.parse(source, None).map(|tree| syntax_node_of(tree.root_node(), source.as_bytes())))
}

/// Converts a tree-sitter node and the nodes below it: `Node::kind`, `Node::utf8_text`,
/// the rows of `Node::start_position` and `Node::end_position`, `Node::child_by_field_name`
/// for `name`, `property` and `value`, and `Node::children`, one for one.
#[verifier::external_body]
fn syntax_node_of(node: tree_sitter::Node<'_>, source: &[u8]) -> SyntaxNode {
    let field = |name: &str| node.child_by_field_name(name).map(|c| FieldNode {
        kind: c.kind().to_string(),
        text: c.utf8_text(source).ok().map(str::to_string),
    });
    let mut cursor = node.walk();
    SyntaxNode {
        kind: node.kind().to_string(),
        text: node.utf8_text(source).ok().map(str::to_string),
        start_row: node.start_position().row,
        end_row: node.end_position().row,
        name_field: field("name"),
        property_field: field("property"),
        value_field: field("value"),
        children: node.children(&mut cursor).map(|c| syntax_node_of(c, source)).collect(),
    }
}

/// The first 200 lines (all, when there are fewer).
pub open spec fn head_lines(ls: Seq<Seq<char>>) -> Seq<Seq<char>> {
    if ls.len() <= 200 {
        ls
    } else {
        ls.take(200)
    }
}

/// The unit that stands for a whole file in which no declaration was found: its code is the
/// first 200 lines, its name the file's path, and it spans all lines (at least one).
pub open spec fn fallback_unit(source: Seq<char>, rel_path: Seq<char>, lang: Language) -> UnitView {
    let ls = lines(source);
    let code = join(head_lines(ls), seq!['\n']);
    unit_spec(
        rel_path,
        lang,
        "file"@,
        rel_path,
        first_non_empty_line_of(code),
        code,
        1,
        if ls.len() == 0 {
            1
        } else {
            ls.len() as usize
        },
    )
}

/// The units of a parsed file: those found in its tree, or the whole-file unit when there
/// are none.
pub open spec fn units_from_tree_spec(tree: SyntaxNode, source: Seq<char>, rel_path: Seq<char>, lang: Language) -> Seq<UnitView> {
    let found = collect_node(tree, rel_path, lang, None, None, None);
    if found.len() > 0 {
        found
    } else {
        seq![fallback_unit(source, rel_path, lang)]
    }
}

/// The units of a file whose syntax tree is `tree`.
pub fn units_from_tree(tree: &SyntaxNode, source: &str, rel_path: &str, lang: Language) -> (res: Vec<CodeUnit>)
    requires
        rows_valid(*tree),
    ensures
        units_view(res@) == units_from_tree_spec(*tree, source@, rel_path@, lang),
        lines_in_order(units_view(res@)),
{
    let rel = chars_of(rel_path);
    let mut units: Vec<CodeUnit> = Vec::new();
    collect_units(tree, rel.as_slice(), lang, &None, None, None, &mut units);
    assert(units_view(units@) =~= collect_node(*tree, rel_path@, lang, None, None, None));
    if units.len() == 0 {
        let src = chars_of(source);
        let ls = lines_of(src.as_slice());
        let n = if ls.len() <= 200 {
            ls.len()
        } else {
            200
        };
        assert(seqs_of(ls@).take(n as int) == head_lines(lines(source@))) by {
            if ls.len() <= 200 {
                assert(seqs_of(ls@).take(n as int) =~= seqs_of(ls@));
            }
        }
        let code = crate::text::join_first(&ls, n, '\n');
        let sig = first_non_empty_line(code.as_slice());
        let end = if ls.len() == 0 {
            1
        } else {
            ls.len()
        };
        let ft = chars_of("file");
        let u = build_unit(
            rel.as_slice(),
            lang,
            ft.as_slice(),
            rel.as_slice(),
            sig.as_slice(),
            code.as_slice(),
            1,
            end,
        );
        units.push(u);
        assert(units_view(units@) =~= seq![fallback_unit(source@, rel_path@, lang)]);
        assert(units_view(units@)[0].start_line == 1 && units_view(units@)[0].end_line == end);
    }
    units
}

/// The code units of `source`, a file at `rel_path` written in `lang`. A file in no
/// supported language has none.
pub fn parse_source(source: &str, rel_path: &str, lang: Option<Language>) -> (res: Result<Vec<CodeUnit>, SemgrepError>)
    ensures
        match lang {
            None => res matches Ok(v) && v@.len() == 0,
            Some(l) => match syntax_tree(source@, l) {
                Err(_) => res == Err::<Vec<CodeUnit>, SemgrepError>(SemgrepError::LanguageSetup),
                Ok(None) => res matches Ok(v) && v@.len() == 0,
                Ok(Some(t)) => res matches Ok(v) && units_view(v@) == units_from_tree_spec(
                    t,
                    source@,
                    rel_path@,
                    l,
                ),
            },
        },
        res matches Ok(v) ==> lines_in_order(units_view(v@)),
{
    let l = match lang {
        Some(l) => l,
        None => return Ok(Vec::new()),
    };
    match parse_syntax_tree(source, l) {
        Err(_) => Err(SemgrepError::LanguageSetup),
        Ok(None) => Ok(Vec::new()),
        Ok(Some(tree)) => Ok(units_from_tree(&tree, source, rel_path, l)),
    }
}

} // verus!
