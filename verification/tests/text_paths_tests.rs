use semgrep::errors::SemgrepError;
use semgrep::order::{path_less, sort_paths};
use semgrep::paths::{extension_of, file_name_of, is_ignored_dir, parent_of, path_components, relative_path};
use semgrep::scan::{normalize_extension, select_candidate_files};
use semgrep::text::{
    chars_of, decimal_of, first_non_empty_line, hex_of, is_whitespace, lines_of,
    to_ascii_lowercase, trim_chars,
};

fn s(v: &[char]) -> String {
    v.iter().collect()
}

fn strings(v: &[&str]) -> Vec<String> {
    v.iter().map(|x| x.to_string()).collect()
}

#[test]
fn trim_removes_unicode_white_space() {
    let v = chars_of("\u{3000}\t a b \u{2029}\n");
    assert_eq!(s(&trim_chars(&v)), "a b");
    let v = chars_of("\u{200b}x");
    assert_eq!(s(&trim_chars(&v)), "\u{200b}x");
    assert!(is_whitespace('\u{85}'));
    assert!(!is_whitespace('\u{200b}'));
}

#[test]
fn lines_follow_str_lines() {
    let v = chars_of("a\r\nb\n\nc\r");
    let ls: Vec<String> = lines_of(&v).iter().map(|l| s(l)).collect();
    assert_eq!(ls, strings(&["a", "b", "", "c\r"]));
    let expected: Vec<&str> = "a\r\nb\n\nc\r".lines().collect();
    assert_eq!(ls, strings(&expected));
    assert!(lines_of(&chars_of("")).is_empty());
    assert_eq!(lines_of(&chars_of("x\n")).len(), 1);
}

#[test]
fn first_non_empty_line_is_trimmed() {
    assert_eq!(s(&first_non_empty_line(&chars_of("\n   \n  fn x() {\n}"))), "fn x() {");
    assert_eq!(s(&first_non_empty_line(&chars_of(" \n\t"))), "");
}

#[test]
fn numerals() {
    assert_eq!(s(&decimal_of(0)), "0");
    assert_eq!(s(&decimal_of(907)), "907");
    assert_eq!(s(&decimal_of(u64::MAX)), u64::MAX.to_string());
    assert_eq!(s(&hex_of(0)), "0");
    assert_eq!(s(&hex_of(0xbeef01)), "beef01");
    assert_eq!(s(&hex_of(u64::MAX)), format!("{:x}", u64::MAX));
}

#[test]
fn ascii_lowercase_only() {
    assert_eq!(s(&to_ascii_lowercase(&chars_of("AbÉZ9"))), "abÉz9");
    assert_eq!(relative_path("/r", "/r/hé").unwrap(), "hé");
}

#[test]
fn components_and_names() {
    let comps: Vec<String> = path_components(&chars_of("/a//b/./c/")).iter().map(|c| s(c)).collect();
    assert_eq!(comps, strings(&["/", "a", "b", "c"]));
    let comps: Vec<String> = path_components(&chars_of("./x/../y")).iter().map(|c| s(c)).collect();
    assert_eq!(comps, strings(&[".", "x", "..", "y"]));
    assert_eq!(file_name_of(&chars_of("/a/b.rs")).map(|v| s(&v)), Some("b.rs".to_string()));
    assert_eq!(file_name_of(&chars_of("/a/..")), None);
    assert_eq!(file_name_of(&chars_of("/")), None);
    assert_eq!(extension_of(&chars_of("a/b.")).map(|v| s(&v)), Some("".to_string()));
    assert_eq!(extension_of(&chars_of(".bashrc")), None);
    assert_eq!(extension_of(&chars_of(".a.b")).map(|v| s(&v)), Some("b".to_string()));
    assert_eq!(parent_of(&chars_of("/a/b/c.rs")).map(|v| s(&v)), Some("/a/b".to_string()));
    assert_eq!(parent_of(&chars_of("/a")).map(|v| s(&v)), Some("/".to_string()));
    assert_eq!(parent_of(&chars_of("a")).map(|v| s(&v)), Some("".to_string()));
    assert_eq!(parent_of(&chars_of("/")), None);
}

#[test]
fn ignored_directories() {
    assert!(is_ignored_dir("/repo/node_modules"));
    assert!(is_ignored_dir("target"));
    assert!(is_ignored_dir("/x/.git/"));
    assert!(!is_ignored_dir("/repo/node_modules/pkg"));
    assert!(!is_ignored_dir("/repo/src"));
    assert!(!is_ignored_dir("/"));
}

#[test]
fn relative_paths_use_forward_slashes() {
    assert_eq!(relative_path("/r", "/r/src/a.rs").unwrap(), "src/a.rs");
    assert_eq!(relative_path("/r/", "/r/src/a\\b.rs").unwrap(), "src/a/b.rs");
    assert_eq!(relative_path("/r", "/r").unwrap(), "");
    let err = relative_path("/r", "/rs/a.rs").unwrap_err();
    assert_eq!(
        err,
        SemgrepError::NotUnderRoot { path: "/rs/a.rs".to_string(), root: "/r".to_string() }
    );
    assert_eq!(err.message(), "/rs/a.rs is not under /r");
    assert!(relative_path("/r/s/t", "/r/s").is_err());
}

#[test]
fn paths_order_by_components() {
    assert!(path_less("/a/b", "/a-b"));
    assert!(!path_less("/a-b", "/a/b"));
    assert!(path_less("/a", "/a/b"));
    assert!(!path_less("/a/b", "/a/b"));
    assert!(path_less("/", "a"));
    let sorted = sort_paths(strings(&["/r/b.py", "/r/a-b.rs", "/r/a/z.rs", "/r/A.go"]));
    assert_eq!(sorted, strings(&["/r/A.go", "/r/a/z.rs", "/r/a-b.rs", "/r/b.py"]));
    let mut std_sorted: Vec<std::path::PathBuf> =
        ["/r/b.py", "/r/a-b.rs", "/r/a/z.rs", "/r/A.go"].iter().map(std::path::PathBuf::from).collect();
    std_sorted.sort();
    let std_sorted: Vec<String> = std_sorted.iter().map(|p| p.to_string_lossy().into_owned()).collect();
    assert_eq!(sorted, std_sorted);
}

#[test]
fn candidate_files_filtered_and_sorted() {
    let found = strings(&["/r/b.py", "/r/a.rs", "/r/README.md", "/r/c.PY", "/r/d.tsx"]);
    assert_eq!(select_candidate_files(found.clone(), None, None), strings(&["/r/a.rs", "/r/b.py", "/r/c.PY", "/r/d.tsx"]));
    assert_eq!(select_candidate_files(found.clone(), Some("python"), None), strings(&["/r/b.py", "/r/c.PY"]));
    assert_eq!(select_candidate_files(found.clone(), None, Some("rs")), strings(&["/r/a.rs"]));
    assert_eq!(select_candidate_files(found.clone(), None, Some(".rs")), strings(&["/r/a.rs"]));
    assert_eq!(select_candidate_files(found.clone(), None, Some(".py")), strings(&["/r/b.py", "/r/c.PY"]));
    assert_eq!(select_candidate_files(found.clone(), None, Some(".PY")), Vec::<String>::new());
    assert_eq!(select_candidate_files(found, Some("go"), None), Vec::<String>::new());
}

#[test]
fn extension_filter_dot_is_optional() {
    assert_eq!(normalize_extension("rs"), ".rs");
    assert_eq!(normalize_extension(".rs"), ".rs");
    assert_eq!(normalize_extension(&normalize_extension("py")), normalize_extension("py"));
    assert_eq!(normalize_extension(""), ".");
}

#[test]
fn relative_path_of_a_joined_path_gives_it_back() {
    for (root, rel) in [("/", "a.rs"), ("/r", "src/lib/x.py"), ("/r/", "..x/y.go"), ("/a/b", "c")] {
        let joined = if root.ends_with('/') { format!("{}{}", root, rel) } else { format!("{}/{}", root, rel) };
        assert_eq!(relative_path(root, &joined).unwrap(), rel);
    }
}

#[test]
fn relative_path_keeps_the_text_between_components() {
    assert_eq!(relative_path("/r", "/r/a//b/./c.rs").unwrap(), "a//b/./c.rs");
    assert_eq!(relative_path("/r", "/r//a/").unwrap(), "a");
    assert_eq!(relative_path("/r", "/r/./a/.").unwrap(), "a");
    assert_eq!(relative_path("/r/", "/r/").unwrap(), "");
    assert_eq!(relative_path("", "./a").unwrap(), "./a");
}
