use std::collections::hash_map::DefaultHasher;
use std::hash::{Hash, Hasher};

use semgrep::parser::{parse_source, units_from_tree, CodeUnit, FieldNode, Language, SyntaxNode};
use semgrep::paths::detect_language;

fn unit_id(file_path: &str, name: &str, start: usize, end: usize) -> String {
    let mut h = DefaultHasher::new();
    file_path.hash(&mut h);
    name.hash(&mut h);
    start.hash(&mut h);
    end.hash(&mut h);
    format!("{:x}", h.finish())
}

fn summary(units: &[CodeUnit]) -> Vec<(String, String, usize, usize)> {
    units
        .iter()
        .map(|u| (u.unit_type.clone(), u.name.clone(), u.start_line, u.end_line))
        .collect()
}

fn leaf(kind: &str, text: &str) -> SyntaxNode {
    SyntaxNode {
        kind: kind.to_string(),
        text: Some(text.to_string()),
        start_row: 0,
        end_row: 0,
        name_field: None,
        property_field: None,
        value_field: None,
        children: Vec::new(),
    }
}

#[test]
fn python_classes_methods_and_functions() {
    let src = "class Foo:\n    def bar(self):\n        return 1\n\ndef baz():\n    pass\n";
    let units = parse_source(src, "pkg/a.py", Some(Language::Python)).unwrap();
    assert_eq!(
        summary(&units),
        vec![
            ("class".to_string(), "Foo".to_string(), 1, 3),
            ("method".to_string(), "bar".to_string(), 2, 3),
            ("function".to_string(), "baz".to_string(), 5, 6),
        ]
    );
    let baz = &units[2];
    assert_eq!(baz.code, "def baz():\n    pass");
    assert_eq!(baz.signature, "def baz():");
    assert_eq!(
        baz.structured_text,
        "File: pkg/a.py\nLanguage: python\nType: function\nName: baz\nLines: 5-6\nSignature:\ndef baz():\n\nCode:\ndef baz():\n    pass"
    );
    assert_eq!(baz.id, unit_id("pkg/a.py", "baz", 5, 6));
    assert_eq!(units[0].signature, "class Foo:");
    for u in &units {
        assert_eq!(u.file_path, "pkg/a.py");
        assert_eq!(u.language, "python");
    }
}

#[test]
fn rust_structs_impls_and_methods() {
    let src = "struct S;\nimpl S {\n    fn m(&self) {}\n}\nfn free() {}\n";
    let units = parse_source(src, "lib.rs", Some(Language::Rust)).unwrap();
    assert_eq!(
        summary(&units),
        vec![
            ("struct".to_string(), "S".to_string(), 1, 1),
            ("impl".to_string(), "S".to_string(), 2, 4),
            ("method".to_string(), "m".to_string(), 3, 3),
            ("function".to_string(), "free".to_string(), 5, 5),
        ]
    );
    assert_eq!(units[3].signature, "fn free() {}");
}

#[test]
fn javascript_arrow_functions_are_units() {
    let src = "const f = () => 1;\nfunction g() { return 2; }\n";
    let units = parse_source(src, "x.js", Some(Language::JavaScript)).unwrap();
    assert_eq!(
        summary(&units),
        vec![
            ("function".to_string(), "f".to_string(), 1, 1),
            ("function".to_string(), "g".to_string(), 2, 2),
        ]
    );
    assert_eq!(units[0].code, "f = () => 1");
    assert_eq!(units[0].language, "javascript");
}

#[test]
fn typescript_interfaces_and_type_aliases() {
    let src = "interface I { a: number }\ntype T = string;\n";
    let units = parse_source(src, "x.ts", Some(Language::TypeScript)).unwrap();
    assert_eq!(
        summary(&units),
        vec![
            ("interface".to_string(), "I".to_string(), 1, 1),
            ("type".to_string(), "T".to_string(), 2, 2),
        ]
    );
}

#[test]
fn go_functions_and_methods() {
    let src = "package main\n\nfunc (s T) M() {}\n\nfunc F() {}\n";
    let units = parse_source(src, "main.go", Some(Language::Go)).unwrap();
    assert_eq!(
        summary(&units),
        vec![
            ("method".to_string(), "M".to_string(), 3, 3),
            ("function".to_string(), "F".to_string(), 5, 5),
        ]
    );
}

#[test]
fn file_without_declarations_gives_one_file_unit() {
    let src = "\n  x = 1\r\ny = 2\n";
    let units = parse_source(src, "s.py", Some(Language::Python)).unwrap();
    assert_eq!(units.len(), 1);
    let u = &units[0];
    assert_eq!(u.unit_type, "file");
    assert_eq!(u.name, "s.py");
    assert_eq!(u.code, "\n  x = 1\ny = 2");
    assert_eq!(u.signature, "x = 1");
    assert_eq!((u.start_line, u.end_line), (1, 3));
    assert_eq!(u.id, unit_id("s.py", "s.py", 1, 3));
}

#[test]
fn empty_file_gives_one_line_file_unit() {
    let units = parse_source("", "e.py", Some(Language::Python)).unwrap();
    assert_eq!(units.len(), 1);
    assert_eq!(units[0].code, "");
    assert_eq!(units[0].signature, "");
    assert_eq!((units[0].start_line, units[0].end_line), (1, 1));
}

#[test]
fn fallback_code_keeps_the_first_200_lines() {
    let src: String = (1..=250).map(|i| format!("x{} = {}\n", i, i)).collect();
    let units = parse_source(&src, "big.py", Some(Language::Python)).unwrap();
    assert_eq!(units.len(), 1);
    assert_eq!(units[0].code.lines().count(), 200);
    assert!(units[0].code.ends_with("x200 = 200"));
    assert_eq!(units[0].end_line, 250);
}

#[test]
fn unknown_language_gives_no_units() {
    let units = parse_source("whatever", "README.md", None).unwrap();
    assert!(units.is_empty());
}

#[test]
fn parse_file_language_comes_from_extension() {
    assert_eq!(detect_language("src/Main.RS"), Some(Language::Rust));
    assert_eq!(detect_language("a/b.py"), Some(Language::Python));
    assert_eq!(detect_language("x.jsx"), Some(Language::JavaScript));
    assert_eq!(detect_language("x.mjs"), Some(Language::JavaScript));
    assert_eq!(detect_language("x.cjs"), Some(Language::JavaScript));
    assert_eq!(detect_language("x.tsx"), Some(Language::TypeScript));
    assert_eq!(detect_language("x.go"), Some(Language::Go));
    assert_eq!(detect_language(".py"), None);
    assert_eq!(detect_language("a.tar.gz"), None);
    assert_eq!(detect_language("Makefile"), None);
    assert_eq!(detect_language("dir.py/"), Some(Language::Python));
    assert_eq!(detect_language("/"), None);
}

#[test]
fn language_names() {
    assert_eq!(Language::Python.as_str(), "python");
    assert_eq!(Language::JavaScript.as_str(), "javascript");
    assert_eq!(Language::TypeScript.as_str(), "typescript");
    assert_eq!(Language::Rust.as_str(), "rust");
    assert_eq!(Language::Go.as_str(), "go");
}

#[test]
fn rust_function_name_from_signature() {
    let node = SyntaxNode {
        kind: "function_item".to_string(),
        text: Some("  pub fn hello_world(x: u8) {}\n".to_string()),
        start_row: 4,
        end_row: 6,
        name_field: None,
        property_field: None,
        value_field: None,
        children: vec![SyntaxNode { start_row: 4, end_row: 4, ..leaf("visibility_modifier", "pub") }],
    };
    let units = units_from_tree(&node, "", "m.rs", Language::Rust);
    assert_eq!(summary(&units), vec![("function".to_string(), "hello_world".to_string(), 5, 7)]);
    assert_eq!(units[0].signature, "pub fn hello_world(x: u8) {}");
}

#[test]
fn class_name_inferred_from_keyword() {
    let node = SyntaxNode {
        kind: "class_definition".to_string(),
        text: Some("class   Foo(Base):\n    pass".to_string()),
        start_row: 0,
        end_row: 1,
        name_field: Some(FieldNode { kind: "identifier".to_string(), text: Some("   ".to_string()) }),
        property_field: None,
        value_field: None,
        children: Vec::new(),
    };
    let units = units_from_tree(&node, "", "c.py", Language::Python);
    assert_eq!(summary(&units), vec![("class".to_string(), "Foo".to_string(), 1, 2)]);
}

#[test]
fn unit_type_is_the_name_of_last_resort() {
    let node = SyntaxNode {
        kind: "type_declaration".to_string(),
        text: Some("type ( )".to_string()),
        start_row: 2,
        end_row: 2,
        name_field: None,
        property_field: None,
        value_field: None,
        children: Vec::new(),
    };
    let units = units_from_tree(&node, "", "t.go", Language::Go);
    assert_eq!(summary(&units), vec![("type".to_string(), "type".to_string(), 3, 3)]);
}

#[test]
fn name_from_property_field_then_identifier_child() {
    let with_property = SyntaxNode {
        kind: "method_definition".to_string(),
        text: Some("get x() {}".to_string()),
        start_row: 0,
        end_row: 0,
        name_field: None,
        property_field: Some(FieldNode { kind: "property_identifier".to_string(), text: Some("x".to_string()) }),
        value_field: None,
        children: Vec::new(),
    };
    let units = units_from_tree(&with_property, "", "p.js", Language::JavaScript);
    assert_eq!(summary(&units), vec![("method".to_string(), "x".to_string(), 1, 1)]);

    let with_child = SyntaxNode {
        kind: "struct_item".to_string(),
        text: Some("struct P;".to_string()),
        start_row: 0,
        end_row: 0,
        name_field: None,
        property_field: None,
        value_field: None,
        children: vec![leaf("struct", "struct"), leaf("identifier", " "), leaf("type_identifier", "P")],
    };
    let units = units_from_tree(&with_child, "", "p.rs", Language::Rust);
    assert_eq!(units[0].name, "P");
}

#[test]
fn arrow_without_name_is_anonymous() {
    let node = SyntaxNode {
        kind: "variable_declarator".to_string(),
        text: Some("[a] = function () {}".to_string()),
        start_row: 0,
        end_row: 0,
        name_field: Some(FieldNode { kind: "array_pattern".to_string(), text: Some("".to_string()) }),
        property_field: None,
        value_field: Some(FieldNode { kind: "function".to_string(), text: Some("function () {}".to_string()) }),
        children: Vec::new(),
    };
    let units = units_from_tree(&node, "", "q.ts", Language::TypeScript);
    assert_eq!(summary(&units), vec![("function".to_string(), "anonymous_arrow".to_string(), 1, 1)]);
    // Not an arrow function in Python.
    let units = units_from_tree(&node, "v = 1", "q.py", Language::Python);
    assert_eq!(units[0].unit_type, "file");
}

#[test]
fn node_with_invalid_text_gives_no_unit() {
    let node = SyntaxNode {
        kind: "function_definition".to_string(),
        text: None,
        start_row: 0,
        end_row: 0,
        name_field: None,
        property_field: None,
        value_field: None,
        children: Vec::new(),
    };
    let units = units_from_tree(&node, "a\nb", "n.py", Language::Python);
    assert_eq!(summary(&units), vec![("file".to_string(), "n.py".to_string(), 1, 2)]);
}

fn assert_lines_in_order(units: &[CodeUnit]) {
    for (i, u) in units.iter().enumerate() {
        assert!(1 <= u.start_line && u.start_line <= u.end_line);
        if i > 0 {
            assert!(units[i - 1].start_line <= u.start_line);
        }
    }
}

#[test]
fn unit_lines_are_spans_in_order() {
    let py = "class A:\n    def f(self):\n        pass\n\n    def g(self):\n        pass\n\ndef h():\n    pass\n";
    assert_lines_in_order(&parse_source(py, "a.py", Some(Language::Python)).unwrap());
    let rs = "struct S;\nimpl S {\n    fn m(&self) {}\n    fn n(&self) {}\n}\nfn free() {}\n";
    assert_lines_in_order(&parse_source(rs, "a.rs", Some(Language::Rust)).unwrap());
    assert_lines_in_order(&parse_source("", "e.go", Some(Language::Go)).unwrap());
}
