use semgrep::cli::{interactive_input, plan_search, InteractiveInput, LangArg, SearchMode, SearchPlan};
use semgrep::display::{
    label, location, rank_label, render_human, result_file_path, HumanOutput, ResultEntry,
};
use semgrep::errors::SemgrepError;

fn entry(path: &str, start: Option<usize>, end: Option<usize>, t: Option<&str>, n: Option<&str>) -> ResultEntry {
    ResultEntry {
        file_path: path.to_string(),
        unit_type: t.map(String::from),
        name: n.map(String::from),
        signature: Some("  fn x()  ".to_string()),
        code: Some((1..=45).map(|i| format!("l{}", i)).collect::<Vec<_>>().join("\n")),
        start_line: start,
        end_line: end,
    }
}

#[test]
fn locations_labels_and_ranks() {
    assert_eq!(location(&entry("a.rs", Some(3), Some(9), None, None)), "a.rs:3-9");
    assert_eq!(location(&entry("a.rs", Some(3), Some(3), None, None)), "a.rs:3");
    assert_eq!(location(&entry("a.rs", Some(3), None, None, None)), "a.rs:3");
    assert_eq!(location(&entry("a.rs", None, Some(3), None, None)), "a.rs");
    assert_eq!(label(&entry("a", None, None, Some("fn"), Some("x"))), "fn x");
    assert_eq!(label(&entry("a", None, None, Some("fn"), None)), "fn");
    assert_eq!(label(&entry("a", None, None, None, Some("x"))), "x");
    assert_eq!(label(&entry("a", None, None, None, None)), "unit");
    assert_eq!(rank_label(0), " 1.");
    assert_eq!(rank_label(8), " 9.");
    assert_eq!(rank_label(9), "10.");
    assert_eq!(rank_label(122), "123.");
    assert_eq!(rank_label(0), format!("{:>2}.", 1));
}

#[test]
fn human_output_forms() {
    assert!(matches!(render_human(&vec![], false, false), HumanOutput::NoResults));
    let rs = vec![
        entry("b.rs", Some(1), Some(2), Some("function"), Some("f")),
        entry("a.rs", None, None, None, None),
        entry("b.rs", Some(5), Some(5), None, Some("g")),
    ];
    match render_human(&rs, true, false) {
        HumanOutput::Files(f) => assert_eq!(f, vec!["b.rs".to_string(), "a.rs".to_string()]),
        _ => panic!("expected files"),
    }
    match render_human(&rs, false, true) {
        HumanOutput::Entries(es) => {
            assert_eq!(es.len(), 3);
            assert_eq!(es[0].rank, " 1.");
            assert_eq!(es[0].location, "b.rs:1-2");
            assert_eq!(es[0].label, "function f");
            assert_eq!(es[0].signature.as_deref(), Some("fn x()"));
            assert_eq!(es[0].code_lines.len(), 40);
            assert_eq!(es[0].code_lines[39], "l40");
            assert_eq!(es[2].label, "g");
        }
        _ => panic!("expected entries"),
    }
    match render_human(&rs, false, false) {
        HumanOutput::Entries(es) => assert!(es[1].code_lines.is_empty()),
        _ => panic!("expected entries"),
    }
    let mut blank = entry("c.rs", None, None, None, None);
    blank.signature = Some("   ".to_string());
    match render_human(&vec![blank], false, false) {
        HumanOutput::Entries(es) => assert_eq!(es[0].signature, None),
        _ => panic!("expected entries"),
    }
}

#[test]
fn lang_arg_names() {
    assert_eq!(LangArg::Python.as_str(), "python");
    assert_eq!(LangArg::Javascript.as_str(), "javascript");
    assert_eq!(LangArg::Typescript.as_str(), "typescript");
    assert_eq!(LangArg::Rust.as_str(), "rust");
    assert_eq!(LangArg::Go.as_str(), "go");
}

#[test]
fn search_plans() {
    assert_eq!(
        plan_search(Some("q".into()), false, 0),
        Ok(SearchPlan { mode: SearchMode::Single("q".into()), top_k: 1 })
    );
    assert_eq!(plan_search(None, true, 7), Ok(SearchPlan { mode: SearchMode::Interactive, top_k: 7 }));
    let e = plan_search(None, false, 10).unwrap_err();
    assert_eq!(e, SemgrepError::QueryRequired);
    assert_eq!(e.message(), "query is required unless --interactive is used");
}

#[test]
fn interactive_lines() {
    assert_eq!(interactive_input("   \n"), InteractiveInput::Skip);
    assert_eq!(interactive_input(" EXIT\n"), InteractiveInput::Quit);
    assert_eq!(interactive_input("quit"), InteractiveInput::Quit);
    assert_eq!(interactive_input("QuIt "), InteractiveInput::Quit);
    assert_eq!(interactive_input("  error handling \n"), InteractiveInput::Query("error handling".into()));
    assert_eq!(interactive_input("exits"), InteractiveInput::Query("exits".into()));
}

#[test]
fn error_messages() {
    assert_eq!(SemgrepError::LanguageSetup.message(), "failed to set tree-sitter language");
    assert_eq!(SemgrepError::Api("boom".into()).message(), "boom");
}

#[test]
fn result_path_defaults_to_unknown() {
    assert_eq!(result_file_path(Some("src/a.rs".to_string())), "src/a.rs");
    assert_eq!(result_file_path(None), "<unknown>");
}
