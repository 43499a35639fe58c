use module_harness::eval::EvalType;
use module_harness::parse::{
    extract_harness, find_python_test_names, find_test_names, parse_eval_entry,
    parse_harness_sections, Harness, Language,
};
use module_harness::report::eval_is_covered;

const BODY: [&str; 9] = [
    "# Module: store",
    "",
    "## Spec",
    "- Keep entries in order",
    "## Agentic Contracts",
    "- Never drops an entry",
    "## Evals",
    "- keep_order [boolean]: insert two → both listed",
    "- `size_limit` — full store → refuses",
];

fn commented(marker: &str) -> String {
    BODY.iter().map(|l| format!("{}{}", marker, l)).collect::<Vec<_>>().join("\n")
}

fn expected() -> Harness {
    parse_harness_sections(&BODY.join("\n"))
}

#[test]
fn same_harness_in_every_comment_syntax() {
    let want = expected();
    assert_eq!(want.module, "store");
    assert_eq!(want.spec, vec!["Keep entries in order".to_string()]);
    assert_eq!(want.contracts, vec!["Never drops an entry".to_string()]);
    assert_eq!(want.evals.len(), 2);
    assert_eq!(want.evals[0].eval_type, Some(EvalType::Boolean));
    assert_eq!(want.evals[1].name, "size_limit");
    assert_eq!(want.evals[1].description, "full store → refuses");

    assert_eq!(extract_harness(&commented("//! "), Language::Rust), want);
    assert_eq!(extract_harness(&commented("// "), Language::Go), want);
    let python = format!("\"\"\"\n{}\n\"\"\"", BODY.join("\n"));
    assert_eq!(extract_harness(&python, Language::Python), want);
    let jsdoc = format!("/**\n{}\n */", commented(" * "));
    for lang in [Language::TypeScript, Language::JavaScript, Language::Kotlin, Language::Java] {
        assert_eq!(extract_harness(&jsdoc, lang), want);
    }
}

#[test]
fn code_after_the_comment_changes_nothing() {
    let want = expected();
    let code = "\nuse std::io;\n// a later comment\nfn main() {}\n";
    let rust = format!("{}\n{}", commented("//! "), code);
    assert_eq!(extract_harness(&rust, Language::Rust), want);
    let go = format!("{}\npackage store\n\n// Put adds.\nfunc Put() {{}}\n", commented("// "));
    assert_eq!(extract_harness(&go, Language::Go), want);
    let python = format!("\"\"\"\n{}\n\"\"\"\nimport os\n'''not a docstring'''\n", BODY.join("\n"));
    assert_eq!(extract_harness(&python, Language::Python), want);
    let jsdoc = format!("/**\n{}\n */\n/** later */\nexport {{}};\n", commented(" * "));
    assert_eq!(extract_harness(&jsdoc, Language::TypeScript), want);

    // A line that continues the comment is part of it.
    let continued = format!("{}\n//! - extra", commented("//! "));
    assert_ne!(extract_harness(&continued, Language::Rust), want);
}

#[test]
fn unknown_source_has_no_harness() {
    let src = commented("//! ");
    let h = extract_harness(&src, Language::Unknown);
    assert!(h.module.is_empty());
    assert!(h.spec.is_empty() && h.contracts.is_empty() && h.evals.is_empty());
    assert_eq!(h, Harness::default());
    let tests = "#[test]\nfn a() {}\ndef test_b():\nit(\"c\", f)\n";
    for lang in [Language::Go, Language::Kotlin, Language::Java, Language::Unknown] {
        assert!(find_test_names(tests, lang).is_empty());
    }
}

#[test]
fn python_test_names_are_test_functions() {
    let src = "def test_a(x):\n    pass\ndef helper():\n  def test_inner_case():\n\tdef testing(): pass\n";
    let names = find_python_test_names(src);
    assert_eq!(names, vec!["test_a".to_string(), "test_inner_case".to_string()]);
    assert!(names.iter().all(|n| n.starts_with("test_") && !n.contains('(')));
}

#[test]
fn eval_named_like_a_test_is_covered() {
    let tests = vec!["roundtrip".to_string(), "other".to_string()];
    assert!(eval_is_covered("roundtrip", &tests));
    assert!(eval_is_covered("trip", &tests));
    assert!(eval_is_covered("roundtrip_twice", &tests));
    assert!(!eval_is_covered("missing", &tests));
}

#[test]
fn eval_entries_read_back() {
    let e = parse_eval_entry("hook_count [range: 3..8]:  5 hooks → within ").unwrap();
    assert_eq!(e.name, "hook_count");
    assert_eq!(e.description, "5 hooks → within");
    match e.eval_type {
        Some(EvalType::Range { low, high }) => {
            assert_eq!(low, "3");
            assert_eq!(high, "8");
        }
        other => panic!("unexpected type {:?}", other),
    }
    let e = parse_eval_entry("rating [ordinal: 2..7]: rated").unwrap();
    assert_eq!(e.eval_type, Some(EvalType::Ordinal { min: 2, max: 7 }));
    let e = parse_eval_entry("plain: no type here").unwrap();
    assert_eq!(e.name, "plain");
    assert_eq!(e.description, "no type here");
    assert_eq!(e.eval_type, None);
}

#[test]
fn harness_format_reads_back() {
    let doc = "# Module: config\n\n## Spec\n- Load from disk\n- Save [atomically]\n\n## Agentic Contracts\n- Never panics\n\n## Evals\n- load_missing: no file → defaults\n- : nameless\n- hook_count [range: 3..8]: hooks";
    let h = parse_harness_sections(doc);
    assert_eq!(h.module, "config");
    assert_eq!(h.spec, vec!["Load from disk".to_string(), "Save [atomically]".to_string()]);
    assert_eq!(h.contracts, vec!["Never panics".to_string()]);
    assert_eq!(h.evals.len(), 2);
    assert_eq!(h.evals[0], parse_eval_entry("load_missing: no file → defaults").unwrap());
    assert_eq!(h.evals[1], parse_eval_entry("hook_count [range: 3..8]: hooks").unwrap());
    assert!(parse_eval_entry(": nameless").is_none());

    let empty_name = parse_harness_sections("# Module: \n## Spec\n- only");
    assert_eq!(empty_name.module, "");
    assert_eq!(empty_name.spec, vec!["only".to_string()]);
}

#[test]
fn items_fall_in_their_section() {
    let text = "- before any heading\n## Evals\n- e1: d\n# Module: first\n## Spec\n- s1\n### Spec detail\n- still spec\n## Notes\n- ignored\n## Agentic Contracts\n- c1\n# Module: last\n- c2\n";
    let h = parse_harness_sections(text);
    assert_eq!(h.module, "last");
    assert_eq!(h.spec, vec!["s1".to_string(), "still spec".to_string()]);
    assert_eq!(h.contracts, vec!["c1".to_string(), "c2".to_string()]);
    assert_eq!(h.evals.len(), 1);
    assert_eq!(h.evals[0].name, "e1");
    assert_eq!(parse_harness_sections("## Spec\n- x\n").module, "");
}
