use module_harness::parse::{extract_harness, Language};
use module_harness::report::{
    eval_is_covered, extension_list, extension_selected, has_harness, skips_dir, CoverageTally,
};

fn names(v: &[&str]) -> Vec<String> {
    v.iter().map(|s| s.to_string()).collect()
}

#[test]
fn coverage_matching() {
    let tests = names(&["load_missing_returns_defaults", "save"]);
    assert!(eval_is_covered("load_missing", &tests));
    assert!(eval_is_covered("save_roundtrip", &tests));
    assert!(!eval_is_covered("parse", &tests));
    assert!(!eval_is_covered("x", &names(&[])));
    assert!(eval_is_covered("", &tests));
}

#[test]
fn coverage_tally_counts() {
    let src = "//! # Module: config\n//! ## Spec\n//! - a\n//! ## Evals\n//! - load_missing: x\n//! - roundtrip: y\n";
    let h = extract_harness(src, Language::Rust);
    let mut tally = CoverageTally::new();
    let covered = tally.add_module(&h, &names(&["load_missing"]));
    assert_eq!(covered, vec![true, false]);
    let empty = extract_harness("fn main() {}", Language::Rust);
    let covered = tally.add_module(&empty, &names(&[]));
    assert!(covered.is_empty());
    assert_eq!(tally.modules_total, 2);
    assert_eq!(tally.modules_with_harness, 1);
    assert_eq!(tally.evals_total, 2);
    assert_eq!(tally.evals_covered, 1);
    assert!(has_harness(&h));
    assert!(!has_harness(&empty));
}

#[test]
fn scan_selection() {
    assert!(skips_dir(".git"));
    assert!(skips_dir("target"));
    assert!(skips_dir("node_modules"));
    assert!(!skips_dir("src"));
    assert!(!skips_dir(""));
    assert_eq!(extension_list(None), names(&["rs", "py", "ts", "tsx", "js", "jsx", "go", "kt", "kts", "java"]));
    assert_eq!(extension_list(Some("rs")), names(&["rs"]));
    assert_eq!(extension_list(Some("rs,,py,")), names(&["rs", "", "py", ""]));
    assert_eq!(extension_list(Some("")), names(&[""]));
    let exts = extension_list(Some("rs,py"));
    assert!(extension_selected("rs", &exts));
    assert!(!extension_selected("r", &exts));
    assert!(!extension_selected("rss", &exts));
}

#[test]
fn scored_eval_selection() {
    let h = module_harness::parse::parse_harness_sections(
        "## Evals\n- a [boolean]: x\n- b: untyped\n- c [range: 1..2]: y\n- d [continuous]: z\n",
    );
    let valued = names(&["a", "b", "c"]);
    assert_eq!(module_harness::report::evals_to_score(&h, &valued), vec![0, 2]);
    assert_eq!(module_harness::report::evals_to_score(&h, &names(&[])), Vec::<usize>::new());
    assert!(module_harness::report::holds_name("b", &valued));
    assert!(!module_harness::report::holds_name("d", &valued));
}

#[test]
fn scan_counts_are_the_files_counts() {
    let files = [
        ("//! # Module: a\n//! ## Evals\n//! - e1: x\n//! - e2: y\n#[test]\nfn e1_works() {}\n", Language::Rust),
        ("\"\"\"\n## Spec\n- s\n## Evals\n- test_b: z\n\"\"\"\ndef test_b(): pass\n", Language::Python),
        ("package main\n", Language::Go),
    ];
    let mut tally = CoverageTally::new();
    let mut listed = 0;
    for (src, lang) in files.iter() {
        let h = extract_harness(src, *lang);
        let tests = module_harness::parse::find_test_names(src, *lang);
        let covered = tally.add_module(&h, &tests);
        listed += covered.iter().filter(|c| **c).count();
    }
    assert_eq!(tally.modules_total, 3);
    assert_eq!(tally.modules_with_harness, 2);
    assert_eq!(tally.evals_total, 3);
    assert_eq!(tally.evals_covered, 2);
    assert_eq!(listed, 2);
    assert!(tally.evals_covered <= tally.evals_total);
    assert!(tally.modules_with_harness <= tally.modules_total);
}

#[test]
fn selected_files_have_a_listed_extension() {
    let exts = extension_list(Some("rs"));
    assert!(module_harness::report::file_selected("src/lib.rs", &exts));
    assert!(module_harness::report::file_selected("lib.rs", &exts));
    assert!(!module_harness::report::file_selected("src/lib.rsx", &exts));
    assert!(!module_harness::report::file_selected("src/.rs", &exts));
    assert!(!module_harness::report::file_selected("a.rs/..", &exts));
    assert!(!module_harness::report::file_selected("Makefile", &exts));
    let all = extension_list(None);
    assert!(module_harness::report::file_selected("web/app.tsx", &all));
    assert!(module_harness::report::file_selected("build.gradle.kts", &all));
    assert!(!module_harness::report::file_selected("notes.txt", &all));
}

#[test]
fn scored_evals_keep_harness_order() {
    let h = module_harness::parse::parse_harness_sections(
        "## Evals\n- z [boolean]: a\n- y [continuous]: b\n- x: c\n- w [ordinal]: d\n",
    );
    let valued = names(&["w", "x", "z"]);
    assert_eq!(module_harness::report::evals_to_score(&h, &valued), vec![0, 3]);
}
