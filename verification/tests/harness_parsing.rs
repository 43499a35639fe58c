use module_harness::eval::EvalType;
use module_harness::parse::{
    detect_language, extract_doc_comment, extract_go_comment, extract_harness,
    extract_jsdoc_comment, extract_python_docstring, extract_rust_doc_comment, find_js_test_names,
    find_rust_test_names, find_test_names, language_for_extension, parse_eval_entry,
    parse_harness_sections, Language,
};

#[test]
fn rust_doc_comment_extraction() {
    let src = r#"//! # Module: config
//!
//! ## Spec
//! - Load config from disk
//! - Save config to disk
//!
//! ## Agentic Contracts
//! - Never panics on missing file
//!
//! ## Evals
//! - load_missing: no file → returns defaults
//! - save_roundtrip: save then load → identical

use anyhow::Result;
"#;
    let harness = extract_harness(src, Language::Rust);
    assert_eq!(harness.module, "config");
    assert_eq!(harness.spec.len(), 2);
    assert_eq!(harness.contracts.len(), 1);
    assert_eq!(harness.evals.len(), 2);
    assert_eq!(harness.evals[0].name, "load_missing");
    assert_eq!(harness.evals[1].name, "save_roundtrip");
}

#[test]
fn python_docstring_extraction() {
    let src = r#""""
# Module: utils

## Spec
- Parse input data
- Validate schema

## Evals
- parse_valid: valid JSON → parsed object
"""

import json
"#;
    let harness = extract_harness(src, Language::Python);
    assert_eq!(harness.module, "utils");
    assert_eq!(harness.spec.len(), 2);
    assert_eq!(harness.evals.len(), 1);
}

#[test]
fn jsdoc_comment_extraction() {
    let src = r#"/**
 * # Module: api
 *
 * ## Spec
 * - Handle GET requests
 *
 * ## Agentic Contracts
 * - Always returns JSON
 *
 * ## Evals
 * - get_success: valid endpoint → 200 response
 */

export function handler() {}
"#;
    let harness = extract_harness(src, Language::TypeScript);
    assert_eq!(harness.module, "api");
    assert_eq!(harness.spec.len(), 1);
    assert_eq!(harness.contracts.len(), 1);
    assert_eq!(harness.evals.len(), 1);
}

#[test]
fn no_harness_returns_empty() {
    let src = "use std::io;\nfn main() {}";
    let harness = extract_harness(src, Language::Rust);
    assert!(harness.module.is_empty());
    assert!(harness.spec.is_empty());
}

#[test]
fn eval_entry_parsing() {
    let eval = parse_eval_entry("load_missing: no file → returns defaults").unwrap();
    assert_eq!(eval.name, "load_missing");
    assert!(eval.description.contains("no file"));

    let eval = parse_eval_entry("`save_roundtrip`: save then load → identical").unwrap();
    assert_eq!(eval.name, "save_roundtrip");
}

#[test]
fn language_detection() {
    assert_eq!(detect_language("foo.rs"), Language::Rust);
    assert_eq!(detect_language("bar.py"), Language::Python);
    assert_eq!(detect_language("baz.ts"), Language::TypeScript);
    assert_eq!(detect_language("qux.go"), Language::Go);
    assert_eq!(detect_language("x.kt"), Language::Kotlin);
    assert_eq!(detect_language("y.java"), Language::Java);
    assert_eq!(detect_language("z.txt"), Language::Unknown);
}

#[test]
fn language_detection_edge_paths() {
    assert_eq!(detect_language("dir.rs/file"), Language::Unknown);
    assert_eq!(detect_language(".rs"), Language::Unknown);
    assert_eq!(detect_language("src/app.component.tsx"), Language::TypeScript);
    assert_eq!(detect_language("a/b.JS"), Language::Unknown);
    assert_eq!(detect_language("build.gradle.kts"), Language::Kotlin);
    assert_eq!(detect_language("Makefile"), Language::Unknown);
}

#[test]
fn extension_table() {
    let table = [
        ("rs", Language::Rust),
        ("py", Language::Python),
        ("ts", Language::TypeScript),
        ("tsx", Language::TypeScript),
        ("js", Language::JavaScript),
        ("jsx", Language::JavaScript),
        ("go", Language::Go),
        ("kt", Language::Kotlin),
        ("kts", Language::Kotlin),
        ("java", Language::Java),
        ("c", Language::Unknown),
        ("", Language::Unknown),
    ];
    for (ext, lang) in table {
        assert_eq!(language_for_extension(Some(ext)), lang, "{}", ext);
    }
    assert_eq!(language_for_extension(None), Language::Unknown);
}

#[test]
fn typed_eval_entries() {
    let e = parse_eval_entry("hook_coverage [boolean]: all hooks registered").unwrap();
    assert_eq!(e.name, "hook_coverage");
    assert_eq!(e.description, "all hooks registered");
    assert_eq!(e.eval_type, Some(EvalType::Boolean));

    let e = parse_eval_entry("interface_complexity [ordinal: 1..5]: rating").unwrap();
    assert_eq!(e.name, "interface_complexity");
    assert_eq!(e.eval_type, Some(EvalType::Ordinal { min: 1, max: 5 }));

    let e = parse_eval_entry("hook_count [range: 3..8]: number of hooks").unwrap();
    assert_eq!(e.name, "hook_count");
    match e.eval_type {
        Some(EvalType::Range { low, high }) => {
            assert_eq!(low.parse::<f64>().unwrap(), 3.0);
            assert_eq!(high.parse::<f64>().unwrap(), 8.0);
        }
        other => panic!("{:?}", other),
    }

    // An unknown annotation is cut out and leaves the eval untyped.
    let e = parse_eval_entry("x [weird]: d").unwrap();
    assert_eq!(e.name, "x");
    assert_eq!(e.eval_type, None);
}

#[test]
fn eval_entry_separators() {
    let e = parse_eval_entry("name — the description").unwrap();
    assert_eq!(e.name, "name");
    assert_eq!(e.description, "the description");

    let e = parse_eval_entry("just_a_name").unwrap();
    assert_eq!(e.name, "just_a_name");
    assert_eq!(e.description, "");

    let e = parse_eval_entry("a: b: c").unwrap();
    assert_eq!(e.name, "a");
    assert_eq!(e.description, "b: c");

    assert!(parse_eval_entry(": nameless").is_none());
    assert!(parse_eval_entry("``: nameless").is_none());
    assert!(parse_eval_entry("   ").is_none());
    // A `[` with no `]` after it is ordinary text.
    let e = parse_eval_entry("x[y: z").unwrap();
    assert_eq!(e.name, "x[y");
    assert_eq!(e.description, "z");
}

#[test]
fn harness_sections() {
    let text = "# Module: a\n## Spec\n- s1\n## Other\n- ignored\n## Agentic Contracts\n- c1\n- c2\n## Evals\n- e1: d\n- : no name\n- e2\n# Module:# Module: b\n";
    let h = parse_harness_sections(text);
    assert_eq!(h.module, "b");
    assert_eq!(h.spec, vec!["s1".to_string()]);
    assert_eq!(h.contracts, vec!["c1".to_string(), "c2".to_string()]);
    assert_eq!(h.evals.len(), 2);
    assert_eq!(h.evals[0].name, "e1");
    assert_eq!(h.evals[1].name, "e2");

    let h = parse_harness_sections("- before any section\n## Spec\n-not an item\n  - indented item  \r\n");
    assert_eq!(h.spec, vec!["indented item".to_string()]);
}

#[test]
fn go_comment_extraction() {
    let src = "// # Module: router\n//\n// ## Spec\n// - Route requests\npackage router\n";
    let h = extract_harness(src, Language::Go);
    assert_eq!(h.module, "router");
    assert_eq!(h.spec, vec!["Route requests".to_string()]);

    // A package clause before any comment leaves no harness.
    let h = extract_harness("package x\n// # Module: late\n", Language::Go);
    assert_eq!(h.module, "");
}

#[test]
fn doc_comment_edge_cases() {
    // Only the first run of `//!` lines counts.
    let src = "use x;\n//! # Module: one\n\n//! # Module: two\n";
    assert_eq!(extract_harness(src, Language::Rust).module, "one");
    // Python docstrings in single quotes, and unterminated ones.
    let h = extract_harness("'''\n# Module: single\n'''", Language::Python);
    assert_eq!(h.module, "single");
    let h = extract_harness("\"\"\"\n# Module: open\n", Language::Python);
    assert_eq!(h.module, "");
    // A JSDoc comment must open the file.
    let h = extract_harness("x\n/** # Module: m */", Language::Java);
    assert_eq!(h.module, "");
    let h = extract_harness("/** # Module: m */", Language::Kotlin);
    assert_eq!(h.module, "m");
    // Unknown languages have no harness.
    let h = extract_harness("//! # Module: r", Language::Unknown);
    assert_eq!(h.module, "");
}

#[test]
fn test_name_discovery() {
    let rust = "#[test]\nfn alpha() {}\n#[test]\n#[should_panic]\nfn beta() {}\nfn gamma() {}\n#[test]\n\nfn delta() {}\n";
    assert_eq!(find_test_names(rust, Language::Rust), vec!["alpha".to_string(), "beta".to_string()]);
    let boom = "#[test]\n#[should_panic]\nfn boom() {}\n";
    assert_eq!(find_test_names(boom, Language::Rust), vec!["boom".to_string()]);

    let py = "def test_one(x):\n    pass\ndef helper():\n  def test_two():\n";
    assert_eq!(find_test_names(py, Language::Python), vec!["test_one".to_string(), "test_two".to_string()]);

    let js = "it(\"does a\", () => {})\ntest('does b', fn)\n  it(`does c`, x)\nit(noquote)\ntest(\"open";
    assert_eq!(
        find_test_names(js, Language::JavaScript),
        vec!["does a".to_string(), "does b".to_string(), "does c".to_string()]
    );
    assert_eq!(find_test_names(js, Language::TypeScript).len(), 3);
    assert!(find_test_names(js, Language::Go).is_empty());
}

#[test]
fn doc_comment_extractors() {
    let rust = "\n\n//! # Module: a\n//!b\n//!\nfn x() {}\n//! later\n";
    assert_eq!(extract_rust_doc_comment(rust), "# Module: a\nb\n");
    assert_eq!(extract_doc_comment(rust, Language::Rust), "# Module: a\nb\n");

    let go = "// Package p\n//does\npackage p\n";
    assert_eq!(extract_go_comment(go), "Package p\ndoes");

    let py = "  \n'''doc\ntext'''\nx = 1\n";
    assert_eq!(extract_python_docstring(py), "doc\ntext");
    assert_eq!(extract_python_docstring("x = '''no'''"), "");

    let js = "/**\n * first\n *second\n   third  \n */ code";
    assert_eq!(extract_jsdoc_comment(js), "first\nsecond\nthird");
    assert_eq!(extract_doc_comment(js, Language::Java), "first\nsecond\nthird");
    assert_eq!(extract_doc_comment(js, Language::Unknown), "");

    assert_eq!(find_rust_test_names("#[test]\n  fn spaced ( ) {}\n"), vec!["spaced".to_string()]);
    assert_eq!(find_js_test_names("test(\"x\", f); it('y')\n"), vec!["x".to_string()]);
}

#[test]
fn documented_forms() {
    // The Go package comment is the `//` run right before `package`.
    let go = "//go:build linux\n\n// # Module: net\npackage net\n";
    assert_eq!(extract_go_comment(go), "# Module: net");
    // A Go file without a package clause keeps its first `//` run.
    assert_eq!(extract_go_comment("// a\n// b\n\n// c\n"), "a\nb");
    // A detached comment before the package comment is not part of it.
    assert_eq!(extract_go_comment("// license\n\n// # Module: x\n//\npackage x\n"), "# Module: x\n");
    assert_eq!(extract_go_comment("// # Module: x\n\npackage x\n"), "");

    // The Python module docstring may follow a shebang and comment lines.
    let py = "#!/usr/bin/env python\n\"\"\"# Module: m\"\"\"\n";
    assert_eq!(extract_python_docstring(py), "# Module: m");
    let py = "# -*- coding: utf-8 -*-\n\n  # note\n'''doc'''";
    assert_eq!(extract_python_docstring(py), "doc");
    assert_eq!(extract_python_docstring("#!/bin/sh"), "");
    assert_eq!(extract_python_docstring("import x\n\"\"\"late\"\"\""), "");

    // Brackets in a description stay there; only a bracket right after the
    // name is an annotation.
    let e = parse_eval_entry("load: reads [config] → ok").unwrap();
    assert_eq!(e.name, "load");
    assert_eq!(e.description, "reads [config] → ok");
    assert_eq!(e.eval_type, None);
    let e = parse_eval_entry("sync — see [boolean] notes").unwrap();
    assert_eq!(e.name, "sync");
    assert_eq!(e.description, "see [boolean] notes");
    assert_eq!(e.eval_type, None);
    let e = parse_eval_entry("sync [boolean] — done").unwrap();
    assert_eq!(e.name, "sync");
    assert_eq!(e.eval_type, Some(EvalType::Boolean));

    // Paths with directories.
    assert_eq!(detect_language("src/main.rs"), Language::Rust);
    assert_eq!(detect_language("/abs/dir/app.tsx"), Language::TypeScript);
    assert_eq!(detect_language("a/b.py/"), Language::Python);
    assert_eq!(detect_language("a/b.py/."), Language::Python);
    assert_eq!(detect_language("a/b.rs/.."), Language::Unknown);
    assert_eq!(detect_language("dir/.rs"), Language::Unknown);
}
