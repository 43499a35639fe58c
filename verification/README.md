# module_harness

Parse, inventory and check coverage of *module harnesses*: the structured doc
comment at the top of a source file that holds a module's **Spec**, **Agentic
Contracts** and **Evals**.

```
# Module: <name>

## Spec
- <behavioral specification>

## Agentic Contracts
- <invariants callers can rely on>

## Evals
- <eval_name>: <scenario> → <expected outcome>
- <eval_name> [range: 3..8]: <scenario>
```

The comment is a `//!` block in Rust, the `//` package comment right before
the `package` clause in Go, the module docstring in Python (after any shebang
or comment lines) and a `/** ... */` block in TypeScript, JavaScript, Kotlin
and Java. Without a filter, a scan reads `.rs`, `.py`, `.ts`, `.tsx`, `.js`,
`.jsx`, `.go`, `.kt`, `.kts` and `.java` files.

## Layout

- `src/` — the library, verified with Verus. Every public function carries a
  `requires`/`ensures` contract over spec functions on `Seq<char>`:
  - `text` — character-level string operations (`trim`, `find`, `lines`, ...);
  - `eval` — eval types and their bracket annotations;
  - `parse` — language detection, doc comment extraction, section and eval
    entry parsing, test name discovery;
  - `report` — scan selection, harness presence and eval coverage tallies;
  - `laws`, `section_laws`, `coverage_laws` — proved properties that relate
    these functions: the harness reads the same in every comment syntax, code
    after the comment changes nothing, what the format writes reads back,
    each item goes to the section of the nearest heading above it, the module
    name is that of the last module line, annotations and eval entries read
    back, facts about test names, and the counts, file selection and scored
    evals of a whole scan.
- `tests/` — tests of the library on concrete values.
- `app/` — the `module-harness` command line (`parse`, `inventory`, `diff`,
  `coverage`, `score`, `score-file`): file access, JSON output and the
  floating-point scoring of eval values.
