//! Harness extraction: the module-level doc comment of a source file, its
//! `Spec`, `Agentic Contracts` and `Evals` sections, and the test names a
//! file defines.
use vstd::prelude::*;
use vstd::slice::slice_to_vec;
use crate::eval::{opt_type_view, parse_eval_type_chars, spec_parse_eval_type, EvalType, EvalTypeView};
use crate::text::{
    chars_of, eq_str, is_ws, is_ws_char, split_char, find, find_char, find_slice, find_str, join, join_lines, lemma_find_occurs, lines,
    occurs_at, split_lines, starts_with, starts_with_slice, starts_with_str, string_of, strip_prefix_str, trim,
    trim_end_char, trim_end_char_slice, trim_slice, trim_start, trim_start_matches,
    trim_start_matches_str, trim_start_slice, views,
};

verus! {

broadcast use vstd::seq_lib::group_seq_properties;

/// A source language, which decides the comment syntax of the harness.
#[derive(Debug, Clone, Copy, PartialEq, Eq, Structural)]
pub enum Language {
    Rust,
    Python,
    TypeScript,
    JavaScript,
    Go,
    Kotlin,
    Java,
    Unknown,
}

/// The language that a file extension names.
pub open spec fn spec_language_for_extension(ext: Option<Seq<char>>) -> Language {
    match ext {
        Some(e) => if e == "rs"@ {
            Language::Rust
        } else if e == "py"@ {
            Language::Python
        } else if e == "ts"@ || e == "tsx"@ {
            Language::TypeScript
        } else if e == "js"@ || e == "jsx"@ {
            Language::JavaScript
        } else if e == "go"@ {
            Language::Go
        } else if e == "kt"@ || e == "kts"@ {
            Language::Kotlin
        } else if e == "java"@ {
            Language::Java
        } else {
            Language::Unknown
        },
        None => Language::Unknown,
    }
}

/// What is known of the extension that the platform's path rules give a path:
/// it holds no `'.'`, and the path holds it right after a `'.'`.
pub open spec fn is_extension_of(path: Seq<char>, ext: Option<Seq<char>>) -> bool {
    match ext {
        Some(e) => !e.contains('.') && exists|i: int| occurs_at(path, seq!['.'] + e, i),
        None => true,
    }
}

/// Whether every platform reads the path's separators alike: it holds no
/// `'\\'` and no `':'` (which some platforms read as a separator or a
/// prefix) and does not start with `"//"`, so `'/'` alone separates its
/// components.
pub open spec fn has_plain_separators(path: Seq<char>) -> bool {
    !path.contains('\\') && !path.contains(':') && !starts_with(path, "//"@)
}

/// The file name among the `'/'`-separated pieces of a path: the last piece
/// that is neither empty nor `"."`.
pub open spec fn last_name_piece(pieces: Seq<Seq<char>>) -> Option<Seq<char>>
    decreases pieces.len(),
{
    if pieces.len() == 0 {
        None
    } else if pieces.last().len() == 0 || pieces.last() == "."@ {
        last_name_piece(pieces.drop_last())
    } else {
        Some(pieces.last())
    }
}

/// The extension of a path whose components `'/'` alone separates: none
/// without a file name or when the last component is `".."`, else that of
/// the file name.
pub open spec fn slash_path_extension(path: Seq<char>) -> Option<Seq<char>> {
    match last_name_piece(split_char(path, '/')) {
        Some(f) => if f == ".."@ {
            None
        } else {
            file_name_extension(f)
        },
        None => None,
    }
}

/// The index of the last `c` in `s`, or `-1`.
pub open spec fn last_index_of(s: Seq<char>, c: char) -> int
    decreases s.len(),
{
    if s.len() == 0 {
        -1
    } else if s.last() == c {
        s.len() - 1
    } else {
        last_index_of(s.drop_last(), c)
    }
}

/// The extension of a file name as `Path::extension` documents it: nothing
/// without an embedded `'.'` or when the name's only `'.'` begins it, else
/// the text after the final `'.'`.
pub open spec fn file_name_extension(name: Seq<char>) -> Option<Seq<char>> {
    let k = last_index_of(name, '.');
    if k <= 0 {
        None
    } else {
        Some(name.skip(k + 1))
    }
}

/// The extension of a path, as `Path::extension` finds it, if it is valid UTF-8.
///
/// Which part of the text is the file name follows the separators of the
/// platform the code runs on, so the contract states what holds on every
/// platform: the extension holds no `'.'` and stands after a `'.'` in the
/// path; and where `'/'` alone separates components on every platform, the
/// documentation of `Path::file_name` and `Path::extension` gives it.
#[verifier::external_body]
pub(crate) fn path_extension(path: &str) -> (res: Option<&str>)
    ensures
        is_extension_of(
            path@,
            match res {
                Some(e) => Some(e@),
                None => None,
            },
        ),
        has_plain_separators(path@) ==> match res {
            Some(e) => Some(e@),
            None => None,
        } == slash_path_extension(path@),
{
    match std::path::Path::new(path).extension() {
        Some(e) => e.to_str(),
        None => None,
    }
}

/// The language that a file extension names.
pub fn language_for_extension(ext: Option<&str>) -> (res: Language)
    ensures
        res == spec_language_for_extension(
            match ext {
                Some(e) => Some(e@),
                None => None,
            },
        ),
{
    match ext {
        Some(e) => {
            let c = chars_of(e);
            let s = c.as_slice();
            if eq_str(s, "rs") {
                Language::Rust
            } else if eq_str(s, "py") {
                Language::Python
            } else if eq_str(s, "ts") || eq_str(s, "tsx") {
                Language::TypeScript
            } else if eq_str(s, "js") || eq_str(s, "jsx") {
                Language::JavaScript
            } else if eq_str(s, "go") {
                Language::Go
            } else if eq_str(s, "kt") || eq_str(s, "kts") {
                Language::Kotlin
            } else if eq_str(s, "java") {
                Language::Java
            } else {
                Language::Unknown
            }
        },
        None => Language::Unknown,
    }
}

/// The language of a source file, from the extension of its path.
pub fn detect_language(path: &str) -> (res: Language)
    ensures
        exists|ext: Option<Seq<char>>|
            is_extension_of(path@, ext) && res == spec_language_for_extension(ext),
        has_plain_separators(path@) ==> res == spec_language_for_extension(
            slash_path_extension(path@),
        ),
{
    let ext = path_extension(path);
    let ghost e = match ext {
        Some(x) => Some(x@),
        None => None,
    };
    let res = language_for_extension(ext);
    assert(is_extension_of(path@, e) && res == spec_language_for_extension(e));
    res
}

// ---------------------------------------------------------------------------
// Harness and evals
// ---------------------------------------------------------------------------

/// One named eval of a harness.
#[derive(Debug, PartialEq)]
pub struct Eval {
    pub name: String,
    pub description: String,
    pub eval_type: Option<EvalType>,
}

/// The harness of a module: its name and the items of its three sections.
#[derive(Debug, PartialEq)]
pub struct Harness {
    pub module: String,
    pub spec: Vec<String>,
    pub contracts: Vec<String>,
    pub evals: Vec<Eval>,
}

/// The mathematical value of an [`Eval`].
pub struct EvalView {
    pub name: Seq<char>,
    pub description: Seq<char>,
    pub eval_type: Option<EvalTypeView>,
}

/// The mathematical value of a [`Harness`].
pub struct HarnessView {
    pub module: Seq<char>,
    pub spec: Seq<Seq<char>>,
    pub contracts: Seq<Seq<char>>,
    pub evals: Seq<EvalView>,
}

impl View for Eval {
    type V = EvalView;

    open spec fn view(&self) -> EvalView {
        EvalView {
            name: self.name@,
            description: self.description@,
            eval_type: opt_type_view(self.eval_type),
        }
    }
}

impl View for Harness {
    type V = HarnessView;

    open spec fn view(&self) -> HarnessView {
        HarnessView {
            module: self.module@,
            spec: views(self.spec@),
            contracts: views(self.contracts@),
            evals: eval_views(self.evals@),
        }
    }
}

/// The views of a sequence of evals.
pub open spec fn eval_views(v: Seq<Eval>) -> Seq<EvalView> {
    v.map_values(|e: Eval| e@)
}

/// The view of an optional eval.
pub open spec fn opt_eval_view(e: Option<Eval>) -> Option<EvalView> {
    match e {
        Some(x) => Some(x@),
        None => None,
    }
}

/// The harness with no module name and empty sections.
pub open spec fn empty_harness() -> HarnessView {
    HarnessView {
        module: Seq::empty(),
        spec: Seq::empty(),
        contracts: Seq::empty(),
        evals: Seq::empty(),
    }
}

impl Default for Harness {
    /// The harness with no module name and empty sections.
    fn default() -> (res: Harness)
        ensures
            res@ == empty_harness(),
    {
        let res = Harness {
            module: String::new(),
            spec: Vec::new(),
            contracts: Vec::new(),
            evals: Vec::new(),
        };
        assert(res@.spec =~= Seq::<Seq<char>>::empty());
        assert(res@.contracts =~= Seq::<Seq<char>>::empty());
        assert(res@.evals =~= Seq::<EvalView>::empty());
        res
    }
}

/// Whether a harness holds anything: a module name or a spec item.
pub open spec fn spec_has_harness(h: HarnessView) -> bool {
    h.module.len() > 0 || h.spec.len() > 0
}

// ---------------------------------------------------------------------------
// Eval entries
// ---------------------------------------------------------------------------

/// The name and description of an eval entry: split at the first `": "`, or
/// else at the first `" — "` (the description then starts at its last
/// space), or else all name.
pub open spec fn entry_parts(text: Seq<char>) -> (Seq<char>, Seq<char>) {
    match find(text, ": "@) {
        Some(p) => (text.take(p), text.skip(p + ": "@.len())),
        None => match find(text, " — "@) {
            Some(p) => (text.take(p), text.skip(p + 2)),
            None => (text, Seq::empty()),
        },
    }
}

/// An entry's name without its backquotes and surrounding whitespace.
pub open spec fn entry_name(name: Seq<char>) -> Seq<char> {
    trim(trim_end_char(trim_start_matches(name, "`"@), '`'))
}

/// The eval that an entry without a type annotation describes.
pub open spec fn spec_parse_eval_entry_inner(
    text: Seq<char>,
    eval_type: Option<EvalTypeView>,
) -> Option<EvalView> {
    let (name, description) = entry_parts(text);
    let n = entry_name(name);
    if n.len() == 0 {
        None
    } else {
        Some(EvalView { name: n, description: trim(description), eval_type })
    }
}

/// Whether the text before a `'['` is a name alone: it holds neither of the
/// separators `": "` and `" — "` that end the name.
pub open spec fn is_name_part(t: Seq<char>) -> bool {
    find(t, ": "@) is None && find(t, " — "@) is None
}

/// The eval that an entry of the `Evals` section describes: a `[...]` right
/// after the name (its `'['` before the separator that ends the name) is a
/// type annotation, which gives the eval's type and is cut out of the text;
/// brackets in the description stay where they are.
pub open spec fn spec_parse_eval_entry(text: Seq<char>) -> Option<EvalView> {
    match find(text, seq!['[']) {
        Some(bs) => if !is_name_part(text.take(bs)) {
            spec_parse_eval_entry_inner(text, None)
        } else {
            match find(text.skip(bs), seq![']']) {
            Some(be) => {
                let annotation = text.subrange(bs + 1, bs + be);
                let remaining = trim(text.take(bs)) + text.skip(bs + be + 1);
                spec_parse_eval_entry_inner(remaining, spec_parse_eval_type(annotation))
            },
                None => spec_parse_eval_entry_inner(text, None),
            }
        },
        None => spec_parse_eval_entry_inner(text, None),
    }
}

/// The concatenation of two char slices.
fn concat_chars(a: &[char], b: &[char]) -> (res: Vec<char>)
    ensures
        res@ == a@ + b@,
{
    let mut res: Vec<char> = Vec::new();
    let mut i: usize = 0;
    while i < a.len()
        invariant
            i <= a@.len(),
            res@ == a@.take(i as int),
        decreases a@.len() - i,
    {
        res.push(a[i]);
        assert(a@.take(i + 1) =~= a@.take(i as int).push(a@[i as int]));
        i += 1;
    }
    let mut j: usize = 0;
    assert(a@.take(a@.len() as int) =~= a@);
    while j < b.len()
        invariant
            j <= b@.len(),
            res@ == a@ + b@.take(j as int),
        decreases b@.len() - j,
    {
        res.push(b[j]);
        assert(a@ + b@.take(j + 1) =~= (a@ + b@.take(j as int)).push(b@[j as int]));
        j += 1;
    }
    assert(b@.take(b@.len() as int) =~= b@);
    res
}

/// Parse an eval entry like "name: description → expected" or "name [type]: description".
pub fn parse_eval_entry(text: &str) -> (res: Option<Eval>)
    ensures
        opt_eval_view(res) == spec_parse_eval_entry(text@),
{
    let t = chars_of(text);
    parse_eval_entry_chars(t.as_slice())
}

/// [`parse_eval_entry`] on the characters of an entry.
pub fn parse_eval_entry_chars(text: &[char]) -> (res: Option<Eval>)
    ensures
        opt_eval_view(res) == spec_parse_eval_entry(text@),
{
    if let Some(bs) = find_char(text, '[') {
        proof {
            lemma_find_occurs(text@, seq!['['], 0);
        }
        let head = &text[0..bs];
        assert(head@ =~= text@.take(bs as int));
        let name_part = find_str(head, ": ").is_none() && find_str(head, " — ").is_none();
        let tail = &text[bs..text.len()];
        if !name_part {
            return parse_eval_entry_inner_chars(text, None);
        }
        if let Some(be) = find_char(tail, ']') {
            proof {
                lemma_find_occurs(tail@, seq![']'], 0);
                assert(tail@.subrange(be as int, be + 1)[0] == ']');
                assert(text@.subrange(bs as int, bs + 1)[0] == '[');
                assert(tail@[be as int] == ']');
                assert(text@[bs as int] == '[');
            }
            assert(be > 0);
            assert(bs + be < text.len());
            let annotation = &text[bs + 1..bs + be];
            let eval_type = parse_eval_type_chars(annotation);
            let before = trim_slice(&text[0..bs]);
            let after = &text[bs + be + 1..text.len()];
            let remaining = concat_chars(before, after);
            assert(tail@ == text@.skip(bs as int));
            assert(after@ =~= text@.skip(bs + be + 1));
            return parse_eval_entry_inner_chars(remaining.as_slice(), eval_type);
        }
    }
    parse_eval_entry_inner_chars(text, None)
}

/// [`parse_eval_entry_inner`] on the characters of an entry.
pub fn parse_eval_entry_inner_chars(text: &[char], eval_type: Option<EvalType>) -> (res: Option<
    Eval,
>)
    ensures
        opt_eval_view(res) == spec_parse_eval_entry_inner(text@, opt_type_view(eval_type)),
{
    let colon = chars_of(": ");
    let dash = chars_of(" — ");
    let (name, description): (&[char], &[char]) = match find_slice(text, colon.as_slice()) {
        Some(p) => {
            proof {
                lemma_find_occurs(text@, colon@, 0);
            }
            assert(p + colon.len() <= text.len());
            (&text[0..p], &text[p + colon.len()..text.len()])
        },
        None => match find_slice(text, dash.as_slice()) {
            Some(p) => {
                proof {
                    lemma_find_occurs(text@, dash@, 0);
                    reveal_strlit(" — ");
                }
                assert(p + 2 <= text.len());
                (&text[0..p], &text[p + 2..text.len()])
            },
            None => (text, &text[0..0]),
        },
    };
    assert(name@ == entry_parts(text@).0);
    assert(description@ =~= entry_parts(text@).1);
    let n = trim_slice(trim_end_char_slice(trim_start_matches_str(name, "`"), '`'));
    if n.len() == 0 {
        return None;
    }
    Some(Eval { name: string_of(n), description: string_of(trim_slice(description)), eval_type })
}

/// Parse an eval entry whose type annotation, if any, was already taken out.
pub fn parse_eval_entry_inner(text: &str, eval_type: Option<EvalType>) -> (res: Option<Eval>)
    ensures
        opt_eval_view(res) == spec_parse_eval_entry_inner(text@, opt_type_view(eval_type)),
{
    let t = chars_of(text);
    parse_eval_entry_inner_chars(t.as_slice(), eval_type)
}

// ---------------------------------------------------------------------------
// Sections
// ---------------------------------------------------------------------------

/// The section of a harness that list items currently belong to.
#[derive(Debug, Clone, Copy, PartialEq, Eq, Structural)]
pub enum Section {
    /// Outside the three sections.
    Other,
    Spec,
    Contracts,
    Evals,
}

/// Whether a trimmed line names the module.
pub open spec fn is_module_line(t: Seq<char>) -> bool {
    starts_with(t, "# Module:"@) || starts_with(t, "# Module "@)
}

/// The module name on a trimmed module line.
pub open spec fn module_name(t: Seq<char>) -> Seq<char> {
    trim(trim_start_matches(trim_start_matches(t, "# Module:"@), "# Module "@))
}

/// What one line of harness text does to the harness read so far and to the
/// current section: a module line sets the name, a section heading selects
/// the section (any other `## ` heading selects none), and a `- ` item is
/// added to the current section (to `Evals` only if it parses as an eval).
pub open spec fn harness_step(h: HarnessView, sec: Section, line: Seq<char>) -> (
    HarnessView,
    Section,
) {
    let t = trim(line);
    if is_module_line(t) {
        (HarnessView { module: module_name(t), ..h }, sec)
    } else if t == "## Spec"@ {
        (h, Section::Spec)
    } else if t == "## Agentic Contracts"@ {
        (h, Section::Contracts)
    } else if t == "## Evals"@ {
        (h, Section::Evals)
    } else if starts_with(t, "## "@) {
        (h, Section::Other)
    } else if starts_with(t, "- "@) {
        let item = t.skip("- "@.len() as int);
        match sec {
            Section::Spec => (HarnessView { spec: h.spec.push(item), ..h }, sec),
            Section::Contracts => (HarnessView { contracts: h.contracts.push(item), ..h }, sec),
            Section::Evals => match spec_parse_eval_entry(item) {
                Some(e) => (HarnessView { evals: h.evals.push(e), ..h }, sec),
                None => (h, sec),
            },
            Section::Other => (h, sec),
        }
    } else {
        (h, sec)
    }
}

/// The harness read from `ls`, starting from `h` in section `sec`.
pub open spec fn harness_fold(ls: Seq<Seq<char>>, h: HarnessView, sec: Section) -> HarnessView
    decreases ls.len(),
{
    if ls.len() == 0 {
        h
    } else {
        let (h2, sec2) = harness_step(h, sec, ls[0]);
        harness_fold(ls.drop_first(), h2, sec2)
    }
}

/// The harness that the text of a doc comment holds, read line by line.
pub open spec fn spec_parse_harness_sections(text: Seq<char>) -> HarnessView {
    harness_fold(lines(text), empty_harness(), Section::Other)
}

/// The harness that a doc comment holds, from its text.
pub fn parse_harness_sections(text: &str) -> (res: Harness)
    ensures
        res@ == spec_parse_harness_sections(text@),
{
    let t = chars_of(text);
    parse_harness_sections_chars(t.as_slice())
}

/// [`parse_harness_sections`] on the characters of the text.
pub fn parse_harness_sections_chars(text: &[char]) -> (res: Harness)
    ensures
        res@ == spec_parse_harness_sections(text@),
{
    let ls = split_lines(text);
    let ghost lsv = ls@.map_values(|l: Vec<char>| l@);
    let mut harness = Harness::default();
    let mut current_section = Section::Other;
    let mut i: usize = 0;
    assert(lsv.skip(0) =~= lsv);
    while i < ls.len()
        invariant
            i <= ls@.len(),
            lsv == ls@.map_values(|l: Vec<char>| l@),
            lsv == lines(text@),
            spec_parse_harness_sections(text@) == harness_fold(
                lsv.skip(i as int),
                harness@,
                current_section,
            ),
        decreases ls@.len() - i,
    {
        proof {
            assert(lsv.skip(i as int).drop_first() =~= lsv.skip(i + 1));
            assert(lsv.skip(i as int)[0] == ls@[i as int]@);
        }
        let ghost before = harness@;
        let ghost before_sec = current_section;
        let trimmed = trim_slice(ls[i].as_slice());
        if starts_with_str(trimmed, "# Module:") || starts_with_str(trimmed, "# Module ") {
            let a = trim_start_matches_str(trimmed, "# Module:");
            let b = trim_start_matches_str(a, "# Module ");
            harness.module = string_of(trim_slice(b));
        } else if eq_str(trimmed, "## Spec") {
            current_section = Section::Spec;
        } else if eq_str(trimmed, "## Agentic Contracts") {
            current_section = Section::Contracts;
        } else if eq_str(trimmed, "## Evals") {
            current_section = Section::Evals;
        } else if starts_with_str(trimmed, "## ") {
            current_section = Section::Other;
        } else if let Some(item) = strip_prefix_str(trimmed, "- ") {
            match current_section {
                Section::Spec => {
                    harness.spec.push(string_of(item));
                    assert(harness@.spec =~= before.spec.push(item@));
                },
                Section::Contracts => {
                    harness.contracts.push(string_of(item));
                    assert(harness@.contracts =~= before.contracts.push(item@));
                },
                Section::Evals => {
                    let parsed = parse_eval_entry_chars(item);
                    if let Some(eval) = parsed {
                        harness.evals.push(eval);
                        assert(harness@.evals =~= before.evals.push(eval@));
                    }
                },
                Section::Other => {},
            }
        }
        proof {
            let (h2, s2) = harness_step(before, before_sec, lsv[i as int]);
            assert(harness@ == h2);
            assert(current_section == s2);
        }
        i += 1;
    }
    harness
}

// ---------------------------------------------------------------------------
// Doc comments
// ---------------------------------------------------------------------------

/// The first index at or after `i` of a line of `ls` that satisfies `p`, or `ls.len()`.
pub open spec fn first_from(ls: Seq<Seq<char>>, i: int, p: spec_fn(Seq<char>) -> bool) -> int
    decreases ls.len() - i,
{
    if i < 0 || i >= ls.len() {
        ls.len() as int
    } else if p(ls[i]) {
        i
    } else {
        first_from(ls, i + 1, p)
    }
}

/// Lines that do not satisfy `p`.
pub open spec fn negated(p: spec_fn(Seq<char>) -> bool) -> spec_fn(Seq<char>) -> bool {
    |l: Seq<char>| !p(l)
}

/// The first run of lines that satisfy `p`: from the first such line up to
/// the first line after it that does not.
pub open spec fn first_run(ls: Seq<Seq<char>>, p: spec_fn(Seq<char>) -> bool) -> Seq<Seq<char>> {
    let k = first_from(ls, 0, p);
    ls.subrange(k, first_from(ls, k, negated(p)))
}

proof fn lemma_first_from_bounds(ls: Seq<Seq<char>>, i: int, p: spec_fn(Seq<char>) -> bool)
    requires
        0 <= i,
    ensures
        first_from(ls, i, p) <= ls.len(),
        i <= ls.len() ==> i <= first_from(ls, i, p),
    decreases ls.len() - i,
{
    if i < ls.len() && !p(ls[i]) {
        lemma_first_from_bounds(ls, i + 1, p);
    }
}

/// Whether a line is a Rust inner doc comment (`//!`).
pub open spec fn is_rust_doc_line(l: Seq<char>) -> bool {
    starts_with(trim(l), "//!"@)
}

pub open spec fn rust_doc_pred() -> spec_fn(Seq<char>) -> bool {
    |l: Seq<char>| is_rust_doc_line(l)
}

/// Whether a line is a `//` comment.
pub open spec fn is_go_comment(l: Seq<char>) -> bool {
    starts_with(trim(l), "//"@)
}

pub open spec fn go_comment_pred() -> spec_fn(Seq<char>) -> bool {
    |l: Seq<char>| is_go_comment(l)
}

/// Whether a line is a `package` clause.
pub open spec fn is_package_line(l: Seq<char>) -> bool {
    starts_with(trim(l), "package "@)
}

pub open spec fn go_package_pred() -> spec_fn(Seq<char>) -> bool {
    |l: Seq<char>| is_package_line(l)
}

/// Where the run of `//` lines that ends right before line `j` starts.
pub open spec fn comment_run_start(ls: Seq<Seq<char>>, j: int) -> int
    decreases j,
{
    if 0 < j <= ls.len() && is_go_comment(ls[j - 1]) {
        comment_run_start(ls, j - 1)
    } else {
        j
    }
}

/// The text of a comment line: the trimmed line after `marker` and one
/// space, or else after `marker` alone, or else nothing.
pub open spec fn comment_text(l: Seq<char>, marker: Seq<char>) -> Seq<char> {
    let t = trim(l);
    if starts_with(t, marker + seq![' ']) {
        t.skip(marker.len() as int + 1)
    } else if starts_with(t, marker) {
        t.skip(marker.len() as int)
    } else {
        Seq::empty()
    }
}

/// The texts of lines after `marker`, joined with newlines.
pub open spec fn comment_texts(ls: Seq<Seq<char>>, marker: Seq<char>) -> Seq<char> {
    join(ls.map_values(|l: Seq<char>| comment_text(l, marker)), "\n"@)
}

/// The module doc comment of Rust source: the texts of its first run of
/// `//!` lines, joined with newlines.
pub open spec fn spec_rust_doc(content: Seq<char>) -> Seq<char> {
    comment_texts(first_run(lines(content), rust_doc_pred()), "//!"@)
}

/// The package comment of Go source: the run of `//` lines that ends right
/// before the first `package` clause; in source without one, the first run
/// of `//` lines.
pub open spec fn go_comment_block(ls: Seq<Seq<char>>) -> Seq<Seq<char>> {
    let p = first_from(ls, 0, go_package_pred());
    if p < ls.len() {
        ls.subrange(comment_run_start(ls, p), p)
    } else {
        first_run(ls, go_comment_pred())
    }
}

/// The package comment of Go source, its texts joined with newlines.
pub open spec fn spec_go_doc(content: Seq<char>) -> Seq<char> {
    comment_texts(go_comment_block(lines(content)), "//"@)
}

/// The text inside a docstring opened and closed by `delim` at the start of `t`.
pub open spec fn docstring_with(t: Seq<char>, delim: Seq<char>) -> Option<Seq<char>> {
    if starts_with(t, delim) {
        let rest = t.skip(delim.len() as int);
        match find(rest, delim) {
            Some(end) => Some(rest.take(end)),
            None => None,
        }
    } else {
        None
    }
}

/// Python source from where its module docstring may start: leading
/// whitespace and `#` comment lines (a shebang among them) are skipped.
/// `in_comment` says whether the text starts inside a comment line.
pub open spec fn python_code_start(s: Seq<char>, in_comment: bool) -> Seq<char>
    decreases s.len(),
{
    if s.len() == 0 {
        s
    } else if in_comment {
        python_code_start(s.drop_first(), s[0] != '\n')
    } else if is_ws(s[0]) {
        python_code_start(s.drop_first(), false)
    } else if s[0] == '#' {
        python_code_start(s.drop_first(), true)
    } else {
        s
    }
}

/// The module docstring of Python source: the text inside a `"""` or `'''`
/// string that comes first in the file, after blank and comment lines, or
/// nothing.
pub open spec fn spec_python_doc(content: Seq<char>) -> Seq<char> {
    let t = python_code_start(content, false);
    match docstring_with(t, "\"\"\""@) {
        Some(d) => d,
        None => match docstring_with(t, "'''"@) {
            Some(d) => d,
            None => Seq::empty(),
        },
    }
}

/// A JSDoc line, trimmed, without its leading `"* "`, or else its leading `"*"`.
pub open spec fn jsdoc_line_text(l: Seq<char>) -> Seq<char> {
    let t = trim(l);
    if starts_with(t, "* "@) {
        t.skip("* "@.len() as int)
    } else if starts_with(t, "*"@) {
        t.skip("*"@.len() as int)
    } else {
        t
    }
}

/// Whether the source opens with the empty comment `/**/`, whose end comes
/// before the start of its text, so that it holds no text to read.
pub open spec fn opens_with_empty_comment(content: Seq<char>) -> bool {
    starts_with(trim_start(content), "/**/"@)
}

/// The `/** ... */` comment that opens the file: its lines without their
/// leading `*`, joined with newlines and trimmed.
pub open spec fn spec_jsdoc(content: Seq<char>) -> Seq<char> {
    let t = trim_start(content);
    if starts_with(t, "/**"@) {
        match find(t, "*/"@) {
            Some(end) => trim(
                join(
                    lines(t.subrange("/**"@.len() as int, end)).map_values(
                        |l: Seq<char>| jsdoc_line_text(l),
                    ),
                    "\n"@,
                ),
            ),
            None => Seq::empty(),
        }
    } else {
        Seq::empty()
    }
}

/// Whether the language writes its harness in a `/** ... */` comment.
pub open spec fn uses_jsdoc(lang: Language) -> bool {
    lang == Language::TypeScript || lang == Language::JavaScript || lang == Language::Kotlin
        || lang == Language::Java
}

/// The module-level doc comment of source in a language.
pub open spec fn spec_doc_comment(content: Seq<char>, lang: Language) -> Seq<char> {
    match lang {
        Language::Rust => spec_rust_doc(content),
        Language::Python => spec_python_doc(content),
        Language::TypeScript | Language::JavaScript | Language::Kotlin | Language::Java => spec_jsdoc(
            content,
        ),
        Language::Go => spec_go_doc(content),
        Language::Unknown => Seq::empty(),
    }
}

/// The harness of source in a language.
pub open spec fn spec_extract_harness(content: Seq<char>, lang: Language) -> HarnessView {
    spec_parse_harness_sections(spec_doc_comment(content, lang))
}

/// The text of one comment line after `marker`.
fn comment_text_exec<'a>(line: &'a [char], marker: &str) -> (res: &'a [char])
    ensures
        res@ == comment_text(line@, marker@),
{
    let t = trim_slice(line);
    let m = chars_of(marker);
    let mut ms = slice_to_vec(m.as_slice());
    ms.push(' ');
    assert(ms@ =~= marker@ + seq![' ']);
    assert(t@.subrange(0, 0) =~= Seq::<char>::empty());
    if starts_with_slice(t, ms.as_slice()) {
        &t[ms.len()..t.len()]
    } else if starts_with_slice(t, m.as_slice()) {
        &t[m.len()..t.len()]
    } else {
        &t[0..0]
    }
}

/// The texts of lines `k..m` of `ls` after `marker`, joined with newlines.
fn comment_texts_exec(ls: &Vec<Vec<char>>, k: usize, m: usize, marker: &str) -> (res: Vec<char>)
    requires
        k <= m <= ls@.len(),
    ensures
        res@ == comment_texts(ls@.map_values(|l: Vec<char>| l@).subrange(k as int, m as int), marker@),
{
    let ghost lsv = ls@.map_values(|l: Vec<char>| l@);
    let ghost f = |l: Seq<char>| comment_text(l, marker@);
    let mut texts: Vec<Vec<char>> = Vec::new();
    let mut i: usize = k;
    while i < m
        invariant
            k <= i <= m <= ls@.len(),
            lsv == ls@.map_values(|l: Vec<char>| l@),
            f == (|l: Seq<char>| comment_text(l, marker@)),
            texts@.map_values(|l: Vec<char>| l@) == lsv.subrange(k as int, i as int).map_values(f),
        decreases m - i,
    {
        let text = comment_text_exec(ls[i].as_slice(), marker);
        let ghost old_texts = texts@.map_values(|l: Vec<char>| l@);
        texts.push(slice_to_vec(text));
        proof {
            assert(texts@.map_values(|l: Vec<char>| l@) =~= old_texts.push(text@));
            assert(lsv.subrange(k as int, i + 1).map_values(f) =~= lsv.subrange(
                k as int,
                i as int,
            ).map_values(f).push(f(lsv[i as int])));
        }
        i += 1;
    }
    let joined = join_lines(&texts);
    proof {
        reveal_strlit("\n");
        assert("\n"@ =~= seq!['\n']);
        let sub = lsv.subrange(k as int, m as int);
        assert(sub.map_values(f) =~= sub.map_values(|l: Seq<char>| comment_text(l, marker@)));
    }
    joined
}

/// The characters of the module doc comment of Rust source.
pub fn rust_doc_chars(content: &[char]) -> (res: Vec<char>)
    ensures
        res@ == spec_rust_doc(content@),
{
    let ls = split_lines(content);
    let ghost lsv = ls@.map_values(|l: Vec<char>| l@);
    let ghost p = rust_doc_pred();
    let mut k: usize = 0;
    while k < ls.len() && !starts_with_str(trim_slice(ls[k].as_slice()), "//!")
        invariant
            k <= ls@.len(),
            lsv == ls@.map_values(|l: Vec<char>| l@),
            p == rust_doc_pred(),
            first_from(lsv, 0, p) == first_from(lsv, k as int, p),
        decreases ls@.len() - k,
    {
        k += 1;
    }
    let mut m: usize = k;
    while m < ls.len() && starts_with_str(trim_slice(ls[m].as_slice()), "//!")
        invariant
            k <= m <= ls@.len(),
            lsv == ls@.map_values(|l: Vec<char>| l@),
            p == rust_doc_pred(),
            first_from(lsv, 0, p) == k,
            first_from(lsv, k as int, negated(p)) == first_from(lsv, m as int, negated(p)),
        decreases ls@.len() - m,
    {
        m += 1;
    }
    comment_texts_exec(&ls, k, m, "//!")
}

/// The module doc comment of Rust source: its first run of `//!` lines.
pub fn extract_rust_doc_comment(content: &str) -> (res: String)
    ensures
        res@ == spec_rust_doc(content@),
{
    let c = chars_of(content);
    let d = rust_doc_chars(c.as_slice());
    string_of(d.as_slice())
}

/// The characters of the package comment of Go source.
pub fn go_doc_chars(content: &[char]) -> (res: Vec<char>)
    ensures
        res@ == spec_go_doc(content@),
{
    let ls = split_lines(content);
    let ghost lsv = ls@.map_values(|l: Vec<char>| l@);
    let ghost pk = go_package_pred();
    let ghost q = go_comment_pred();
    let mut p: usize = 0;
    while p < ls.len() && !starts_with_str(trim_slice(ls[p].as_slice()), "package ")
        invariant
            p <= ls@.len(),
            lsv == ls@.map_values(|l: Vec<char>| l@),
            pk == go_package_pred(),
            first_from(lsv, 0, pk) == first_from(lsv, p as int, pk),
        decreases ls@.len() - p,
    {
        p += 1;
    }
    if p < ls.len() {
        let mut k: usize = p;
        while k > 0 && starts_with_str(trim_slice(ls[k - 1].as_slice()), "//")
            invariant
                k <= p < ls@.len(),
                lsv == ls@.map_values(|l: Vec<char>| l@),
                comment_run_start(lsv, p as int) == comment_run_start(lsv, k as int),
            decreases k,
        {
            k -= 1;
        }
        return comment_texts_exec(&ls, k, p, "//");
    }
    let mut k: usize = 0;
    while k < ls.len() && !starts_with_str(trim_slice(ls[k].as_slice()), "//")
        invariant
            k <= ls@.len(),
            lsv == ls@.map_values(|l: Vec<char>| l@),
            q == go_comment_pred(),
            first_from(lsv, 0, q) == first_from(lsv, k as int, q),
        decreases ls@.len() - k,
    {
        k += 1;
    }
    let mut m: usize = k;
    while m < ls.len() && starts_with_str(trim_slice(ls[m].as_slice()), "//")
        invariant
            k <= m <= ls@.len(),
            lsv == ls@.map_values(|l: Vec<char>| l@),
            q == go_comment_pred(),
            first_from(lsv, 0, q) == k,
            first_from(lsv, k as int, negated(q)) == first_from(lsv, m as int, negated(q)),
        decreases ls@.len() - m,
    {
        m += 1;
    }
    comment_texts_exec(&ls, k, m, "//")
}

/// The package comment of Go source: the `//` lines right before `package`.
pub fn extract_go_comment(content: &str) -> (res: String)
    ensures
        res@ == spec_go_doc(content@),
{
    let c = chars_of(content);
    let d = go_doc_chars(c.as_slice());
    string_of(d.as_slice())
}

/// The text inside a docstring opened and closed by `delim` at the start of `t`.
fn docstring_with_exec<'a>(t: &'a [char], delim: &str) -> (res: Option<&'a [char]>)
    ensures
        match (res, docstring_with(t@, delim@)) {
            (Some(a), Some(b)) => a@ == b,
            (None, None) => true,
            _ => false,
        },
{
    if let Some(rest) = strip_prefix_str(t, delim) {
        let d = chars_of(delim);
        if let Some(end) = find_slice(rest, d.as_slice()) {
            proof {
                lemma_find_occurs(rest@, d@, 0);
            }
            return Some(&rest[0..end]);
        }
    }
    None
}

/// The characters of the module docstring of Python source.
pub fn python_doc_chars(content: &[char]) -> (res: Vec<char>)
    ensures
        res@ == spec_python_doc(content@),
{
    let mut i: usize = 0;
    let mut in_comment = false;
    assert(content@.skip(0) =~= content@);
    while i < content.len() && (in_comment || is_ws_char(content[i]) || content[i] == '#')
        invariant
            i <= content@.len(),
            python_code_start(content@, false) == python_code_start(content@.skip(i as int), in_comment),
        decreases content@.len() - i,
    {
        proof {
            assert(content@.skip(i as int).drop_first() =~= content@.skip(i + 1));
            assert(content@.skip(i as int)[0] == content@[i as int]);
        }
        if in_comment {
            in_comment = content[i] != '\n';
        } else {
            in_comment = content[i] == '#';
        }
        i += 1;
    }
    let t = &content[i..content.len()];
    proof {
        if i == content.len() {
            assert(content@.skip(i as int) =~= Seq::<char>::empty());
        }
    }
    if let Some(d) = docstring_with_exec(t, "\"\"\"") {
        return slice_to_vec(d);
    }
    if let Some(d) = docstring_with_exec(t, "'''") {
        return slice_to_vec(d);
    }
    Vec::new()
}

/// Extract module docstring from Python source (the triple-quoted string that comes first).
pub fn extract_python_docstring(content: &str) -> (res: String)
    ensures
        res@ == spec_python_doc(content@),
{
    let c = chars_of(content);
    let d = python_doc_chars(c.as_slice());
    string_of(d.as_slice())
}

/// A JSDoc line, trimmed, without its leading `"* "` or `"*"`.
fn jsdoc_line_text_exec(line: &[char]) -> (res: &[char])
    ensures
        res@ == jsdoc_line_text(line@),
{
    let t = trim_slice(line);
    match strip_prefix_str(t, "* ") {
        Some(r) => r,
        None => match strip_prefix_str(t, "*") {
            Some(r) => r,
            None => t,
        },
    }
}

/// The characters of the `/** ... */` comment that opens the source.
pub fn jsdoc_chars(content: &[char]) -> (res: Vec<char>)
    requires
        !opens_with_empty_comment(content@),
    ensures
        res@ == spec_jsdoc(content@),
{
    let t = trim_start_slice(content);
    if !starts_with_str(t, "/**") {
        return Vec::new();
    }
    let end = match find_str(t, "*/") {
        Some(e) => e,
        None => {
            return Vec::new();
        },
    };
    proof {
        reveal_strlit("/**");
        reveal_strlit("*/");
        reveal_strlit("/**/");
        lemma_find_occurs(t@, "*/"@, 0);
        assert(t@.take(3)[0] == '/' && t@.take(3)[1] == '*' && t@.take(3)[2] == '*');
        if end < 3 {
            assert(t@.subrange(end as int, end + 2)[0] == '*');
            assert(t@.subrange(end as int, end + 2)[1] == '/');
            assert(end == 2);
            assert(t@.take(4) =~= "/**/"@);
        }
    }
    let block = &t[3..end];
    let ls = split_lines(block);
    let ghost lsv = ls@.map_values(|l: Vec<char>| l@);
    let ghost f = |l: Seq<char>| jsdoc_line_text(l);
    let mut texts: Vec<Vec<char>> = Vec::new();
    let mut i: usize = 0;
    while i < ls.len()
        invariant
            i <= ls@.len(),
            lsv == ls@.map_values(|l: Vec<char>| l@),
            f == (|l: Seq<char>| jsdoc_line_text(l)),
            texts@.map_values(|l: Vec<char>| l@) == lsv.take(i as int).map_values(f),
        decreases ls@.len() - i,
    {
        let text = jsdoc_line_text_exec(ls[i].as_slice());
        let ghost old_texts = texts@.map_values(|l: Vec<char>| l@);
        texts.push(slice_to_vec(text));
        proof {
            assert(texts@.map_values(|l: Vec<char>| l@) =~= old_texts.push(text@));
            assert(lsv.take(i + 1).map_values(f) =~= lsv.take(i as int).map_values(f).push(
                f(lsv[i as int]),
            ));
        }
        i += 1;
    }
    let joined = join_lines(&texts);
    proof {
        reveal_strlit("\n");
        assert("\n"@ =~= seq!['\n']);
        assert(lsv.take(lsv.len() as int) =~= lsv);
        assert(lsv.map_values(f) =~= lsv.map_values(|l: Seq<char>| jsdoc_line_text(l)));
    }
    slice_to_vec(trim_slice(joined.as_slice()))
}

/// Extract JSDoc/KDoc `/** ... */` comment at top of file.
pub fn extract_jsdoc_comment(content: &str) -> (res: String)
    requires
        !opens_with_empty_comment(content@),
    ensures
        res@ == spec_jsdoc(content@),
{
    let c = chars_of(content);
    let d = jsdoc_chars(c.as_slice());
    string_of(d.as_slice())
}

/// The characters of the module-level doc comment of source in a language.
pub fn doc_comment_chars(content: &[char], lang: Language) -> (res: Vec<char>)
    requires
        uses_jsdoc(lang) ==> !opens_with_empty_comment(content@),
    ensures
        res@ == spec_doc_comment(content@, lang),
{
    match lang {
        Language::Rust => rust_doc_chars(content),
        Language::Python => python_doc_chars(content),
        Language::TypeScript | Language::JavaScript | Language::Kotlin | Language::Java => jsdoc_chars(
            content,
        ),
        Language::Go => go_doc_chars(content),
        Language::Unknown => Vec::new(),
    }
}

/// Extract the module-level doc comment from source code.
pub fn extract_doc_comment(content: &str, lang: Language) -> (res: String)
    requires
        uses_jsdoc(lang) ==> !opens_with_empty_comment(content@),
    ensures
        res@ == spec_doc_comment(content@, lang),
{
    let c = chars_of(content);
    let d = doc_comment_chars(c.as_slice(), lang);
    string_of(d.as_slice())
}

/// The harness of source in a language: the sections of its module-level doc comment.
pub fn extract_harness(content: &str, lang: Language) -> (res: Harness)
    requires
        uses_jsdoc(lang) ==> !opens_with_empty_comment(content@),
    ensures
        res@ == spec_extract_harness(content@, lang),
{
    let c = chars_of(content);
    let d = doc_comment_chars(c.as_slice(), lang);
    parse_harness_sections_chars(d.as_slice())
}

// ---------------------------------------------------------------------------
// Test names
// ---------------------------------------------------------------------------

/// The names that lines `0..n` give, in order, where `f` gives the names of
/// one line from its index.
pub open spec fn names_upto(n: int, f: spec_fn(int) -> Seq<Seq<char>>) -> Seq<Seq<char>>
    decreases n,
{
    if n <= 0 {
        Seq::empty()
    } else {
        names_upto(n - 1, f) + f(n - 1)
    }
}

/// `s` up to its first `'('` (`s.split('(').next()`).
pub open spec fn before_paren(s: Seq<char>) -> Seq<char> {
    match find(s, "("@) {
        Some(i) => s.take(i),
        None => s,
    }
}

/// Whether a line is a `#[test]` attribute.
pub open spec fn is_test_attr(l: Seq<char>) -> bool {
    starts_with(trim(l), "#[test]"@)
}

/// Whether a line is an attribute (`#[...]`).
pub open spec fn is_attr_line(l: Seq<char>) -> bool {
    starts_with(trim(l), "#["@)
}

/// Whether the run of attribute lines that ends right before line `j`
/// holds a `#[test]` attribute.
pub open spec fn attrs_have_test(ls: Seq<Seq<char>>, j: int) -> bool
    decreases j,
{
    if 0 < j <= ls.len() && is_attr_line(ls[j - 1]) {
        is_test_attr(ls[j - 1]) || attrs_have_test(ls, j - 1)
    } else {
        false
    }
}

/// The Rust test named on line `i`: a `fn` line whose attributes, on the
/// lines right above it, include `#[test]`.
pub open spec fn rust_test_name_at(ls: Seq<Seq<char>>, i: int) -> Seq<Seq<char>> {
    if 0 <= i < ls.len() && attrs_have_test(ls, i) && starts_with(trim(ls[i]), "fn "@) {
        seq![trim(before_paren(trim(ls[i]).skip("fn "@.len() as int)))]
    } else {
        Seq::empty()
    }
}

/// The Rust test functions of source, in order.
pub open spec fn spec_rust_test_names(content: Seq<char>) -> Seq<Seq<char>> {
    let ls = lines(content);
    names_upto(ls.len() as int, |i: int| rust_test_name_at(ls, i))
}

/// The Python test named on a line: a `def test_...` line.
pub open spec fn python_test_name(l: Seq<char>) -> Seq<Seq<char>> {
    let t = trim(l);
    if starts_with(t, "def test_"@) {
        seq![before_paren(t.skip("def "@.len() as int))]
    } else {
        Seq::empty()
    }
}

/// The Python test functions of source, in order.
pub open spec fn spec_python_test_names(content: Seq<char>) -> Seq<Seq<char>> {
    let ls = lines(content);
    names_upto(ls.len() as int, |i: int| python_test_name(ls[i]))
}

/// Whether a char opens a JavaScript string.
pub open spec fn is_quote(c: char) -> bool {
    c == '"' || c == '\'' || c == '`'
}

/// The name of a test that a trimmed line opens with `call` (`it(` or
/// `test(`): the text of the string literal that is its first argument.
pub open spec fn js_test_name(t: Seq<char>, call: Seq<char>) -> Seq<Seq<char>> {
    if starts_with(t, call) {
        let rest = t.skip(call.len() as int);
        if rest.len() > 0 && is_quote(rest[0]) {
            match find(rest.skip(1), seq![rest[0]]) {
                Some(end) => seq![rest.subrange(1, 1 + end)],
                None => Seq::empty(),
            }
        } else {
            Seq::empty()
        }
    } else {
        Seq::empty()
    }
}

/// The JavaScript tests named on a line: `it("name", ...)` or `test("name", ...)`.
pub open spec fn js_test_names_of(l: Seq<char>) -> Seq<Seq<char>> {
    js_test_name(trim(l), "it("@) + js_test_name(trim(l), "test("@)
}

/// The JavaScript and TypeScript tests of source, in order.
pub open spec fn spec_js_test_names(content: Seq<char>) -> Seq<Seq<char>> {
    let ls = lines(content);
    names_upto(ls.len() as int, |i: int| js_test_names_of(ls[i]))
}

/// The test functions of source in a language.
pub open spec fn spec_find_test_names(content: Seq<char>, lang: Language) -> Seq<Seq<char>> {
    match lang {
        Language::Rust => spec_rust_test_names(content),
        Language::Python => spec_python_test_names(content),
        Language::TypeScript | Language::JavaScript => spec_js_test_names(content),
        _ => Seq::empty(),
    }
}

/// `s` up to its first `'('`.
fn before_paren_exec(s: &[char]) -> (res: &[char])
    ensures
        res@ == before_paren(s@),
{
    match find_str(s, "(") {
        Some(i) => {
            proof {
                lemma_find_occurs(s@, "("@, 0);
            }
            &s[0..i]
        },
        None => s,
    }
}

/// Appends the string of `cs` to `names`.
fn push_name(names: &mut Vec<String>, cs: &[char])
    ensures
        views(final(names)@) == views(old(names)@).push(cs@),
{
    let ghost before = views(names@);
    names.push(string_of(cs));
    assert(views(names@) =~= before.push(cs@));
}

/// The Rust test functions of source.
pub fn rust_test_names_chars(content: &[char]) -> (res: Vec<String>)
    ensures
        views(res@) == spec_rust_test_names(content@),
{
    let ls = split_lines(content);
    let ghost lsv = ls@.map_values(|l: Vec<char>| l@);
    let ghost f = |i: int| rust_test_name_at(lsv, i);
    let mut names: Vec<String> = Vec::new();
    let mut in_test_attrs = false;
    let mut i: usize = 0;
    assert(views(names@) =~= Seq::<Seq<char>>::empty());
    while i < ls.len()
        invariant
            i <= ls@.len(),
            lsv == ls@.map_values(|l: Vec<char>| l@),
            f == (|i: int| rust_test_name_at(lsv, i)),
            in_test_attrs == attrs_have_test(lsv, i as int),
            views(names@) == names_upto(i as int, f),
        decreases ls@.len() - i,
    {
        let trimmed = trim_slice(ls[i].as_slice());
        proof {
            assert(lsv[i as int] == ls@[i as int]@);
        }
        if in_test_attrs {
            if let Some(rest) = strip_prefix_str(trimmed, "fn ") {
                push_name(&mut names, trim_slice(before_paren_exec(rest)));
            } else {
                assert(names_upto(i + 1, f) =~= names_upto(i as int, f));
            }
        } else {
            assert(names_upto(i + 1, f) =~= names_upto(i as int, f));
        }
        if starts_with_str(trimmed, "#[") {
            in_test_attrs = in_test_attrs || starts_with_str(trimmed, "#[test]");
        } else {
            in_test_attrs = false;
        }
        i += 1;
    }
    names
}

/// The Python test functions of source.
pub fn python_test_names_chars(content: &[char]) -> (res: Vec<String>)
    ensures
        views(res@) == spec_python_test_names(content@),
{
    let ls = split_lines(content);
    let ghost lsv = ls@.map_values(|l: Vec<char>| l@);
    let ghost f = |i: int| python_test_name(lsv[i]);
    let mut names: Vec<String> = Vec::new();
    let mut i: usize = 0;
    assert(views(names@) =~= Seq::<Seq<char>>::empty());
    while i < ls.len()
        invariant
            i <= ls@.len(),
            lsv == ls@.map_values(|l: Vec<char>| l@),
            f == (|i: int| python_test_name(lsv[i])),
            views(names@) == names_upto(i as int, f),
        decreases ls@.len() - i,
    {
        let trimmed = trim_slice(ls[i].as_slice());
        if starts_with_str(trimmed, "def test_") {
            proof {
                reveal_strlit("def test_");
                reveal_strlit("def ");
                assert(trimmed@.take(4) =~= "def "@) by {
                    assert(trimmed@.take(9) =~= "def test_"@);
                }
            }
            let rest = &trimmed[4..trimmed.len()];
            push_name(&mut names, before_paren_exec(rest));
        } else {
            assert(names_upto(i + 1, f) =~= names_upto(i as int, f));
        }
        i += 1;
    }
    names
}

/// The name of a test that `t` opens with the call `call`.
fn js_test_name_exec(t: &[char], call: &str, names: &mut Vec<String>)
    ensures
        views(final(names)@) == views(old(names)@) + js_test_name(t@, call@),
{
    if let Some(rest) = strip_prefix_str(t, call) {
        if rest.len() > 0 {
            let q = rest[0];
            if q == '"' || q == '\'' || q == '`' {
                let tail = &rest[1..rest.len()];
                if let Some(end) = find_char(tail, q) {
                    proof {
                        lemma_find_occurs(tail@, seq![q], 0);
                    }
                    push_name(names, &rest[1..1 + end]);
                    return;
                }
            }
        }
    }
    assert(views(names@) + Seq::<Seq<char>>::empty() =~= views(names@));
}

/// The JavaScript and TypeScript tests of source.
pub fn js_test_names_chars(content: &[char]) -> (res: Vec<String>)
    ensures
        views(res@) == spec_js_test_names(content@),
{
    let ls = split_lines(content);
    let ghost lsv = ls@.map_values(|l: Vec<char>| l@);
    let ghost f = |i: int| js_test_names_of(lsv[i]);
    let mut names: Vec<String> = Vec::new();
    let mut i: usize = 0;
    assert(views(names@) =~= Seq::<Seq<char>>::empty());
    while i < ls.len()
        invariant
            i <= ls@.len(),
            lsv == ls@.map_values(|l: Vec<char>| l@),
            f == (|i: int| js_test_names_of(lsv[i])),
            views(names@) == names_upto(i as int, f),
        decreases ls@.len() - i,
    {
        let trimmed = trim_slice(ls[i].as_slice());
        js_test_name_exec(trimmed, "it(", &mut names);
        js_test_name_exec(trimmed, "test(", &mut names);
        i += 1;
    }
    names
}

/// The test functions of source in a language (Rust, Python, TypeScript, JavaScript).
pub fn find_test_names_chars(content: &[char], lang: Language) -> (res: Vec<String>)
    ensures
        views(res@) == spec_find_test_names(content@, lang),
{
    match lang {
        Language::Rust => rust_test_names_chars(content),
        Language::Python => python_test_names_chars(content),
        Language::TypeScript | Language::JavaScript => js_test_names_chars(content),
        _ => {
            let v: Vec<String> = Vec::new();
            assert(views(v@) =~= Seq::<Seq<char>>::empty());
            v
        },
    }
}

/// Find test function names in source code.
pub fn find_test_names(content: &str, lang: Language) -> (res: Vec<String>)
    ensures
        views(res@) == spec_find_test_names(content@, lang),
{
    let c = chars_of(content);
    find_test_names_chars(c.as_slice(), lang)
}

/// Names of Rust test functions: the `fn` right after each `#[test]`.
pub fn find_rust_test_names(content: &str) -> (res: Vec<String>)
    ensures
        views(res@) == spec_rust_test_names(content@),
{
    let c = chars_of(content);
    rust_test_names_chars(c.as_slice())
}

/// Names of Python test functions: each `def test_...`.
pub fn find_python_test_names(content: &str) -> (res: Vec<String>)
    ensures
        views(res@) == spec_python_test_names(content@),
{
    let c = chars_of(content);
    python_test_names_chars(c.as_slice())
}

/// Names of JavaScript tests: each `it("...")` or `test("...")`.
pub fn find_js_test_names(content: &str) -> (res: Vec<String>)
    ensures
        views(res@) == spec_js_test_names(content@),
{
    let c = chars_of(content);
    js_test_names_chars(c.as_slice())
}

} // verus!
