//! Laws on sources without a harness, on the test names found in source
//! and on which evals they cover.
use vstd::prelude::*;
use crate::parse::{empty_harness, harness_fold, names_upto, python_test_name, spec_extract_harness, spec_find_test_names, spec_python_test_names, Language, Section};
use crate::parse::{file_name_extension, last_index_of, last_name_piece, slash_path_extension, EvalView, HarnessView};
use crate::report::{count_true, covered_flags, covers, scan_tally, scored_upto, spec_is_covered, spec_skips_dir};
use crate::text::{is_ws, split_char};
use crate::text::{find, lemma_find_occurs, lines, occurs_at, starts_with, trim};

verus! {

/// A source in no known language has no harness, and only Rust, Python,
/// TypeScript and JavaScript sources name tests.
pub proof fn law_unknown_source_has_no_harness(content: Seq<char>, lang: Language)
    ensures
        spec_extract_harness(content, Language::Unknown) == empty_harness(),
        lang != Language::Rust && lang != Language::Python && lang != Language::TypeScript && lang
            != Language::JavaScript ==> spec_find_test_names(content, lang).len() == 0,
{
    assert(lines(Seq::<char>::empty()) =~= Seq::<Seq<char>>::empty());
    assert(harness_fold(Seq::<Seq<char>>::empty(), empty_harness(), Section::Other)
        == empty_harness());
}

/// Every name that `names_upto` gathers satisfies `pred` when every name
/// that each line gives does.
proof fn lemma_names_upto_all(
    n: int,
    f: spec_fn(int) -> Seq<Seq<char>>,
    pred: spec_fn(Seq<char>) -> bool,
)
    requires
        forall|i: int, k: int| 0 <= i < n && 0 <= k < f(i).len() ==> pred(#[trigger] f(i)[k]),
    ensures
        forall|k: int|
            0 <= k < names_upto(n, f).len() ==> pred(#[trigger] names_upto(n, f)[k]),
    decreases n,
{
    if n > 0 {
        lemma_names_upto_all(n - 1, f, pred);
        let a = names_upto(n - 1, f);
        let b = f(n - 1);
        assert forall|k: int| 0 <= k < (a + b).len() implies pred(#[trigger] (a + b)[k]) by {
            if k >= a.len() {
                assert((a + b)[k] == b[k - a.len()]);
            }
        }
    }
}

/// The Python test names are those of `test_` functions: each starts with
/// `test_` and holds no `'('`.
pub proof fn law_python_test_names_are_test_functions(content: Seq<char>)
    ensures
        forall|k: int|
            0 <= k < spec_python_test_names(content).len() ==> {
                let name = #[trigger] spec_python_test_names(content)[k];
                starts_with(name, "test_"@) && !name.contains('(')
            },
{
    reveal_strlit("test_");
    reveal_strlit("def test_");
    reveal_strlit("def ");
    reveal_strlit("(");
    let ls = lines(content);
    let f = |i: int| python_test_name(ls[i]);
    let pred = |name: Seq<char>| starts_with(name, "test_"@) && !name.contains('(');
    assert forall|i: int, k: int| 0 <= i < ls.len() && 0 <= k < f(i).len() implies pred(
        #[trigger] f(i)[k],
    ) by {
        let t = trim(ls[i]);
        let x = t.skip(4);
        assert(starts_with(t, "def test_"@));
        assert(t.take(9) =~= "def test_"@);
        assert(x.take(5) =~= "test_"@) by {
            assert forall|j: int| 0 <= j < 5 implies x.take(5)[j] == "test_"@[j] by {
                assert(x[j] == t[j + 4]);
                assert(t[j + 4] == t.take(9)[j + 4]);
            }
        }
        lemma_find_occurs(x, "("@, 0);
        let name = f(i)[k];
        match find(x, "("@) {
            Some(e) => {
                assert(x.subrange(e, e + 1)[0] == x[e]);
                if e < 5 {
                    assert(x[e] == x.take(5)[e]);
                }
                assert(name =~= x.take(e));
                assert(name.take(5) =~= "test_"@);
                assert(!name.contains('(')) by {
                    if name.contains('(') {
                        let j = choose|j: int| 0 <= j < name.len() && name[j] == '(';
                        assert(x.subrange(j, j + 1) =~= "("@);
                        assert(occurs_at(x, "("@, j));
                    }
                }
            },
            None => {
                assert(name =~= x);
                assert(!name.contains('(')) by {
                    if name.contains('(') {
                        let j = choose|j: int| 0 <= j < name.len() && name[j] == '(';
                        assert(x.subrange(j, j + 1) =~= "("@);
                        assert(occurs_at(x, "("@, j));
                    }
                }
            },
        }
    }
    lemma_names_upto_all(ls.len() as int, f, pred);
}

/// An eval named like one of the tests is covered.
pub proof fn law_eval_named_like_a_test_is_covered(name: Seq<char>, tests: Seq<Seq<char>>)
    ensures
        tests.contains(name) ==> spec_is_covered(name, tests),
{
    if tests.contains(name) {
        let i = choose|i: int| 0 <= i < tests.len() && tests[i] == name;
        assert(covers(tests[i], name));
    }
}

/// The number of files of a scan that have a harness.
pub open spec fn files_with_harness(files: Seq<(HarnessView, Seq<Seq<char>>)>) -> nat
    decreases files.len(),
{
    if files.len() == 0 {
        0
    } else {
        files_with_harness(files.drop_last()) + (if crate::parse::spec_has_harness(
            files.last().0,
        ) {
            1nat
        } else {
            0nat
        })
    }
}

/// The number of evals over the files of a scan.
pub open spec fn evals_in_files(files: Seq<(HarnessView, Seq<Seq<char>>)>) -> nat
    decreases files.len(),
{
    if files.len() == 0 {
        0
    } else {
        evals_in_files(files.drop_last()) + files.last().0.evals.len()
    }
}

/// The number of evals over the files of a scan that a test of their own
/// file covers.
pub open spec fn covered_in_files(files: Seq<(HarnessView, Seq<Seq<char>>)>) -> nat
    decreases files.len(),
{
    if files.len() == 0 {
        0
    } else {
        covered_in_files(files.drop_last()) + count_true(
            covered_flags(files.last().0.evals, files.last().1),
        )
    }
}

/// There are no more `true` items than items.
proof fn lemma_count_true_le(s: Seq<bool>)
    ensures
        count_true(s) <= s.len(),
    decreases s.len(),
{
    if s.len() > 0 {
        lemma_count_true_le(s.drop_last());
    }
}

/// The counts of a coverage scan are those of the files read: one module
/// per file, the files with a harness, all their evals, and the evals that a
/// test of their own file covers; so the modules with a harness never
/// exceed the modules, and the covered evals never exceed the evals (the
/// two ratios that the report gives lie between 0 and 1).
pub proof fn law_scan_counts_are_the_files_counts(files: Seq<(HarnessView, Seq<Seq<char>>)>)
    ensures
        scan_tally(files).modules_total == files.len(),
        scan_tally(files).modules_with_harness == files_with_harness(files),
        scan_tally(files).evals_total == evals_in_files(files),
        scan_tally(files).evals_covered == covered_in_files(files),
        scan_tally(files).modules_with_harness <= scan_tally(files).modules_total,
        scan_tally(files).evals_covered <= scan_tally(files).evals_total,
    decreases files.len(),
{
    if files.len() > 0 {
        law_scan_counts_are_the_files_counts(files.drop_last());
        let h = files.last().0;
        lemma_count_true_le(covered_flags(h.evals, files.last().1));
    }
}

/// The last index of `c` in `s`, when there is one, holds `c`.
proof fn lemma_last_index_of(s: Seq<char>, c: char)
    ensures
        -1 <= last_index_of(s, c) < s.len(),
        last_index_of(s, c) >= 0 ==> s[last_index_of(s, c)] == c,
    decreases s.len(),
{
    if s.len() > 0 && s.last() != c {
        lemma_last_index_of(s.drop_last(), c);
    }
}

/// A file that a scan selects by extension `x`, on a path whose components
/// `'/'` alone separates, has a file name that ends with `'.'` and `x`.
pub proof fn law_selected_file_names_end_with_the_extension(path: Seq<char>, x: Seq<char>)
    ensures
        slash_path_extension(path) == Some(x) ==> ({
            let f = last_name_piece(split_char(path, '/'))->0;
            &&& last_name_piece(split_char(path, '/')) is Some
            &&& f.len() > x.len()
            &&& f.skip(f.len() - x.len() - 1) == seq!['.'] + x
        }),
{
    if slash_path_extension(path) == Some(x) {
        let f = last_name_piece(split_char(path, '/'))->0;
        lemma_last_index_of(f, '.');
        let k = last_index_of(f, '.');
        assert(file_name_extension(f) == Some(f.skip(k + 1)));
        assert(f.skip(f.len() - x.len() - 1) =~= seq!['.'] + x);
    }
}

/// The evals that `score-file` scores are exactly those with a type whose
/// name has a value, each once and in the order of the harness.
pub proof fn law_scored_evals_are_the_typed_valued_ones(
    evals: Seq<EvalView>,
    valued: Seq<Seq<char>>,
    n: int,
)
    requires
        0 <= n <= evals.len(),
    ensures
        forall|i: int|
            scored_upto(evals, valued, n).contains(i) <==> (0 <= i < n && evals[i].eval_type is Some
                && valued.contains(evals[i].name)),
        forall|j: int, k: int|
            0 <= j < k < scored_upto(evals, valued, n).len() ==> scored_upto(evals, valued, n)[j]
                < scored_upto(evals, valued, n)[k],
        forall|j: int|
            0 <= j < scored_upto(evals, valued, n).len() ==> 0 <= #[trigger] scored_upto(
                evals,
                valued,
                n,
            )[j] < n,
    decreases n,
{
    if n > 0 {
        law_scored_evals_are_the_typed_valued_ones(evals, valued, n - 1);
        let prev = scored_upto(evals, valued, n - 1);
        let cur = scored_upto(evals, valued, n);
        if evals[n - 1].eval_type is Some && valued.contains(evals[n - 1].name) {
            assert(cur =~= prev.push(n - 1));
            assert forall|i: int| cur.contains(i) <==> (0 <= i < n && evals[i].eval_type is Some
                && valued.contains(evals[i].name)) by {
                if cur.contains(i) {
                    let j = choose|j: int| 0 <= j < cur.len() && cur[j] == i;
                    if j < prev.len() {
                        assert(prev.contains(i));
                    }
                }
                if 0 <= i < n - 1 && evals[i].eval_type is Some && valued.contains(evals[i].name) {
                    assert(prev.contains(i));
                    let j = choose|j: int| 0 <= j < prev.len() && prev[j] == i;
                    assert(cur[j] == i);
                }
                if i == n - 1 {
                    assert(cur[prev.len() as int] == i);
                }
            }
        } else {
            assert(cur =~= prev);
            assert forall|i: int| cur.contains(i) <==> (0 <= i < n && evals[i].eval_type is Some
                && valued.contains(evals[i].name)) by {
                if 0 <= i < n - 1 && evals[i].eval_type is Some && valued.contains(evals[i].name) {
                    assert(prev.contains(i));
                }
                if cur.contains(i) {
                    assert(prev.contains(i));
                }
            }
        }
    }
}

/// Whether `p` stands somewhere in `s`, as a run of consecutive chars.
pub open spec fn holds_text(s: Seq<char>, p: Seq<char>) -> bool {
    exists|i: int| 0 <= i && i + p.len() <= s.len() && #[trigger] s.subrange(i, i + p.len()) == p
}

/// What `find` finds is there, and it finds what is there.
proof fn lemma_find_iff_holds(s: Seq<char>, p: Seq<char>)
    ensures
        find(s, p) is Some <==> holds_text(s, p),
{
    lemma_find_occurs(s, p, 0);
    if find(s, p) is Some {
        let j = find(s, p)->0;
        assert(occurs_at(s, p, j));
        assert(s.subrange(j, j + p.len()) == p);
    }
    if holds_text(s, p) {
        let i = choose|i: int| 0 <= i && i + p.len() <= s.len() && #[trigger] s.subrange(i, i + p.len()) == p;
        assert(occurs_at(s, p, i));
    }
}

/// An eval is covered exactly when one of its file's tests holds the eval's
/// name somewhere in its own name, or the eval's name holds the test's name.
pub proof fn law_eval_covered_when_names_overlap(name: Seq<char>, tests: Seq<Seq<char>>)
    ensures
        spec_is_covered(name, tests) <==> exists|k: int|
            0 <= k < tests.len() && (holds_text(#[trigger] tests[k], name) || holds_text(
                name,
                tests[k],
            )),
{
    assert forall|k: int| 0 <= k < tests.len() implies covers(#[trigger] tests[k], name) <==> (
    holds_text(tests[k], name) || holds_text(name, tests[k])) by {
        lemma_find_iff_holds(tests[k], name);
        lemma_find_iff_holds(name, tests[k]);
        if tests[k] == name {
            assert(tests[k].subrange(0, name.len() as int) =~= name);
        }
    }
    if spec_is_covered(name, tests) {
        let k = choose|k: int| 0 <= k < tests.len() && covers(tests[k], name);
        assert(covers(tests[k], name));
    }
    if exists|k: int|
        0 <= k < tests.len() && (holds_text(#[trigger] tests[k], name) || holds_text(
            name,
            tests[k],
        )) {
        let k = choose|k: int|
            0 <= k < tests.len() && (holds_text(#[trigger] tests[k], name) || holds_text(
                name,
                tests[k],
            ));
        assert(covers(tests[k], name));
    }
}

/// A directory is left out of a scan exactly when its name starts with a
/// dot, or is `target` or `node_modules`.
pub proof fn law_skipped_dirs(name: Seq<char>)
    ensures
        spec_skips_dir(name) <==> ((name.len() > 0 && name[0] == '.') || name == seq![
            't',
            'a',
            'r',
            'g',
            'e',
            't',
        ] || name == seq!['n', 'o', 'd', 'e', '_', 'm', 'o', 'd', 'u', 'l', 'e', 's']),
{
    reveal_strlit("target");
    reveal_strlit("node_modules");
    assert("target"@ =~= seq!['t', 'a', 'r', 'g', 'e', 't']);
    assert("node_modules"@ =~= seq!['n', 'o', 'd', 'e', '_', 'm', 'o', 'd', 'u', 'l', 'e', 's']);
}

/// A JavaScript or TypeScript line that opens with `it(` or `test(`, a quote
/// char, a text without that quote, and the same quote again names a test:
/// exactly that text, with any other quote chars in it.
pub proof fn law_js_test_name_is_the_quoted_text(
    l: Seq<char>,
    call: Seq<char>,
    q: char,
    x: Seq<char>,
    rest: Seq<char>,
)
    requires
        !l.contains('\n'),
        call == seq!['i', 't', '('] || call == seq!['t', 'e', 's', 't', '('],
        q == '"' || q == '\'' || q == '`',
        !x.contains(q),
        trim(l) == call + seq![q] + x + seq![q] + rest,
    ensures
        spec_find_test_names(l, Language::JavaScript) == seq![x],
        spec_find_test_names(l, Language::TypeScript) == seq![x],
{
    reveal_strlit("it(");
    reveal_strlit("test(");
    assert("it("@ =~= seq!['i', 't', '(']);
    assert("test("@ =~= seq!['t', 'e', 's', 't', '(']);
    let t = trim(l);
    assert(l.len() > 0) by {
        if l.len() == 0 {
            assert(trim(l) =~= Seq::<char>::empty());
        }
    }
    crate::laws::lemma_lines_after_no_newline(l, Seq::empty());
    assert(Seq::<char>::empty() + l =~= l);
    let ls = lines(l);
    assert(ls =~= seq![l]);
    let f = |i: int| crate::parse::js_test_names_of(ls[i]);
    assert(names_upto(0, f) =~= Seq::<Seq<char>>::empty());
    assert(names_upto(1, f) =~= f(0));
    let tail = seq![q] + rest;
    let body = seq![q] + x + tail;
    assert(t =~= call + body);
    // The name ends at the first quote after the opening one.
    assert(find(x, seq![q]) is None) by {
        assert forall|i: int| 0 <= i < x.len() implies x[i] != q by {
            if x[i] == q {
                assert(x.contains(q));
            }
        }
        crate::laws::lemma_no_char(x, q);
    }
    crate::laws::lemma_find_char_after(x, tail, q);
    assert(find(tail, seq![q]) == Some(0int)) by {
        assert(tail.subrange(0, 1) =~= seq![q]);
        assert(occurs_at(tail, seq![q], 0));
        assert(crate::text::find_from(tail, seq![q], 0) == Some(0int));
    }
    assert(body.skip(1) =~= x + tail);
    assert(body.subrange(1, 1 + x.len() as int) =~= x);
    assert(t.take(call.len() as int) =~= call);
    assert(t.skip(call.len() as int) =~= body);
    assert(crate::parse::is_quote(body[0]));
    assert(crate::parse::js_test_name(t, call) == seq![x]);
    let other = if call == "it("@ { "test("@ } else { "it("@ };
    assert(!starts_with(t, other)) by {
        if starts_with(t, other) {
            assert(t.take(other.len() as int)[0] == t[0]);
            assert(t[0] == call[0]);
        }
    }
    assert(crate::parse::js_test_name(t, other) =~= Seq::<Seq<char>>::empty());
    assert(crate::parse::js_test_names_of(l) =~= seq![x]);
}

} // verus!
