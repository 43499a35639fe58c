//! Inventory and coverage decisions: which files are scanned, whether a
//! module has a harness, and which evals a test covers.
use vstd::prelude::*;
use crate::parse::{
    has_plain_separators, is_extension_of, path_extension, slash_path_extension, spec_has_harness,
    EvalView, Harness, HarnessView,
};
use crate::text::{chars_of, eq_str, find, find_slice, lemma_split_char_len, split_char, string_of, views};

verus! {

broadcast use vstd::seq_lib::group_seq_properties;

/// Whether a harness holds anything: a module name or a spec item.
pub fn has_harness(h: &Harness) -> (res: bool)
    ensures
        res == spec_has_harness(h@),
{
    let m = chars_of(h.module.as_str());
    m.len() > 0 || h.spec.len() > 0
}

/// Whether a test name covers an eval name: they are equal, or one holds the other.
pub open spec fn covers(test: Seq<char>, name: Seq<char>) -> bool {
    test == name || find(test, name) is Some || find(name, test) is Some
}

/// Whether some test of `tests` covers the eval `name`.
pub open spec fn spec_is_covered(name: Seq<char>, tests: Seq<Seq<char>>) -> bool {
    exists|i: int| 0 <= i < tests.len() && covers(tests[i], name)
}

/// Whether some test of `tests` covers the eval `name`.
pub fn eval_is_covered(name: &str, tests: &Vec<String>) -> (res: bool)
    ensures
        res == spec_is_covered(name@, views(tests@)),
{
    let n = chars_of(name);
    let mut i: usize = 0;
    while i < tests.len()
        invariant
            i <= tests@.len(),
            n@ == name@,
            forall|k: int| 0 <= k < i ==> !covers(#[trigger] views(tests@)[k], name@),
        decreases tests@.len() - i,
    {
        let t = chars_of(tests[i].as_str());
        let found = find_slice(t.as_slice(), n.as_slice()).is_some() || find_slice(
            n.as_slice(),
            t.as_slice(),
        ).is_some();
        assert(views(tests@)[i as int] == t@);
        if found {
            assert(covers(views(tests@)[i as int], name@));
            return true;
        }
        proof {
            assert(find(t@, n@) is None);
            if t@ == n@ {
                assert(t@.subrange(0, n@.len() as int) =~= n@);
                assert(find(t@, n@) == Some(0int));
            }
        }
        i += 1;
    }
    false
}

/// The counts that a coverage report gives over the modules it has read.
pub struct CoverageTally {
    pub modules_total: usize,
    pub modules_with_harness: usize,
    pub evals_total: usize,
    pub evals_covered: usize,
}

/// The mathematical value of a [`CoverageTally`].
pub struct TallyCounts {
    pub modules_total: nat,
    pub modules_with_harness: nat,
    pub evals_total: nat,
    pub evals_covered: nat,
}

impl View for CoverageTally {
    type V = TallyCounts;

    open spec fn view(&self) -> TallyCounts {
        TallyCounts {
            modules_total: self.modules_total as nat,
            modules_with_harness: self.modules_with_harness as nat,
            evals_total: self.evals_total as nat,
            evals_covered: self.evals_covered as nat,
        }
    }
}

/// For each eval, in order, whether a test covers it.
pub open spec fn covered_flags(evals: Seq<EvalView>, tests: Seq<Seq<char>>) -> Seq<bool> {
    evals.map_values(|e: EvalView| spec_is_covered(e.name, tests))
}

/// The counts after one more module, with its harness and the tests its
/// file defines.
pub open spec fn tally_step(t: TallyCounts, h: HarnessView, tests: Seq<Seq<char>>) -> TallyCounts {
    TallyCounts {
        modules_total: t.modules_total + 1,
        modules_with_harness: t.modules_with_harness + (if spec_has_harness(h) {
            1nat
        } else {
            0nat
        }),
        evals_total: t.evals_total + h.evals.len(),
        evals_covered: t.evals_covered + count_true(covered_flags(h.evals, tests)),
    }
}

/// The counts of a scan over the files read, each given by its harness and
/// the tests it defines, in the order they were read.
pub open spec fn scan_tally(files: Seq<(HarnessView, Seq<Seq<char>>)>) -> TallyCounts
    decreases files.len(),
{
    if files.len() == 0 {
        TallyCounts { modules_total: 0, modules_with_harness: 0, evals_total: 0, evals_covered: 0 }
    } else {
        tally_step(scan_tally(files.drop_last()), files.last().0, files.last().1)
    }
}

impl CoverageTally {
    /// The counts never exceed their totals.
    pub open spec fn wf(&self) -> bool {
        self.modules_with_harness <= self.modules_total && self.evals_covered <= self.evals_total
    }

    /// No modules read yet.
    pub fn new() -> (res: CoverageTally)
        ensures
            res.modules_total == 0,
            res.modules_with_harness == 0,
            res.evals_total == 0,
            res.evals_covered == 0,
            res@ == scan_tally(Seq::empty()),
            res.wf(),
    {
        CoverageTally { modules_total: 0, modules_with_harness: 0, evals_total: 0, evals_covered: 0 }
    }

    /// Counts one more module with its harness and the tests its file defines,
    /// and gives for each eval, in order, whether a test covers it.
    pub fn add_module(&mut self, harness: &Harness, tests: &Vec<String>) -> (covered: Vec<bool>)
        requires
            old(self).wf(),
            old(self).modules_total < usize::MAX,
            old(self).evals_total + harness.evals@.len() <= usize::MAX,
        ensures
            final(self).modules_total == old(self).modules_total + 1,
            final(self).modules_with_harness == old(self).modules_with_harness + (if spec_has_harness(
                harness@,
            ) {
                1int
            } else {
                0int
            }),
            final(self).evals_total == old(self).evals_total + harness.evals@.len(),
            covered@.len() == harness.evals@.len(),
            forall|i: int|
                0 <= i < covered@.len() ==> covered@[i] == spec_is_covered(
                    harness@.evals[i].name,
                    views(tests@),
                ),
            final(self).evals_covered == old(self).evals_covered + count_true(covered@),
            covered@ == covered_flags(harness@.evals, views(tests@)),
            final(self)@ == tally_step(old(self)@, harness@, views(tests@)),
            final(self).wf(),
    {
        self.modules_total += 1;
        if has_harness(harness) {
            self.modules_with_harness += 1;
        }
        let mut covered: Vec<bool> = Vec::new();
        let mut i: usize = 0;
        let ghost start_total = self.evals_total;
        let ghost start_covered = self.evals_covered;
        while i < harness.evals.len()
            invariant
                i <= harness.evals@.len(),
                start_total + harness.evals@.len() <= usize::MAX,
                self.evals_total == start_total + i,
                self.evals_covered == start_covered + count_true(covered@),
                count_true(covered@) <= i,
                covered@.len() == i,
                forall|k: int|
                    0 <= k < i ==> covered@[k] == spec_is_covered(
                        harness@.evals[k].name,
                        views(tests@),
                    ),
                self.modules_total == old(self).modules_total + 1,
                self.modules_with_harness == old(self).modules_with_harness + (if spec_has_harness(
                    harness@,
                ) {
                    1int
                } else {
                    0int
                }),
                start_total == old(self).evals_total,
                start_covered == old(self).evals_covered,
                start_covered <= start_total,
                self.modules_with_harness <= self.modules_total,
            decreases harness.evals@.len() - i,
        {
            let c = eval_is_covered(harness.evals[i].name.as_str(), tests);
            self.evals_total += 1;
            proof {
                assert(covered@.push(c).drop_last() =~= covered@);
            }
            if c {
                self.evals_covered += 1;
            }
            covered.push(c);
            i += 1;
        }
        assert(covered@ =~= covered_flags(harness@.evals, views(tests@)));
        covered
    }
}

/// The number of `true` items.
pub open spec fn count_true(s: Seq<bool>) -> nat
    decreases s.len(),
{
    if s.len() == 0 {
        0
    } else {
        count_true(s.drop_last()) + (if s.last() {
            1nat
        } else {
            0nat
        })
    }
}

/// Whether a directory is left out of a scan: hidden, `target` or `node_modules`.
pub open spec fn spec_skips_dir(name: Seq<char>) -> bool {
    (name.len() > 0 && name[0] == '.') || name == "target"@ || name == "node_modules"@
}

/// Whether a directory is left out of a scan: hidden, `target` or `node_modules`.
pub fn skips_dir(name: &str) -> (res: bool)
    ensures
        res == spec_skips_dir(name@),
{
    let n = chars_of(name);
    let s = n.as_slice();
    (s.len() > 0 && s[0] == '.') || eq_str(s, "target") || eq_str(s, "node_modules")
}

/// The extensions scanned by default: those of every supported language.
pub open spec fn default_extensions() -> Seq<Seq<char>> {
    seq!["rs"@, "py"@, "ts"@, "tsx"@, "js"@, "jsx"@, "go"@, "kt"@, "kts"@, "java"@]
}

/// The extensions a scan selects: the comma-separated list given, or the defaults.
pub open spec fn spec_extension_list(filter: Option<Seq<char>>) -> Seq<Seq<char>> {
    match filter {
        Some(f) => split_char(f, ','),
        None => default_extensions(),
    }
}

/// The pieces of `s` between the `sep`s.
fn split_char_exec(s: &[char], sep: char) -> (res: Vec<String>)
    ensures
        views(res@) == split_char(s@, sep),
    decreases s.len(),
{
    if s.len() == 0 {
        let mut v: Vec<String> = Vec::new();
        v.push(String::new());
        assert(views(v@) =~= seq![Seq::<char>::empty()]);
        return v;
    }
    let rest_slice = &s[1..s.len()];
    assert(rest_slice@ =~= s@.drop_first());
    let rest = split_char_exec(rest_slice, sep);
    proof {
        lemma_split_char_len(s@.drop_first(), sep);
    }
    let mut out: Vec<String> = Vec::new();
    if s[0] == sep {
        out.push(String::new());
        let mut i: usize = 0;
        while i < rest.len()
            invariant
                i <= rest@.len(),
                views(out@) == seq![Seq::<char>::empty()] + views(rest@).take(i as int),
            decreases rest@.len() - i,
        {
            let piece = chars_of(rest[i].as_str());
            let ghost before = views(out@);
            out.push(string_of(piece.as_slice()));
            assert(views(out@) =~= before.push(piece@));
            assert(views(rest@).take(i + 1) =~= views(rest@).take(i as int).push(views(rest@)[i as int]));
            i += 1;
        }
        assert(views(rest@).take(rest@.len() as int) =~= views(rest@));
    } else {
        let mut i: usize = 0;
        let ghost target = views(rest@).update(0, seq![s@[0]] + views(rest@)[0]);
        while i < rest.len()
            invariant
                i <= rest@.len(),
                rest@.len() >= 1,
                s@.len() > 0,
                target == views(rest@).update(0, seq![s@[0]] + views(rest@)[0]),
                views(out@) == target.take(i as int),
            decreases rest@.len() - i,
        {
            let piece = chars_of(rest[i].as_str());
            let ghost before = views(out@);
            if i == 0 {
                let mut first: Vec<char> = Vec::new();
                first.push(s[0]);
                let mut k: usize = 0;
                while k < piece.len()
                    invariant
                        s@.len() > 0,
                        k <= piece@.len(),
                        first@ == seq![s@[0]] + piece@.take(k as int),
                    decreases piece@.len() - k,
                {
                    first.push(piece[k]);
                    assert(seq![s@[0]] + piece@.take(k + 1) =~= (seq![s@[0]] + piece@.take(k as int)).push(piece@[k as int]));
                    k += 1;
                }
                assert(piece@.take(piece@.len() as int) =~= piece@);
                out.push(string_of(first.as_slice()));
                assert(views(out@) =~= before.push(first@));
            } else {
                out.push(string_of(piece.as_slice()));
                assert(views(out@) =~= before.push(piece@));
            }
            assert(target.take(i + 1) =~= target.take(i as int).push(target[i as int]));
            i += 1;
        }
        assert(target.take(rest@.len() as int) =~= target);
    }
    out
}

/// The extensions a scan selects: the comma-separated list given, or the defaults.
pub fn extension_list(filter: Option<&str>) -> (res: Vec<String>)
    ensures
        views(res@) == spec_extension_list(
            match filter {
                Some(f) => Some(f@),
                None => None,
            },
        ),
{
    match filter {
        Some(f) => {
            let c = chars_of(f);
            split_char_exec(c.as_slice(), ',')
        },
        None => {
            let mut v: Vec<String> = Vec::new();
            v.push(string_of(chars_of("rs").as_slice()));
            v.push(string_of(chars_of("py").as_slice()));
            v.push(string_of(chars_of("ts").as_slice()));
            v.push(string_of(chars_of("tsx").as_slice()));
            v.push(string_of(chars_of("js").as_slice()));
            v.push(string_of(chars_of("jsx").as_slice()));
            v.push(string_of(chars_of("go").as_slice()));
            v.push(string_of(chars_of("kt").as_slice()));
            v.push(string_of(chars_of("kts").as_slice()));
            v.push(string_of(chars_of("java").as_slice()));
            assert(views(v@) =~= default_extensions());
            v
        },
    }
}

/// Whether `names` holds `name`.
pub fn holds_name(name: &str, names: &Vec<String>) -> (res: bool)
    ensures
        res == views(names@).contains(name@),
{
    let mut i: usize = 0;
    while i < names.len()
        invariant
            i <= names@.len(),
            forall|k: int| 0 <= k < i ==> views(names@)[k] != name@,
        decreases names@.len() - i,
    {
        let x = chars_of(names[i].as_str());
        assert(views(names@)[i as int] == x@);
        if eq_str(x.as_slice(), name) {
            return true;
        }
        i += 1;
    }
    false
}

/// Whether a file's extension is one of those selected.
pub fn extension_selected(ext: &str, extensions: &Vec<String>) -> (res: bool)
    ensures
        res == views(extensions@).contains(ext@),
{
    holds_name(ext, extensions)
}

/// Whether a file whose extension is `ext` is selected by `extensions`.
pub open spec fn selects(ext: Option<Seq<char>>, extensions: Seq<Seq<char>>) -> bool {
    match ext {
        Some(x) => extensions.contains(x),
        None => false,
    }
}

/// Whether a scan reads the file at `path`: its extension is one of those
/// selected. Where `'/'` alone separates the path's components, its
/// extension is that of its file name; on every path it holds no `'.'` and
/// follows a `'.'`.
pub fn file_selected(path: &str, extensions: &Vec<String>) -> (res: bool)
    ensures
        exists|ext: Option<Seq<char>>|
            is_extension_of(path@, ext) && res == selects(ext, views(extensions@)),
        has_plain_separators(path@) ==> res == selects(
            slash_path_extension(path@),
            views(extensions@),
        ),
{
    let ext = path_extension(path);
    let ghost e = match ext {
        Some(x) => Some(x@),
        None => None,
    };
    let res = match ext {
        Some(x) => extension_selected(x, extensions),
        None => false,
    };
    assert(is_extension_of(path@, e) && res == selects(e, views(extensions@)));
    res
}

/// The indices, in order, of the first `n` evals that get a score: those
/// with a type whose name has a value.
pub open spec fn scored_upto(evals: Seq<EvalView>, valued: Seq<Seq<char>>, n: int) -> Seq<int>
    decreases n,
{
    if n <= 0 {
        Seq::empty()
    } else {
        scored_upto(evals, valued, n - 1) + (if evals[n - 1].eval_type is Some && valued.contains(
            evals[n - 1].name,
        ) {
            seq![n - 1]
        } else {
            Seq::empty()
        })
    }
}

/// The indices, in order, of the evals of a harness that get a score: those
/// with a type whose name is among the names that have a value.
pub fn evals_to_score(harness: &Harness, valued: &Vec<String>) -> (res: Vec<usize>)
    ensures
        res@.map_values(|i: usize| i as int) == scored_upto(
            harness@.evals,
            views(valued@),
            harness@.evals.len() as int,
        ),
{
    let mut res: Vec<usize> = Vec::new();
    let mut i: usize = 0;
    while i < harness.evals.len()
        invariant
            i <= harness@.evals.len(),
            res@.map_values(|k: usize| k as int) == scored_upto(harness@.evals, views(valued@), i as int),
        decreases harness@.evals.len() - i,
    {
        let e = &harness.evals[i];
        proof {
            assert(harness@.evals[i as int] == e@);
        }
        let ghost before = res@.map_values(|k: usize| k as int);
        if e.eval_type.is_some() && holds_name(e.name.as_str(), valued) {
            res.push(i);
            assert(res@.map_values(|k: usize| k as int) =~= before.push(i as int));
        } else {
            assert(before + Seq::<int>::empty() =~= before);
        }
        i += 1;
    }
    res
}

} // verus!
