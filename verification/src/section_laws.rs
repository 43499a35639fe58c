//! Laws on how the section parser reads harness text: each list item goes
//! to the section of the nearest heading above it, and the module name is
//! that of the last module line.
use vstd::prelude::*;
use crate::parse::{
    empty_harness, harness_fold, harness_step, is_module_line, module_name, spec_parse_eval_entry,
    spec_parse_harness_sections, EvalView, HarnessView, Section,
};
use crate::text::{is_ws, lines, starts_with, trim, trim_start_matches};

verus! {

/// The harness read from `ls` and the section it ends in.
pub open spec fn harness_run(ls: Seq<Seq<char>>, h: HarnessView, sec: Section) -> (
    HarnessView,
    Section,
)
    decreases ls.len(),
{
    if ls.len() == 0 {
        (h, sec)
    } else {
        let (h2, s2) = harness_step(h, sec, ls[0]);
        harness_run(ls.drop_first(), h2, s2)
    }
}

/// The section a `## ` heading selects.
pub open spec fn heading_section(t: Seq<char>) -> Section {
    if t == "## Spec"@ {
        Section::Spec
    } else if t == "## Agentic Contracts"@ {
        Section::Contracts
    } else if t == "## Evals"@ {
        Section::Evals
    } else {
        Section::Other
    }
}

/// The section after the lines `ls`: the one that the nearest `## `
/// heading selects, or none.
pub open spec fn section_after(ls: Seq<Seq<char>>) -> Section
    decreases ls.len(),
{
    if ls.len() == 0 {
        Section::Other
    } else if starts_with(trim(ls.last()), "## "@) {
        heading_section(trim(ls.last()))
    } else {
        section_after(ls.drop_last())
    }
}

/// The texts of the `- ` items of `ls` that stand in section `sec`, in order.
pub open spec fn section_items(ls: Seq<Seq<char>>, sec: Section) -> Seq<Seq<char>>
    decreases ls.len(),
{
    if ls.len() == 0 {
        Seq::empty()
    } else {
        let t = trim(ls.last());
        let rest = section_items(ls.drop_last(), sec);
        if starts_with(t, "- "@) && section_after(ls.drop_last()) == sec {
            rest.push(t.skip(2))
        } else {
            rest
        }
    }
}

/// The evals that the `- ` items of `ls` in the `Evals` section describe,
/// in order, leaving out the items that do not parse.
pub open spec fn section_evals(ls: Seq<Seq<char>>) -> Seq<EvalView>
    decreases ls.len(),
{
    if ls.len() == 0 {
        Seq::empty()
    } else {
        let t = trim(ls.last());
        let rest = section_evals(ls.drop_last());
        if starts_with(t, "- "@) && section_after(ls.drop_last()) == Section::Evals {
            match spec_parse_eval_entry(t.skip(2)) {
                Some(e) => rest.push(e),
                None => rest,
            }
        } else {
            rest
        }
    }
}

/// The module name of the last module line of `ls`, or nothing.
pub open spec fn module_of(ls: Seq<Seq<char>>) -> Seq<char>
    decreases ls.len(),
{
    if ls.len() == 0 {
        Seq::empty()
    } else if is_module_line(trim(ls.last())) {
        module_name(trim(ls.last()))
    } else {
        module_of(ls.drop_last())
    }
}

/// Reading lines keeps the harness of the run.
proof fn lemma_fold_is_run(ls: Seq<Seq<char>>, h: HarnessView, sec: Section)
    ensures
        harness_fold(ls, h, sec) == harness_run(ls, h, sec).0,
    decreases ls.len(),
{
    if ls.len() > 0 {
        let (h2, s2) = harness_step(h, sec, ls[0]);
        lemma_fold_is_run(ls.drop_first(), h2, s2);
    }
}

/// A run over one more line is one more step.
proof fn lemma_run_push(ls: Seq<Seq<char>>, l: Seq<char>, h: HarnessView, sec: Section)
    ensures
        harness_run(ls.push(l), h, sec) == harness_step(
            harness_run(ls, h, sec).0,
            harness_run(ls, h, sec).1,
            l,
        ),
    decreases ls.len(),
{
    let lp = ls.push(l);
    if ls.len() == 0 {
        assert(lp[0] == l);
        assert(lp.drop_first() =~= Seq::<Seq<char>>::empty());
        let (h2, s2) = harness_step(h, sec, l);
        assert(harness_run(lp.drop_first(), h2, s2) == (h2, s2));
    } else {
        assert(lp[0] == ls[0]);
        assert(lp.drop_first() =~= ls.drop_first().push(l));
        let (h2, s2) = harness_step(h, sec, ls[0]);
        lemma_run_push(ls.drop_first(), l, h2, s2);
    }
}

/// A module line is neither a heading nor an item, and an item no heading.
proof fn lemma_line_kinds(t: Seq<char>)
    ensures
        is_module_line(t) ==> !starts_with(t, "## "@) && !starts_with(t, "- "@),
        starts_with(t, "- "@) ==> !starts_with(t, "## "@) && !is_module_line(t),
        t == "## Spec"@ || t == "## Agentic Contracts"@ || t == "## Evals"@ ==> starts_with(
            t,
            "## "@,
        ),
{
    reveal_strlit("## ");
    reveal_strlit("- ");
    reveal_strlit("# Module:");
    reveal_strlit("# Module ");
    reveal_strlit("## Spec");
    reveal_strlit("## Agentic Contracts");
    reveal_strlit("## Evals");
    if t.len() >= 2 {
        assert(t.take(2)[1] == t[1]);
        assert(t.take(2)[0] == t[0]);
    }
    if starts_with(t, "## "@) {
        assert(t.take(3)[1] == t[1]);
        assert(t.take(3)[0] == t[0]);
    }
    if is_module_line(t) {
        assert(t.take(9)[1] == t[1]);
        assert(t.take(9)[0] == t[0]);
    }
    if t == "## Spec"@ || t == "## Agentic Contracts"@ || t == "## Evals"@ {
        assert(t.take(3) =~= "## "@);
    }
}

/// What the run of the parser gives, line by line from the end.
proof fn lemma_run_shape(ls: Seq<Seq<char>>)
    ensures
        harness_run(ls, empty_harness(), Section::Other) == (
            HarnessView {
                module: module_of(ls),
                spec: section_items(ls, Section::Spec),
                contracts: section_items(ls, Section::Contracts),
                evals: section_evals(ls),
            },
            section_after(ls),
        ),
    decreases ls.len(),
{
    if ls.len() == 0 {
        assert(empty_harness().spec =~= section_items(ls, Section::Spec));
    } else {
        let d = ls.drop_last();
        let l = ls.last();
        assert(ls =~= d.push(l));
        lemma_run_shape(d);
        lemma_run_push(d, l, empty_harness(), Section::Other);
        let t = trim(l);
        lemma_line_kinds(t);
        reveal_strlit("## Spec");
        reveal_strlit("## Agentic Contracts");
        reveal_strlit("## Evals");
        reveal_strlit("- ");
    }
}

/// Each `- ` item goes to the section of the nearest `## ` heading above it:
/// the `Spec` and `Agentic Contracts` items, in order, are the texts after
/// their `- `, and the `Evals` items give, in order, the evals they describe
/// (those that do not parse are left out). Items under any other heading,
/// or under none, are not read.
pub proof fn law_items_fall_in_their_section(text: Seq<char>)
    ensures
        spec_parse_harness_sections(text).spec == section_items(lines(text), Section::Spec),
        spec_parse_harness_sections(text).contracts == section_items(
            lines(text),
            Section::Contracts,
        ),
        spec_parse_harness_sections(text).evals == section_evals(lines(text)),
{
    lemma_fold_is_run(lines(text), empty_harness(), Section::Other);
    lemma_run_shape(lines(text));
}

/// The module name is that of the last module line (`# Module: name` or
/// `# Module name`), and empty without one.
pub proof fn law_module_name_is_the_last_module_line(text: Seq<char>)
    ensures
        spec_parse_harness_sections(text).module == module_of(lines(text)),
{
    lemma_fold_is_run(lines(text), empty_harness(), Section::Other);
    lemma_run_shape(lines(text));
}

/// A name with no whitespace at its ends, no newline, and not starting with `'#'`.
pub open spec fn is_plain_module_name(m: Seq<char>) -> bool {
    &&& m.len() > 0
    &&& !is_ws(m[0])
    &&& !is_ws(m.last())
    &&& m[0] != '#'
    &&& !m.contains('\n')
}

/// The lines of text that ends with a newline-free line.
proof fn lemma_lines_then_line(pre: Seq<char>, l: Seq<char>)
    requires
        pre.len() == 0 || pre.last() == '\n',
        l.len() > 0,
        !l.contains('\n'),
    ensures
        lines(pre + l) == lines(pre).push(l),
{
    crate::laws::lemma_lines_after_no_newline(l, Seq::empty());
    assert(Seq::<char>::empty() + l =~= l);
    if pre.len() == 0 {
        assert(pre + l =~= l);
        assert(lines(pre) =~= Seq::<Seq<char>>::empty());
        assert(lines(pre).push(l) =~= seq![l]);
    } else {
        crate::laws::lemma_lines_after_append(pre, l, Seq::empty());
        assert(lines(pre) + seq![l] =~= lines(pre).push(l));
    }
}

/// A module line of text made of `keyword` and a plain name gives that name.
proof fn lemma_module_line_name(keyword: Seq<char>, m: Seq<char>)
    requires
        keyword == "# Module "@ || keyword == "# Module: "@,
        is_plain_module_name(m),
    ensures
        !(keyword + m).contains('\n'),
        (keyword + m).len() > 0,
        is_module_line(trim(keyword + m)),
        module_name(trim(keyword + m)) == m,
{
    reveal_strlit("# Module ");
    reveal_strlit("# Module: ");
    reveal_strlit("# Module:");
    let l = keyword + m;
    let k = keyword.len() as int;
    assert(!l.contains('\n')) by {
        if l.contains('\n') {
            let j = choose|j: int| 0 <= j < l.len() && l[j] == '\n';
            assert(keyword[j] != '\n' || j >= k);
            assert(m[j - k] == '\n');
            assert(m.contains('\n'));
        }
    }
    assert(l[0] == '#');
    assert(l.last() == m.last());
    assert(trim(l) == l);
    assert(!is_ws(m[0]));
    assert(trim(m) == m);
    assert(m[0] != '#');
    if starts_with(m, "# Module:"@) {
        assert(m.take(9)[0] == m[0]);
    }
    if starts_with(m, "# Module "@) {
        assert(m.take(9)[0] == m[0]);
    }
    assert(trim_start_matches(m, "# Module "@) == m);
    if keyword == "# Module "@ {
        assert(l.take(9) =~= "# Module "@);
        assert(l.take(9)[8] == ' ');
        assert(!starts_with(l, "# Module:"@));
        assert(trim_start_matches(l, "# Module:"@) == l);
        assert(l.skip(9) =~= m);
        assert(trim_start_matches(l, "# Module "@) == m);
    } else {
        assert(l.take(9) =~= "# Module:"@);
        let a = l.skip(9);
        assert(a =~= seq![' '] + m);
        assert(a[0] == ' ');
        if starts_with(a, "# Module:"@) {
            assert(a.take(9)[0] == a[0]);
        }
        if starts_with(a, "# Module "@) {
            assert(a.take(9)[0] == a[0]);
        }
        assert(trim_start_matches(a, "# Module:"@) == a);
        assert(trim_start_matches(l, "# Module:"@) == a);
        assert(trim_start_matches(a, "# Module "@) == a);
        assert(a.drop_first() =~= m);
        assert(crate::text::trim_start(a) == crate::text::trim_start(m));
    }
}

/// A module line names the module whether or not a colon follows the
/// keyword: text that ends with `# Module NAME` or `# Module: NAME`, for a
/// name without whitespace at its ends that does not start with `'#'`,
/// names the module `NAME`, whatever came before.
pub proof fn law_module_line_names_the_module(pre: Seq<char>, m: Seq<char>)
    requires
        pre.len() == 0 || pre.last() == '\n',
        is_plain_module_name(m),
    ensures
        spec_parse_harness_sections(pre + "# Module "@ + m).module == m,
        spec_parse_harness_sections(pre + "# Module: "@ + m).module == m,
{
    reveal_strlit("# Module ");
    reveal_strlit("# Module: ");
    lemma_module_line_name("# Module "@, m);
    lemma_module_line_name("# Module: "@, m);
    let l1 = "# Module "@ + m;
    let l2 = "# Module: "@ + m;
    assert(pre + "# Module "@ + m =~= pre + l1);
    assert(pre + "# Module: "@ + m =~= pre + l2);
    lemma_lines_then_line(pre, l1);
    lemma_lines_then_line(pre, l2);
    law_module_name_is_the_last_module_line(pre + l1);
    law_module_name_is_the_last_module_line(pre + l2);
    assert(lines(pre).push(l1).drop_last() =~= lines(pre));
    assert(lines(pre).push(l2).drop_last() =~= lines(pre));
}

} // verus!
